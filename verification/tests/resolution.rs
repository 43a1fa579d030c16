use pnpm_lock::data::{
    Dependency, DependencyInfo, Error, LockfileVersion, Package, PackageResolution,
    PackageSnapshot, PnpmLockfileData, ProjectSnapshot, VersionFormat,
};

fn s(x: &str) -> String {
    x.to_string()
}

fn smap(pairs: &[(&str, &str)]) -> Vec<(String, String)> {
    pairs.iter().map(|(k, v)| (s(k), s(v))).collect()
}

fn dmap(pairs: &[(&str, &str, &str)]) -> Vec<(String, Dependency)> {
    pairs
        .iter()
        .map(|(k, sp, v)| (s(k), Dependency { specifier: s(sp), version: s(v) }))
        .collect()
}

fn empty_resolution() -> PackageResolution {
    PackageResolution {
        type_field: None,
        integrity: None,
        tarball: None,
        dir: None,
        repo: None,
        commit: None,
    }
}

fn plain_pkg() -> PackageSnapshot {
    PackageSnapshot {
        resolution: empty_resolution(),
        id: None,
        name: None,
        version: None,
        dependencies: None,
        optional_dependencies: None,
        patched: None,
        other: Vec::new(),
    }
}

fn legacy_project(
    specifiers: &[(&str, &str)],
    dependencies: &[(&str, &str)],
    dev: &[(&str, &str)],
    optional: &[(&str, &str)],
) -> ProjectSnapshot {
    ProjectSnapshot {
        dependencies: DependencyInfo::PreV6 {
            specifiers: Some(smap(specifiers)),
            dependencies: Some(smap(dependencies)),
            optional_dependencies: Some(smap(optional)),
            dev_dependencies: Some(smap(dev)),
        },
        dependencies_meta: None,
        publish_directory: None,
    }
}

fn legacy_doc(
    importers: Vec<(String, ProjectSnapshot)>,
    packages: Vec<(String, PackageSnapshot)>,
    overrides: Option<Vec<(String, String)>>,
) -> PnpmLockfileData {
    PnpmLockfileData {
        lockfile_version: LockfileVersion { version: s("5.4"), format: VersionFormat::Numeric },
        never_built_dependencies: None,
        only_built_dependencies: None,
        overrides,
        package_extensions_checksum: None,
        patched_dependencies: None,
        importers,
        packages: Some(packages),
        time: None,
    }
}

fn web_doc() -> PnpmLockfileData {
    legacy_doc(
        vec![
            (s("."), legacy_project(&[], &[], &[], &[])),
            (
                s("apps/web"),
                legacy_project(
                    &[("typescript", "^4.5.3"), ("lodash", "^4.17.21")],
                    &[("lodash", "4.17.21_ehchni3mpmovsvjxesffg2i5a4")],
                    &[("typescript", "4.8.3")],
                    &[],
                ),
            ),
        ],
        vec![
            (s("/typescript/4.8.3"), plain_pkg()),
            (s("/lodash/4.17.21_ehchni3mpmovsvjxesffg2i5a4"), plain_pkg()),
        ],
        None,
    )
}

#[test]
fn resolves_plain_version() {
    // workspace "apps/web", package "typescript", specifier "^4.5.3",
    // no override or peer metadata: the recorded plain version wins.
    let doc = web_doc();
    let got = doc.resolve_specifier("apps/web", "typescript", "^4.5.3").unwrap();
    assert_eq!(got, Some("4.8.3"));
    let pkg = doc.resolve_package("apps/web", "typescript", "^4.5.3").unwrap();
    assert_eq!(
        pkg,
        Some(Package { key: s("/typescript/4.8.3"), version: s("4.8.3") })
    );
}

#[test]
fn undeclared_specifier_is_not_found() {
    // an undeclared (name, specifier) pair is a normal not-found outcome
    let doc = web_doc();
    let got = doc.resolve_specifier("apps/web", "lodash", "bad-tag").unwrap();
    assert_eq!(got, None);
    let pkg = doc.resolve_package("apps/web", "lodash", "bad-tag").unwrap();
    assert_eq!(pkg, None);
}

#[test]
fn missing_workspace_is_an_error() {
    let doc = web_doc();
    let err = doc
        .resolve_specifier("apps/bad_workspace", "typescript", "^4.5.3")
        .unwrap_err();
    assert_eq!(err, Error::MissingWorkspace(s("apps/bad_workspace")));
    let err = doc
        .resolve_package("apps/bad_workspace", "typescript", "^4.5.3")
        .unwrap_err();
    assert_eq!(err, Error::MissingWorkspace(s("apps/bad_workspace")));
}

#[test]
fn empty_path_names_root_workspace() {
    let doc = legacy_doc(
        vec![(
            s("."),
            legacy_project(&[("turbo", "latest")], &[("turbo", "1.4.6")], &[], &[]),
        )],
        vec![(s("/turbo/1.4.6"), plain_pkg())],
        None,
    );
    let got = doc.resolve_specifier("", "turbo", "latest").unwrap();
    assert_eq!(got, Some("1.4.6"));
}

#[test]
fn already_resolved_key_returns_itself() {
    // resolving the key "/@scope/child/1.0.0" returns itself, version "1.0.0"
    let doc = legacy_doc(
        vec![(s("packages/a"), legacy_project(&[], &[], &[], &[]))],
        vec![(s("/@scope/child/1.0.0"), plain_pkg())],
        None,
    );
    let pkg = doc
        .resolve_package("packages/a", "child", "/@scope/child/1.0.0")
        .unwrap();
    assert_eq!(
        pkg,
        Some(Package { key: s("/@scope/child/1.0.0"), version: s("1.0.0") })
    );
}

#[test]
fn peer_suffix_stays_in_resolved_version() {
    // a key with peer annotations resolves to a version carrying them
    let doc = PnpmLockfileData {
        lockfile_version: LockfileVersion { version: s("6.0"), format: VersionFormat::Textual },
        never_built_dependencies: None,
        only_built_dependencies: None,
        overrides: None,
        package_extensions_checksum: None,
        patched_dependencies: None,
        importers: vec![(
            s("apps/web"),
            ProjectSnapshot {
                dependencies: DependencyInfo::V6 {
                    dependencies: Some(dmap(&[(
                        "next",
                        "13.0.4",
                        "13.0.4(react-dom@18.2.0)(react@18.2.0)",
                    )])),
                    optional_dependencies: None,
                    dev_dependencies: None,
                },
                dependencies_meta: None,
                publish_directory: None,
            },
        )],
        packages: Some(vec![(
            s("/next@13.0.4(react-dom@18.2.0)(react@18.2.0)"),
            plain_pkg(),
        )]),
        time: None,
    };
    let pkg = doc.resolve_package("apps/web", "next", "13.0.4").unwrap();
    assert_eq!(
        pkg,
        Some(Package {
            key: s("/next@13.0.4(react-dom@18.2.0)(react@18.2.0)"),
            version: s("13.0.4(react-dom@18.2.0)(react@18.2.0)"),
        })
    );
}

#[test]
fn override_differing_from_record_consults_registry() {
    // with an override in force, the workspace's recorded version is
    // ignored and the registry is consulted under the override-built key
    let doc = legacy_doc(
        vec![(
            s("packages/a"),
            legacy_project(&[("ci-info", "^2.0.0")], &[("ci-info", "2.0.0")], &[], &[]),
        )],
        vec![(s("/ci-info/3.7.1"), plain_pkg()), (s("/ci-info/2.0.0"), plain_pkg())],
        Some(smap(&[("ci-info", "3.7.1")])),
    );
    let got = doc.resolve_specifier("packages/a", "ci-info", "^2.0.0").unwrap();
    assert_eq!(got, Some("3.7.1"));
    let pkg = doc.resolve_package("packages/a", "ci-info", "^2.0.0").unwrap();
    assert_eq!(pkg, Some(Package { key: s("/ci-info/3.7.1"), version: s("3.7.1") }));
}

#[test]
fn override_absent_from_registry_is_not_found() {
    let doc = legacy_doc(
        vec![(
            s("packages/a"),
            legacy_project(&[("ci-info", "^2.0.0")], &[("ci-info", "2.0.0")], &[], &[]),
        )],
        vec![(s("/ci-info/2.0.0"), plain_pkg())],
        Some(smap(&[("ci-info", "3.7.1")])),
    );
    let got = doc.resolve_specifier("packages/a", "ci-info", "^2.0.0").unwrap();
    assert_eq!(got, None);
}

#[test]
fn matching_override_keeps_recorded_version() {
    // when the override equals the recorded specifier the recorded
    // version stays authoritative
    let doc = legacy_doc(
        vec![(
            s("packages/a"),
            legacy_project(&[("ci-info", "3.7.1")], &[("ci-info", "3.7.1")], &[], &[]),
        )],
        vec![(s("/ci-info/3.7.1"), plain_pkg())],
        Some(smap(&[("ci-info", "3.7.1")])),
    );
    let got = doc.resolve_specifier("packages/a", "ci-info", "anything").unwrap();
    assert_eq!(got, Some("3.7.1"));
}

#[test]
fn find_resolution_searches_regular_dev_optional() {
    let proj = legacy_project(
        &[("a", "^1"), ("b", "^2"), ("c", "^3")],
        &[("a", "1.0.0")],
        &[("b", "2.0.0")],
        &[("c", "3.0.0")],
    );
    assert_eq!(proj.dependencies.find_resolution("a"), Some(("^1", "1.0.0")));
    assert_eq!(proj.dependencies.find_resolution("b"), Some(("^2", "2.0.0")));
    assert_eq!(proj.dependencies.find_resolution("c"), Some(("^3", "3.0.0")));
    assert_eq!(proj.dependencies.find_resolution("d"), None);
}

#[test]
fn find_resolution_needs_specifier_in_legacy_shape() {
    // a version recorded without a specifier entry is not a resolution
    let proj = legacy_project(&[], &[("a", "1.0.0")], &[], &[]);
    assert_eq!(proj.dependencies.find_resolution("a"), None);
}

#[test]
fn all_dependencies_regular_wins_collisions() {
    let mut pkg = plain_pkg();
    pkg.dependencies = Some(smap(&[("a", "1.0.0")]));
    pkg.optional_dependencies = Some(smap(&[("a", "9.9.9"), ("b", "3.0.0")]));
    let doc = legacy_doc(vec![], vec![(s("/p/1.0.0"), pkg)], None);
    let got = doc.all_dependencies("/p/1.0.0").unwrap().unwrap();
    assert_eq!(got, vec![(s("a"), s("1.0.0")), (s("b"), s("3.0.0"))]);
    assert_eq!(doc.all_dependencies("/absent/1.0.0").unwrap(), None);
}

#[test]
fn extract_version_joins_suffix_per_generation() {
    let legacy = web_doc();
    assert_eq!(
        legacy.extract_version("/hardhat-deploy-ethers/0.3.0-beta.13_yab2ug5tvye2kp6e24l5x3z7uy"),
        Some(s("0.3.0-beta.13_yab2ug5tvye2kp6e24l5x3z7uy"))
    );
    assert_eq!(legacy.extract_version("not-a-key"), None);
}

#[test]
fn resolved_version_may_itself_be_a_registry_key() {
    // a git-style resolution records the full key as the version; the
    // registry entry's own version field then names the real version
    let mut pkg = plain_pkg();
    pkg.version = Some(s("1.0.0"));
    let doc = legacy_doc(
        vec![(
            s("apps/docs"),
            legacy_project(
                &[("dashboard-icons", "github:peerigon/dashboard-icons")],
                &[("dashboard-icons", "github.com/peerigon/dashboard-icons/ce27ef933144e09cef3911025f3649040a8571b6")],
                &[],
                &[],
            ),
        )],
        vec![(
            s("github.com/peerigon/dashboard-icons/ce27ef933144e09cef3911025f3649040a8571b6"),
            pkg,
        )],
        None,
    );
    let got = doc
        .resolve_package("apps/docs", "dashboard-icons", "github:peerigon/dashboard-icons")
        .unwrap();
    assert_eq!(
        got,
        Some(Package {
            key: s("github.com/peerigon/dashboard-icons/ce27ef933144e09cef3911025f3649040a8571b6"),
            version: s("1.0.0"),
        })
    );
}

#[test]
fn workspace_link_resolution() {
    let doc = PnpmLockfileData {
        lockfile_version: LockfileVersion { version: s("6.0"), format: VersionFormat::Textual },
        never_built_dependencies: None,
        only_built_dependencies: None,
        overrides: None,
        package_extensions_checksum: None,
        patched_dependencies: None,
        importers: vec![(
            s("packages/a"),
            ProjectSnapshot {
                dependencies: DependencyInfo::V6 {
                    dependencies: Some(dmap(&[("c", "workspace:*", "link:../c")])),
                    optional_dependencies: None,
                    dev_dependencies: None,
                },
                dependencies_meta: None,
                publish_directory: None,
            },
        )],
        packages: None,
        time: None,
    };
    let got = doc.resolve_specifier("packages/a", "c", "workspace:*").unwrap();
    assert_eq!(got, Some("link:../c"));
}
