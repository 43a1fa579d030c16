use pnpm_lock::data::{
    DependenciesMeta, DependencyInfo, Error, LockfileVersion, PackageResolution, PackageSnapshot,
    PatchFile, PnpmLockfileData, ProjectSnapshot, VersionFormat,
};

fn s(x: &str) -> String {
    x.to_string()
}

fn smap(pairs: &[(&str, &str)]) -> Vec<(String, String)> {
    pairs.iter().map(|(k, v)| (s(k), s(v))).collect()
}

fn empty_resolution() -> PackageResolution {
    PackageResolution {
        type_field: None,
        integrity: None,
        tarball: None,
        dir: None,
        repo: None,
        commit: None,
    }
}

fn plain_pkg() -> PackageSnapshot {
    PackageSnapshot {
        resolution: empty_resolution(),
        id: None,
        name: None,
        version: None,
        dependencies: None,
        optional_dependencies: None,
        patched: None,
        other: Vec::new(),
    }
}

fn empty_project() -> ProjectSnapshot {
    ProjectSnapshot {
        dependencies: DependencyInfo::PreV6 {
            specifiers: None,
            dependencies: None,
            optional_dependencies: None,
            dev_dependencies: None,
        },
        dependencies_meta: None,
        publish_directory: None,
    }
}

fn patch(path: &str, hash: &str) -> PatchFile {
    PatchFile { path: s(path), hash: s(hash) }
}

fn patch_doc() -> PnpmLockfileData {
    PnpmLockfileData {
        lockfile_version: LockfileVersion { version: s("5.4"), format: VersionFormat::Numeric },
        never_built_dependencies: None,
        only_built_dependencies: None,
        overrides: None,
        package_extensions_checksum: None,
        patched_dependencies: Some(vec![
            (
                s("@babel/core@7.20.12"),
                patch("patches/@babel__core@7.20.12.patch", "3hyn7hbvzkemudbydlwjmrb65y"),
            ),
            (s("is-odd@3.0.1"), patch("patches/is-odd@3.0.1.patch", "nrrwwz7lemethtlvvm75r5bmhq")),
            (
                s("moleculer@0.14.28"),
                patch("patches/moleculer@0.14.28.patch", "kumip57h7zlinbhp4gz3jrbqry"),
            ),
        ]),
        importers: vec![(s("."), empty_project()), (s("packages/dependency"), empty_project())],
        packages: Some(vec![
            (s("/is-odd/3.0.1_nrrwwz7lemethtlvvm75r5bmhq"), plain_pkg()),
            (s("/is-number/6.0.0"), plain_pkg()),
            (s("/@babel/core/7.20.12_3hyn7hbvzkemudbydlwjmrb65y"), plain_pkg()),
            (
                s("/moleculer/0.14.28_5pk7ojv7qbqha75ozglk4y4f74_kumip57h7zlinbhp4gz3jrbqry"),
                plain_pkg(),
            ),
        ]),
        time: None,
    }
}

#[test]
fn test_patches() {
    let lockfile = patch_doc();
    assert_eq!(
        lockfile.patches(),
        vec![
            "patches/@babel__core@7.20.12.patch".to_string(),
            "patches/is-odd@3.0.1.patch".to_string(),
            "patches/moleculer@0.14.28.patch".to_string(),
        ]
    );
}

#[test]
fn test_prune_patches() {
    let lockfile = patch_doc();
    let pruned = lockfile
        .subgraph(
            &["packages/dependency".into()],
            &[
                "/is-odd/3.0.1_nrrwwz7lemethtlvvm75r5bmhq".into(),
                "/is-number/6.0.0".into(),
                "/@babel/core/7.20.12_3hyn7hbvzkemudbydlwjmrb65y".into(),
                "/moleculer/0.14.28_5pk7ojv7qbqha75ozglk4y4f74_kumip57h7zlinbhp4gz3jrbqry".into(),
            ],
        )
        .unwrap();
    assert_eq!(
        pruned.patches(),
        vec![
            "patches/@babel__core@7.20.12.patch",
            "patches/is-odd@3.0.1.patch",
            "patches/moleculer@0.14.28.patch",
        ]
    )
}

fn patch_doc_v6() -> PnpmLockfileData {
    PnpmLockfileData {
        lockfile_version: LockfileVersion { version: s("6.0"), format: VersionFormat::Textual },
        never_built_dependencies: None,
        only_built_dependencies: None,
        overrides: None,
        package_extensions_checksum: None,
        patched_dependencies: Some(vec![
            (
                s("lodash@4.17.21"),
                patch("patches/lodash@4.17.21.patch", "lgum37zgng4nfkynzh3cs7wdeq"),
            ),
            (
                s("@babel/helper-string-parser@7.19.4"),
                patch(
                    "patches/@babel__helper-string-parser@7.19.4.patch",
                    "wjhgmpzh47qmycrzgpeyoyh3ce",
                ),
            ),
        ]),
        importers: vec![
            (s("."), empty_project()),
            (s("packages/a"), empty_project()),
            (s("packages/b"), empty_project()),
        ],
        packages: Some(vec![
            (s("/lodash@4.17.21(patch_hash=lgum37zgng4nfkynzh3cs7wdeq)"), plain_pkg()),
            (
                s(
                    "/@babel/helper-string-parser@7.19.4(patch_hash=wjhgmpzh47qmycrzgpeyoyh3ce)(@babel/core@7.21.0)",
                ),
                plain_pkg(),
            ),
        ]),
        time: None,
    }
}

#[test]
fn test_prune_patches_v6() {
    let lockfile = patch_doc_v6();
    let pruned = lockfile
        .subgraph(
            &["packages/a".into()],
            &["/lodash@4.17.21(patch_hash=lgum37zgng4nfkynzh3cs7wdeq)".into()],
        )
        .unwrap();
    assert_eq!(pruned.patches(), vec!["patches/lodash@4.17.21.patch"]);

    let pruned = lockfile
        .subgraph(
            &["packages/b".into()],
            &["/@babel/helper-string-parser@7.19.\
               4(patch_hash=wjhgmpzh47qmycrzgpeyoyh3ce)(@babel/core@7.21.0)"
                .into()],
        )
        .unwrap();
    assert_eq!(
        pruned.patches(),
        vec!["patches/@babel__helper-string-parser@7.19.4.patch"]
    )
}

#[test]
fn prune_keeps_root_and_requested_workspaces_only() {
    let doc = patch_doc();
    let pruned = doc.subgraph(&["packages/dependency".into()], &[]).unwrap();
    let kept: Vec<&str> = pruned.importers.iter().map(|(k, _)| k.as_str()).collect();
    assert_eq!(kept, vec![".", "packages/dependency"]);
    // nothing requested, nothing injected: the registry is omitted entirely
    assert!(pruned.packages.is_none());
    // the source is untouched
    assert_eq!(doc.packages.as_ref().unwrap().len(), 4);
}

#[test]
fn prune_missing_package_fails_atomically() {
    // a requested key absent from the source fails the whole operation
    let doc = patch_doc();
    let err = doc
        .subgraph(&["packages/dependency".into()], &["/not-there/1.0.0".into()])
        .unwrap_err();
    assert_eq!(err, Error::MissingPackage(s("/not-there/1.0.0")));
}

fn injected_doc() -> PnpmLockfileData {
    // "packages/a" injects dep-b; its package carries a matching patch
    let project_a = ProjectSnapshot {
        dependencies: DependencyInfo::PreV6 {
            specifiers: Some(smap(&[("dep-b", "workspace:*")])),
            dependencies: Some(smap(&[("dep-b", "/dep-b/1.0.0_abcdefhash")])),
            optional_dependencies: None,
            dev_dependencies: None,
        },
        dependencies_meta: Some(vec![(
            s("dep-b"),
            DependenciesMeta { injected: Some(true), node: None, patch: None },
        )]),
        publish_directory: None,
    };
    PnpmLockfileData {
        lockfile_version: LockfileVersion { version: s("5.4"), format: VersionFormat::Numeric },
        never_built_dependencies: None,
        only_built_dependencies: None,
        overrides: None,
        package_extensions_checksum: None,
        patched_dependencies: Some(vec![(
            s("dep-b@1.0.0"),
            patch("patches/dep-b@1.0.0.patch", "abcdefhash"),
        )]),
        importers: vec![(s("."), empty_project()), (s("packages/a"), project_a)],
        packages: Some(vec![(s("/dep-b/1.0.0_abcdefhash"), plain_pkg())]),
        time: None,
    }
}

#[test]
fn prune_keeps_injected_dependency_and_its_patch() {
    // the requested package set omits the injected dependency; it and its
    // matching patch survive anyway
    let doc = injected_doc();
    assert!(doc.injected_deps_resolvable(&["packages/a".into()]));
    let pruned = doc.subgraph(&["packages/a".into()], &[]).unwrap();
    let keys: Vec<&str> = pruned
        .packages
        .as_ref()
        .unwrap()
        .iter()
        .map(|(k, _)| k.as_str())
        .collect();
    assert_eq!(keys, vec!["/dep-b/1.0.0_abcdefhash"]);
    assert_eq!(pruned.patches(), vec!["patches/dep-b@1.0.0.patch"]);
}

#[test]
fn prune_drops_patch_whose_hash_no_longer_matches() {
    // a recorded patch whose hash differs from the surviving key's
    // encoded hash is dropped
    let mut doc = patch_doc();
    if let Some(patches) = doc.patched_dependencies.as_mut() {
        patches[1].1.hash = s("differenthash");
    }
    let pruned = doc
        .subgraph(
            &["packages/dependency".into()],
            &["/is-odd/3.0.1_nrrwwz7lemethtlvvm75r5bmhq".into()],
        )
        .unwrap();
    assert_eq!(pruned.patches(), Vec::<String>::new());
}

#[test]
fn prune_copies_global_fields_and_drops_time() {
    let mut doc = patch_doc();
    doc.overrides = Some(smap(&[("left-pad", "1.3.0")]));
    doc.never_built_dependencies = Some(vec![s("fsevents")]);
    doc.package_extensions_checksum = Some(s("abc123"));
    doc.time = Some(smap(&[("/is-number/6.0.0", "2023-01-01")]));
    let pruned = doc.subgraph(&[], &["/is-number/6.0.0".into()]).unwrap();
    assert_eq!(pruned.overrides, Some(smap(&[("left-pad", "1.3.0")])));
    assert_eq!(pruned.never_built_dependencies, Some(vec![s("fsevents")]));
    assert_eq!(pruned.package_extensions_checksum, Some(s("abc123")));
    assert!(pruned.time.is_none());
    assert_eq!(pruned.lockfile_version, doc.lockfile_version);
}

#[test]
fn prune_carries_opaque_fields_verbatim() {
    // unrecognized snapshot fields round-trip through pruning unchanged
    let mut pkg = plain_pkg();
    pkg.other = vec![
        (s("engines"), serde_yaml::Value::String(s("node >= 14"))),
        (s("hasBin"), serde_yaml::Value::Bool(true)),
    ];
    let mut doc = patch_doc();
    doc.packages = Some(vec![(s("/tool/2.0.0"), pkg)]);
    let pruned = doc.subgraph(&[], &["/tool/2.0.0".into()]).unwrap();
    let kept = &pruned.packages.as_ref().unwrap()[0];
    assert_eq!(kept.0, "/tool/2.0.0");
    assert_eq!(
        kept.1.other,
        vec![
            (s("engines"), serde_yaml::Value::String(s("node >= 14"))),
            (s("hasBin"), serde_yaml::Value::Bool(true)),
        ]
    );
}

#[test]
fn patches_list_is_sorted() {
    let mut doc = patch_doc();
    doc.patched_dependencies = Some(vec![
        (s("zeta@1.0.0"), patch("patches/zeta@1.0.0.patch", "h1")),
        (s("alpha@2.0.0"), patch("patches/alpha@2.0.0.patch", "h2")),
        (s("midway@3.0.0"), patch("patches/midway@3.0.0.patch", "h3")),
    ]);
    assert_eq!(
        doc.patches(),
        vec![
            s("patches/alpha@2.0.0.patch"),
            s("patches/midway@3.0.0.patch"),
            s("patches/zeta@1.0.0.patch"),
        ]
    );
}

#[test]
fn pruning_is_idempotent_here() {
    let doc = injected_doc();
    let once = doc.subgraph(&["packages/a".into()], &[]).unwrap();
    let twice = once.subgraph(&["packages/a".into()], &[]).unwrap();
    assert_eq!(once, twice);
}

#[test]
fn unresolvable_injected_dependency_is_detected() {
    let mut doc = injected_doc();
    // break the injected dependency's resolution record
    if let Some((_, project)) = doc.importers.iter_mut().find(|(k, _)| k == "packages/a") {
        project.dependencies = DependencyInfo::PreV6 {
            specifiers: None,
            dependencies: None,
            optional_dependencies: None,
            dev_dependencies: None,
        };
    }
    assert!(!doc.injected_deps_resolvable(&["packages/a".into()]));
    // the workspace is simply not retained here, so the set is consistent
    assert!(doc.injected_deps_resolvable(&[]));
}
