//! The lockfile document model and the resolution engine.
//!
//! A document is parsed once (outside this crate) and then only read; every
//! mapping is an association list with distinct keys.  The specification of
//! each operation is stated over the document's view, a mirror of the data
//! in terms of character sequences.

use vstd::prelude::*;

use crate::keys::{parse_dep_path, parse_key};
use crate::mapx::{
    amap_get, amap_insert_keep, entries_view, lookup, omap_get, omap_view, opt_lookup,
};
use crate::strutil::{sorted_insert, sorted_strs, str_eq};
use vstd::string::StringExecFns;

verus! {

/// Errors surfaced by the engine.  Absence of a resolution is a normal
/// outcome, not an error; these two mark a caller/document mismatch.
#[derive(Debug, Clone, PartialEq, Eq)]
pub enum Error {
    MissingWorkspace(String),
    MissingPackage(String),
}

/// One resolved package: its registry key and its version string.
#[derive(Debug, Clone, PartialEq, Eq)]
pub struct Package {
    pub key: String,
    pub version: String,
}

/// How the schema-version field was written on disk; the textual form marks
/// the modern schema generation.
#[derive(Debug, Clone, Copy, PartialEq, Eq)]
pub enum VersionFormat {
    Numeric,
    Textual,
}

/// The document's schema-version tag, fixed for its whole lifetime.
#[derive(Debug, Clone, PartialEq, Eq)]
pub struct LockfileVersion {
    pub version: String,
    pub format: VersionFormat,
}

pub struct LockfileVersionView {
    pub version: Seq<char>,
    pub format: VersionFormat,
}

impl View for LockfileVersion {
    type V = LockfileVersionView;

    open spec fn view(&self) -> LockfileVersionView {
        LockfileVersionView { version: self.version@, format: self.format }
    }
}

/// One patch registration: the patch file's path and its content hash.
#[derive(Debug, Clone, PartialEq, Eq)]
pub struct PatchFile {
    pub path: String,
    pub hash: String,
}

pub struct PatchFileView {
    pub path: Seq<char>,
    pub hash: Seq<char>,
}

impl View for PatchFile {
    type V = PatchFileView;

    open spec fn view(&self) -> PatchFileView {
        PatchFileView { path: self.path@, hash: self.hash@ }
    }
}

/// A modern-schema dependency record: requested specifier and resolved
/// version in one value.
#[derive(Debug, Clone, PartialEq, Eq)]
pub struct Dependency {
    pub specifier: String,
    pub version: String,
}

pub struct DependencyView {
    pub specifier: Seq<char>,
    pub version: Seq<char>,
}

impl View for Dependency {
    type V = DependencyView;

    open spec fn view(&self) -> DependencyView {
        DependencyView { specifier: self.specifier@, version: self.version@ }
    }
}

impl Dependency {
    /// The record as a `(specifier, version)` pair.
    pub fn as_tuple(&self) -> (r: (&str, &str))
        ensures
            r.0@ == self.specifier@,
            r.1@ == self.version@,
    {
        (self.specifier.as_str(), self.version.as_str())
    }
}

/// Per-workspace dependency declarations.  Exactly one variant is used
/// throughout a document, selected by its schema generation.
#[derive(Debug, Clone, PartialEq, Eq)]
pub enum DependencyInfo {
    PreV6 {
        specifiers: Option<Vec<(String, String)>>,
        dependencies: Option<Vec<(String, String)>>,
        optional_dependencies: Option<Vec<(String, String)>>,
        dev_dependencies: Option<Vec<(String, String)>>,
    },
    V6 {
        dependencies: Option<Vec<(String, Dependency)>>,
        optional_dependencies: Option<Vec<(String, Dependency)>>,
        dev_dependencies: Option<Vec<(String, Dependency)>>,
    },
}

pub enum DependencyInfoView {
    PreV6 {
        specifiers: Option<Seq<(Seq<char>, Seq<char>)>>,
        dependencies: Option<Seq<(Seq<char>, Seq<char>)>>,
        optional_dependencies: Option<Seq<(Seq<char>, Seq<char>)>>,
        dev_dependencies: Option<Seq<(Seq<char>, Seq<char>)>>,
    },
    V6 {
        dependencies: Option<Seq<(Seq<char>, DependencyView)>>,
        optional_dependencies: Option<Seq<(Seq<char>, DependencyView)>>,
        dev_dependencies: Option<Seq<(Seq<char>, DependencyView)>>,
    },
}

impl View for DependencyInfo {
    type V = DependencyInfoView;

    open spec fn view(&self) -> DependencyInfoView {
        match self {
            DependencyInfo::PreV6 { specifiers, dependencies, optional_dependencies, dev_dependencies } => {
                DependencyInfoView::PreV6 {
                    specifiers: omap_view(*specifiers),
                    dependencies: omap_view(*dependencies),
                    optional_dependencies: omap_view(*optional_dependencies),
                    dev_dependencies: omap_view(*dev_dependencies),
                }
            },
            DependencyInfo::V6 { dependencies, optional_dependencies, dev_dependencies } => {
                DependencyInfoView::V6 {
                    dependencies: omap_view(*dependencies),
                    optional_dependencies: omap_view(*optional_dependencies),
                    dev_dependencies: omap_view(*dev_dependencies),
                }
            },
        }
    }
}

impl DependencyInfoView {
    /// The requested specifier and resolved version recorded for `name`:
    /// the legacy shape pairs the specifiers map with the first of the
    /// regular, dev and optional resolution maps that knows the name; the
    /// modern shape reads both from one record, searched in the same order.
    pub open spec fn find_resolution(self, name: Seq<char>) -> Option<(Seq<char>, Seq<char>)> {
        match self {
            DependencyInfoView::PreV6 { specifiers, dependencies, optional_dependencies, dev_dependencies } => {
                match opt_lookup(specifiers, name) {
                    None => None,
                    Some(sp) => {
                        let found = match opt_lookup(dependencies, name) {
                            Some(v) => Some(v),
                            None => match opt_lookup(dev_dependencies, name) {
                                Some(v) => Some(v),
                                None => opt_lookup(optional_dependencies, name),
                            },
                        };
                        match found {
                            None => None,
                            Some(ver) => Some((sp, ver)),
                        }
                    },
                }
            },
            DependencyInfoView::V6 { dependencies, optional_dependencies, dev_dependencies } => {
                let found = match opt_lookup(dependencies, name) {
                    Some(d) => Some(d),
                    None => match opt_lookup(dev_dependencies, name) {
                        Some(d) => Some(d),
                        None => opt_lookup(optional_dependencies, name),
                    },
                };
                match found {
                    None => None,
                    Some(d) => Some((d.specifier, d.version)),
                }
            },
        }
    }
}

impl DependencyInfo {
    /// Looks up the recorded specifier and resolved version for one name.
    pub fn find_resolution<'a>(&'a self, dependency: &str) -> (r: Option<(&'a str, &'a str)>)
        ensures
            match r {
                Some(p) => self@.find_resolution(dependency@) == Some((p.0@, p.1@)),
                None => self@.find_resolution(dependency@) is None,
            },
    {
        match self {
            DependencyInfo::PreV6 { specifiers, dependencies, optional_dependencies, dev_dependencies } => {
                let sp = match omap_get(specifiers, dependency) {
                    None => {
                        return None;
                    },
                    Some(sp) => sp,
                };
                let found = match omap_get(dependencies, dependency) {
                    Some(v) => Some(v),
                    None => match omap_get(dev_dependencies, dependency) {
                        Some(v) => Some(v),
                        None => omap_get(optional_dependencies, dependency),
                    },
                };
                match found {
                    None => None,
                    Some(ver) => Some((sp.as_str(), ver.as_str())),
                }
            },
            DependencyInfo::V6 { dependencies, optional_dependencies, dev_dependencies } => {
                let found = match omap_get(dependencies, dependency) {
                    Some(d) => Some(d),
                    None => match omap_get(dev_dependencies, dependency) {
                        Some(d) => Some(d),
                        None => omap_get(optional_dependencies, dependency),
                    },
                };
                match found {
                    None => None,
                    Some(d) => Some(d.as_tuple()),
                }
            },
        }
    }
}

/// Extra flags a workspace records for one of its dependencies.  An
/// `injected` dependency must survive pruning even when the caller's
/// package set omits it.
#[derive(Debug, Clone, PartialEq, Eq)]
pub struct DependenciesMeta {
    pub injected: Option<bool>,
    pub node: Option<String>,
    pub patch: Option<String>,
}

pub struct DependenciesMetaView {
    pub injected: Option<bool>,
    pub node: Option<Seq<char>>,
    pub patch: Option<Seq<char>>,
}

impl View for DependenciesMeta {
    type V = DependenciesMetaView;

    open spec fn view(&self) -> DependenciesMetaView {
        DependenciesMetaView {
            injected: self.injected,
            node: ostr_view(self.node),
            patch: ostr_view(self.patch),
        }
    }
}

/// One workspace's snapshot: its dependency declarations plus metadata.
#[derive(Debug, Clone, PartialEq, Eq)]
pub struct ProjectSnapshot {
    pub dependencies: DependencyInfo,
    pub dependencies_meta: Option<Vec<(String, DependenciesMeta)>>,
    pub publish_directory: Option<String>,
}

pub struct ProjectSnapshotView {
    pub dependencies: DependencyInfoView,
    pub dependencies_meta: Option<Seq<(Seq<char>, DependenciesMetaView)>>,
    pub publish_directory: Option<Seq<char>>,
}

impl View for ProjectSnapshot {
    type V = ProjectSnapshotView;

    open spec fn view(&self) -> ProjectSnapshotView {
        ProjectSnapshotView {
            dependencies: self.dependencies@,
            dependencies_meta: omap_view(self.dependencies_meta),
            publish_directory: ostr_view(self.publish_directory),
        }
    }
}

/// Opaque provenance of a package; round-tripped unmodified.
#[derive(Debug, Clone, PartialEq, Eq)]
pub struct PackageResolution {
    pub type_field: Option<String>,
    pub integrity: Option<String>,
    pub tarball: Option<String>,
    pub dir: Option<String>,
    pub repo: Option<String>,
    pub commit: Option<String>,
}

pub struct PackageResolutionView {
    pub type_field: Option<Seq<char>>,
    pub integrity: Option<Seq<char>>,
    pub tarball: Option<Seq<char>>,
    pub dir: Option<Seq<char>>,
    pub repo: Option<Seq<char>>,
    pub commit: Option<Seq<char>>,
}

impl View for PackageResolution {
    type V = PackageResolutionView;

    open spec fn view(&self) -> PackageResolutionView {
        PackageResolutionView {
            type_field: ostr_view(self.type_field),
            integrity: ostr_view(self.integrity),
            tarball: ostr_view(self.tarball),
            dir: ostr_view(self.dir),
            repo: ostr_view(self.repo),
            commit: ostr_view(self.commit),
        }
    }
}

/// One registry package: provenance, optional recorded name and version,
/// its dependency maps, and any unrecognized fields, kept verbatim.
#[derive(Debug, Clone, PartialEq)]
pub struct PackageSnapshot {
    pub resolution: PackageResolution,
    pub id: Option<String>,
    pub name: Option<String>,
    pub version: Option<String>,
    pub dependencies: Option<Vec<(String, String)>>,
    pub optional_dependencies: Option<Vec<(String, String)>>,
    pub patched: Option<bool>,
    pub other: Vec<(String, serde_yaml::Value)>,
}

pub struct PackageSnapshotView {
    pub resolution: PackageResolutionView,
    pub id: Option<Seq<char>>,
    pub name: Option<Seq<char>>,
    pub version: Option<Seq<char>>,
    pub dependencies: Option<Seq<(Seq<char>, Seq<char>)>>,
    pub optional_dependencies: Option<Seq<(Seq<char>, Seq<char>)>>,
    pub patched: Option<bool>,
    pub other: Seq<(Seq<char>, serde_yaml::Value)>,
}

/// The view of the opaque pass-through entries: keys as character
/// sequences, values as they stand.
pub open spec fn vals_view(s: Seq<(String, serde_yaml::Value)>) -> Seq<(Seq<char>, serde_yaml::Value)> {
    s.map_values(|p: (String, serde_yaml::Value)| (p.0@, p.1))
}

impl View for PackageSnapshot {
    type V = PackageSnapshotView;

    open spec fn view(&self) -> PackageSnapshotView {
        PackageSnapshotView {
            resolution: self.resolution@,
            id: ostr_view(self.id),
            name: ostr_view(self.name),
            version: ostr_view(self.version),
            dependencies: omap_view(self.dependencies),
            optional_dependencies: omap_view(self.optional_dependencies),
            patched: self.patched,
            other: vals_view(self.other@),
        }
    }
}

impl PackageSnapshotView {
    /// The flattened dependency map: regular entries first, optional
    /// entries only for names the regular map does not bind.
    pub open spec fn combined_dep(self, name: Seq<char>) -> Option<Seq<char>> {
        match opt_lookup(self.dependencies, name) {
            Some(v) => Some(v),
            None => opt_lookup(self.optional_dependencies, name),
        }
    }
}

/// The view of an optional string.
pub open spec fn ostr_view(o: Option<String>) -> Option<Seq<char>> {
    match o {
        Some(s) => Some(s@),
        None => None,
    }
}

/// The view of an optional list of strings.
pub open spec fn olist_view(o: Option<Vec<String>>) -> Option<Seq<Seq<char>>> {
    match o {
        Some(v) => Some(v@.map_values(|s: String| s@)),
        None => None,
    }
}

/// The whole lockfile document.
#[derive(Debug, Clone, PartialEq)]
pub struct PnpmLockfileData {
    pub lockfile_version: LockfileVersion,
    pub never_built_dependencies: Option<Vec<String>>,
    pub only_built_dependencies: Option<Vec<String>>,
    pub overrides: Option<Vec<(String, String)>>,
    pub package_extensions_checksum: Option<String>,
    pub patched_dependencies: Option<Vec<(String, PatchFile)>>,
    pub importers: Vec<(String, ProjectSnapshot)>,
    pub packages: Option<Vec<(String, PackageSnapshot)>>,
    pub time: Option<Vec<(String, String)>>,
}

pub struct DocView {
    pub lockfile_version: LockfileVersionView,
    pub never_built_dependencies: Option<Seq<Seq<char>>>,
    pub only_built_dependencies: Option<Seq<Seq<char>>>,
    pub overrides: Option<Seq<(Seq<char>, Seq<char>)>>,
    pub package_extensions_checksum: Option<Seq<char>>,
    pub patched_dependencies: Option<Seq<(Seq<char>, PatchFileView)>>,
    pub importers: Seq<(Seq<char>, ProjectSnapshotView)>,
    pub packages: Option<Seq<(Seq<char>, PackageSnapshotView)>>,
    pub time: Option<Seq<(Seq<char>, Seq<char>)>>,
}

impl View for PnpmLockfileData {
    type V = DocView;

    open spec fn view(&self) -> DocView {
        DocView {
            lockfile_version: self.lockfile_version@,
            never_built_dependencies: olist_view(self.never_built_dependencies),
            only_built_dependencies: olist_view(self.only_built_dependencies),
            overrides: omap_view(self.overrides),
            package_extensions_checksum: ostr_view(self.package_extensions_checksum),
            patched_dependencies: omap_view(self.patched_dependencies),
            importers: entries_view(self.importers@),
            packages: omap_view(self.packages),
            time: omap_view(self.time),
        }
    }
}

impl DocView {
    /// The document uses the modern schema generation.
    pub open spec fn is_v6(self) -> bool {
        self.lockfile_version.format is Textual
    }

    /// The key under which a workspace path is looked up; the root
    /// workspace is recorded under the reserved key `.`.
    pub open spec fn workspace_key(w: Seq<char>) -> Seq<char> {
        if w.len() == 0 {
            seq!['.']
        } else {
            w
        }
    }

    pub open spec fn importer_lookup(self, w: Seq<char>) -> Option<ProjectSnapshotView> {
        lookup(self.importers, Self::workspace_key(w))
    }

    pub open spec fn pkg_lookup(self, key: Seq<char>) -> Option<PackageSnapshotView> {
        opt_lookup(self.packages, key)
    }

    /// The registry key built from a name and a version, in the
    /// generation's own encoding.
    pub open spec fn format_key(self, name: Seq<char>, version: Seq<char>) -> Seq<char> {
        if self.is_v6() {
            seq!['/'] + name + seq!['@'] + version
        } else {
            seq!['/'] + name + seq!['/'] + version
        }
    }

    /// The globally overridden specifier for `name`, if any.
    pub open spec fn override_for(self, name: Seq<char>) -> Option<Seq<char>> {
        opt_lookup(self.overrides, name)
    }

    /// The specifier that resolution must honour: a global override wins
    /// over the requested one; the workspace's own record is never
    /// rewritten.
    pub open spec fn effective_specifier(self, name: Seq<char>, specifier: Seq<char>) -> Seq<
        char,
    > {
        match self.override_for(name) {
            Some(o) => o,
            None => specifier,
        }
    }

    /// The version string encoded by a registry key: its version part with
    /// the peer suffix re-attached in the generation's own spelling.
    pub open spec fn extract_version(self, key: Seq<char>) -> Option<Seq<char>> {
        match parse_key(key) {
            None => None,
            Some(kp) => match kp.peer_suffix {
                None => Some(kp.version),
                Some(sfx) => if self.is_v6() {
                    Some(kp.version + sfx)
                } else {
                    Some(kp.version + seq!['_'] + sfx)
                },
            },
        }
    }

    /// Resolution of `(name, specifier)` inside a found workspace: the
    /// recorded version is authoritative when the recorded specifier equals
    /// the effective one; otherwise the registry is consulted under the key
    /// built from the effective specifier.
    pub open spec fn resolve_specifier_in(
        self,
        imp: ProjectSnapshotView,
        name: Seq<char>,
        specifier: Seq<char>,
    ) -> Option<Seq<char>> {
        match imp.dependencies.find_resolution(name) {
            None => None,
            Some(found) => {
                let eff = self.effective_specifier(name, specifier);
                if found.0 == eff {
                    Some(found.1)
                } else if self.pkg_lookup(self.format_key(name, eff)) is Some {
                    Some(eff)
                } else {
                    None
                }
            },
        }
    }

    /// The full resolution outcome for `(workspace, name, specifier)`:
    /// `Err` carries the missing workspace's path; `Ok(None)` is the
    /// ordinary not-found outcome; `Ok(Some((key, version)))` names the
    /// resolved package.  A specifier that is itself a parseable key
    /// present in the registry resolves to itself at once.
    pub open spec fn resolve_package_model(
        self,
        w: Seq<char>,
        name: Seq<char>,
        specifier: Seq<char>,
    ) -> Result<Option<(Seq<char>, Seq<char>)>, Seq<char>> {
        if self.pkg_lookup(specifier) is Some && self.extract_version(specifier) is Some {
            Ok(Some((specifier, self.extract_version(specifier)->Some_0)))
        } else {
            match self.importer_lookup(w) {
                None => Err(w),
                Some(imp) => match self.resolve_specifier_in(imp, name, specifier) {
                    None => Ok(None),
                    Some(rv) => {
                        let key = self.format_key(name, rv);
                        match self.pkg_lookup(key) {
                            Some(pkg) => Ok(
                                Some(
                                    (
                                        key,
                                        match pkg.version {
                                            Some(v) => v,
                                            None => rv,
                                        },
                                    ),
                                ),
                            ),
                            None => match self.pkg_lookup(rv) {
                                Some(pkg) => match pkg.version {
                                    Some(v) => Ok(Some((rv, v))),
                                    None => match self.extract_version(rv) {
                                        Some(ev) => Ok(Some((rv, ev))),
                                        None => Ok(None),
                                    },
                                },
                                None => Ok(None),
                            },
                        }
                    },
                },
            }
        }
    }
}

/// The patch file paths recorded by the document, in registry order.
pub open spec fn patch_path_list(doc: PnpmLockfileData) -> Seq<String> {
    match doc.patched_dependencies {
        Some(m) => m@.map_values(|p: (String, PatchFile)| p.1.path),
        None => Seq::empty(),
    }
}

impl PnpmLockfileData {
    /// The document uses the modern schema generation.
    pub fn is_v6(&self) -> (b: bool)
        ensures
            b == self@.is_v6(),
    {
        matches!(self.lockfile_version.format, VersionFormat::Textual)
    }

    /// Looks up a package snapshot by registry key.
    pub fn get_packages(&self, key: &str) -> (r: Option<&PackageSnapshot>)
        ensures
            match r {
                Some(p) => self@.pkg_lookup(key@) == Some(p@),
                None => self@.pkg_lookup(key@) is None,
            },
    {
        omap_get(&self.packages, key)
    }

    /// Looks up a workspace snapshot; the empty path names the root
    /// workspace.  A missing workspace is a hard error.
    pub fn get_workspace(&self, workspace_path: &str) -> (r: Result<&ProjectSnapshot, Error>)
        ensures
            match r {
                Ok(p) => self@.importer_lookup(workspace_path@) == Some(p@),
                Err(e) => self@.importer_lookup(workspace_path@) is None && (e matches Error::MissingWorkspace(p) && p@ == workspace_path@),
            },
    {
        let key: &str = if workspace_path.is_empty() {
            "."
        } else {
            workspace_path
        };
        proof {
            reveal_strlit(".");
            assert(key@ =~= DocView::workspace_key(workspace_path@));
        }
        match amap_get(&self.importers, key) {
            Some(p) => Ok(p),
            None => Err(Error::MissingWorkspace(workspace_path.to_owned())),
        }
    }

    /// Builds the registry key for a name and version in the document's
    /// own encoding.
    pub fn format_key(&self, name: &str, version: &str) -> (r: String)
        ensures
            r@ == self@.format_key(name@, version@),
    {
        let mut out = String::new();
        out.append("/");
        out.append(name);
        if self.is_v6() {
            out.append("@");
        } else {
            out.append("/");
        }
        out.append(version);
        proof {
            reveal_strlit("/");
            reveal_strlit("@");
            assert(out@ =~= self@.format_key(name@, version@));
        }
        out
    }

    /// The version string encoded by a registry key, or nothing when the
    /// key does not parse.
    pub fn extract_version(&self, key: &str) -> (r: Option<String>)
        ensures
            match r {
                Some(v) => self@.extract_version(key@) == Some(v@),
                None => self@.extract_version(key@) is None,
            },
    {
        match parse_dep_path(key) {
            None => None,
            Some(dp) => match dp.peer_suffix {
                None => Some(dp.version.to_owned()),
                Some(sfx) => {
                    let mut out = dp.version.to_owned();
                    if !self.is_v6() {
                        out.append("_");
                    }
                    out.append(sfx);
                    proof {
                        reveal_strlit("_");
                        assert(out@ =~= self@.extract_version(key@)->Some_0);
                    }
                    Some(out)
                },
            },
        }
    }

    /// The specifier resolution must honour for `name`: the global
    /// override when one exists, else the requested specifier.
    pub fn apply_overrides<'a>(&'a self, name: &str, specifier: &'a str) -> (r: &'a str)
        ensures
            r@ == self@.effective_specifier(name@, specifier@),
    {
        match omap_get(&self.overrides, name) {
            Some(o) => o.as_str(),
            None => specifier,
        }
    }

    /// Resolves a requested specifier at a workspace to the recorded
    /// version, consulting the registry under the override-built key when
    /// the effective specifier differs from the recorded one.
    pub fn resolve_specifier<'a>(
        &'a self,
        workspace_path: &str,
        name: &str,
        specifier: &'a str,
    ) -> (r: Result<Option<&'a str>, Error>)
        ensures
            match r {
                Ok(opt) => self@.importer_lookup(workspace_path@) is Some && (match opt {
                    Some(v) => self@.resolve_specifier_in(
                        self@.importer_lookup(workspace_path@)->Some_0,
                        name@,
                        specifier@,
                    ) == Some(v@),
                    None => self@.resolve_specifier_in(
                        self@.importer_lookup(workspace_path@)->Some_0,
                        name@,
                        specifier@,
                    ) is None,
                }),
                Err(e) => self@.importer_lookup(workspace_path@) is None && (e matches Error::MissingWorkspace(p) && p@ == workspace_path@),
            },
    {
        let importer = match self.get_workspace(workspace_path) {
            Ok(p) => p,
            Err(e) => {
                return Err(e);
            },
        };
        match importer.dependencies.find_resolution(name) {
            None => Ok(None),
            Some(found) => {
                let eff = self.apply_overrides(name, specifier);
                if str_eq(found.0, eff) {
                    Ok(Some(found.1))
                } else {
                    let key = self.format_key(name, eff);
                    if self.get_packages(key.as_str()).is_some() {
                        Ok(Some(eff))
                    } else {
                        Ok(None)
                    }
                }
            },
        }
    }

    /// Resolves `(workspace, name, specifier)` to an exact package, per
    /// the resolution model: a specifier that is itself a registered,
    /// parseable key resolves to itself; otherwise the workspace's records
    /// decide, and the answer's version comes from the registry entry when
    /// it names one.
    pub fn resolve_package(
        &self,
        workspace_path: &str,
        name: &str,
        version: &str,
    ) -> (r: Result<Option<Package>, Error>)
        ensures
            match r {
                Ok(Some(p)) => self@.resolve_package_model(workspace_path@, name@, version@)
                    == Ok::<Option<(Seq<char>, Seq<char>)>, Seq<char>>(
                    Some((p.key@, p.version@)),
                ),
                Ok(None) => self@.resolve_package_model(workspace_path@, name@, version@)
                    == Ok::<Option<(Seq<char>, Seq<char>)>, Seq<char>>(None),
                Err(e) => self@.resolve_package_model(workspace_path@, name@, version@) is Err
                    && (e matches Error::MissingWorkspace(p) && p@ == workspace_path@),
            },
    {
        if self.get_packages(version).is_some() {
            match self.extract_version(version) {
                Some(ev) => {
                    return Ok(Some(Package { key: version.to_owned(), version: ev }));
                },
                None => {},
            }
        }
        let resolved = match self.resolve_specifier(workspace_path, name, version) {
            Ok(Some(rv)) => rv,
            Ok(None) => {
                return Ok(None);
            },
            Err(e) => {
                return Err(e);
            },
        };
        let key = self.format_key(name, resolved);
        match self.get_packages(key.as_str()) {
            Some(pkg) => {
                let v = match &pkg.version {
                    Some(v) => v.clone(),
                    None => resolved.to_owned(),
                };
                Ok(Some(Package { key, version: v }))
            },
            None => match self.get_packages(resolved) {
                Some(pkg) => {
                    let v = match &pkg.version {
                        Some(v) => v.clone(),
                        None => match self.extract_version(resolved) {
                            Some(ev) => ev,
                            None => {
                                return Ok(None);
                            },
                        },
                    };
                    Ok(Some(Package { key: resolved.to_owned(), version: v }))
                },
                None => Ok(None),
            },
        }
    }

    /// Flattens a package's regular and optional dependency maps into one
    /// mapping in which a regular entry wins any name collision; nothing
    /// when the key is not registered.
    pub fn all_dependencies(&self, key: &str) -> (r: Result<
        Option<Vec<(String, String)>>,
        Error,
    >)
        ensures
            match r {
                Ok(None) => self@.pkg_lookup(key@) is None,
                Ok(Some(m)) => self@.pkg_lookup(key@) is Some && (forall|n: Seq<char>|
                    lookup(entries_view(m@), n) == self@.pkg_lookup(key@)->Some_0.combined_dep(
                        n,
                    )),
                Err(_) => false,
            },
    {
        let entry = match self.get_packages(key) {
            Some(e) => e,
            None => {
                return Ok(None);
            },
        };
        let mut out: Vec<(String, String)> = Vec::new();
        let ghost pkg = self@.pkg_lookup(key@)->Some_0;
        match &entry.dependencies {
            None => {},
            Some(m) => {
                let mut i: usize = 0;
                while i < m.len()
                    invariant
                        i <= m@.len(),
                        entries_view(out@) =~= entries_view(m@).take(i as int),
                    decreases m@.len() - i,
                {
                    let ghost out_prev = out@;
                    let p = &m[i];
                    let k = p.0.clone();
                    let v = p.1.clone();
                    proof {
                        assert(k@ == m@[i as int].0@ && v@ == m@[i as int].1@);
                    }
                    out.push((k, v));
                    proof {
                        crate::mapx::lemma_entries_view_push(out_prev, out@.last());
                        assert(out@.drop_last() =~= out_prev);
                        assert(out@ =~= out_prev.push(out@.last()));
                        assert(entries_view(out@) =~= entries_view(m@).take(i + 1));
                    }
                    i += 1;
                }
                proof {
                    assert(entries_view(m@).take(m@.len() as int) =~= entries_view(m@));
                }
            },
        }
        proof {
            assert forall|n: Seq<char>| #[trigger] lookup(entries_view(out@), n) == opt_lookup(
                pkg.dependencies,
                n,
            ) by {}
        }
        match &entry.optional_dependencies {
            None => {},
            Some(m) => {
                let mut i: usize = 0;
                while i < m.len()
                    invariant
                        i <= m@.len(),
                        forall|n: Seq<char>| #[trigger] lookup(entries_view(out@), n) == (
                        match opt_lookup(pkg.dependencies, n) {
                            Some(v) => Some(v),
                            None => lookup(entries_view(m@).take(i as int), n),
                        }),
                        entries_view(m@) == pkg.optional_dependencies->Some_0,
                    decreases m@.len() - i,
                {
                    let p = &m[i];
                    let ghost prev = entries_view(out@);
                    amap_insert_keep(&mut out, p.0.clone(), p.1.clone());
                    proof {
                        assert(entries_view(m@).take(i + 1) =~= entries_view(m@).take(
                            i as int,
                        ).push(entries_view(m@)[i as int]));
                        assert forall|n: Seq<char>| #[trigger] lookup(entries_view(out@), n)
                            == (match opt_lookup(pkg.dependencies, n) {
                            Some(v) => Some(v),
                            None => lookup(entries_view(m@).take(i + 1), n),
                        }) by {
                            crate::mapx::lemma_lookup_push(
                                entries_view(m@).take(i as int),
                                entries_view(m@)[i as int].0,
                                entries_view(m@)[i as int].1,
                                n,
                            );
                        }
                    }
                    i += 1;
                }
                proof {
                    assert(entries_view(m@).take(m@.len() as int) =~= entries_view(m@));
                }
            },
        }
        Ok(Some(out))
    }

    /// The sorted list of patch file paths the document references.
    pub fn patches(&self) -> (r: Vec<String>)
        ensures
            sorted_strs(r@),
            r@.to_multiset() == patch_path_list(*self).to_multiset(),
    {
        let mut collected: Vec<String> = Vec::new();
        match &self.patched_dependencies {
            None => {},
            Some(m) => {
                let mut i: usize = 0;
                while i < m.len()
                    invariant
                        i <= m@.len(),
                        collected@ =~= m@.map_values(|p: (String, PatchFile)| p.1.path).take(
                            i as int,
                        ),
                    decreases m@.len() - i,
                {
                    collected.push(m[i].1.path.clone());
                    proof {
                        assert(collected@ =~= m@.map_values(
                            |p: (String, PatchFile)| p.1.path,
                        ).take(i + 1));
                    }
                    i += 1;
                }
            },
        }
        proof {
            assert(collected@ =~= patch_path_list(*self));
        }
        let mut out: Vec<String> = Vec::new();
        let mut i: usize = 0;
        proof {
            assert(out@ =~= collected@.take(0));
        }
        while i < collected.len()
            invariant
                i <= collected@.len(),
                sorted_strs(out@),
                out@.to_multiset() == collected@.take(i as int).to_multiset(),
            decreases collected@.len() - i,
        {
            sorted_insert(&mut out, collected[i].clone());
            proof {
                broadcast use vstd::seq_lib::group_to_multiset_ensures;

                assert(collected@.take(i + 1) =~= collected@.take(i as int).push(
                    collected@[i as int],
                ));
                assert(collected@.take(i + 1).to_multiset() =~= collected@.take(
                    i as int,
                ).to_multiset().insert(collected@[i as int]));
            }
            i += 1;
        }
        proof {
            assert(collected@.take(collected@.len() as int) =~= collected@);
        }
        out
    }
}

} // verus!
