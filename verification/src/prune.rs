//! Subgraph pruning: the specification of which workspaces, packages and
//! patches survive, the lemmas connecting the retained-importer filter to
//! membership, and the deep-copy helpers a pruned document is built from.
//! Pruning never mutates the source; every pruned document is freshly
//! allocated.

use vstd::prelude::*;

use crate::data::{
    DependenciesMeta, Dependency, DependencyInfo, LockfileVersion, PackageResolution,
    PackageSnapshot, PackageSnapshotView, PatchFile, PnpmLockfileData, ProjectSnapshot,
    ProjectSnapshotView,
};
use crate::keys::{parse_dep_path, parse_key, KeyParts};
use crate::mapx::{
    amap_get, amap_insert_keep, entries_view, lemma_entries_view_push, lookup, opt_lookup,
};

verus! {

/// A workspace key survives pruning when it is the reserved root key or
/// one of the requested paths.
pub open spec fn retained_ws(paths: Seq<Seq<char>>, k: Seq<char>) -> bool {
    k == seq!['.'] || paths.contains(k)
}

/// The views of a list of strings.
pub open spec fn strs_view(s: Seq<String>) -> Seq<Seq<char>> {
    s.map_values(|x: String| x@)
}

/// The retained importers, in the source's order.
pub open spec fn filter_importers(
    s: Seq<(Seq<char>, ProjectSnapshotView)>,
    paths: Seq<Seq<char>>,
) -> Seq<(Seq<char>, ProjectSnapshotView)>
    decreases s.len(),
{
    if s.len() == 0 {
        Seq::empty()
    } else {
        let prefix = filter_importers(s.drop_last(), paths);
        if retained_ws(paths, s.last().0) {
            prefix.push(s.last())
        } else {
            prefix
        }
    }
}

/// Every retained importer is a source importer, and every source importer
/// on a retained path is kept.
pub proof fn lemma_filter_importers_mem(
    s: Seq<(Seq<char>, ProjectSnapshotView)>,
    paths: Seq<Seq<char>>,
)
    ensures
        forall|u: int|
            0 <= u < filter_importers(s, paths).len() ==> s.contains(
                #[trigger] filter_importers(s, paths)[u],
            ) && retained_ws(paths, filter_importers(s, paths)[u].0),
        forall|i: int|
            0 <= i < s.len() && retained_ws(paths, (#[trigger] s[i]).0) ==> filter_importers(
                s,
                paths,
            ).contains(s[i]),
    decreases s.len(),
{
    if s.len() > 0 {
        let pre = s.drop_last();
        lemma_filter_importers_mem(pre, paths);
        let flt = filter_importers(s, paths);
        let fpre = filter_importers(pre, paths);
        assert forall|u: int| 0 <= u < flt.len() implies s.contains(#[trigger] flt[u])
            && retained_ws(paths, flt[u].0) by {
            if u < fpre.len() {
                assert(pre.contains(fpre[u]));
                let w = choose|w: int| 0 <= w < pre.len() && pre[w] == fpre[u];
                assert(s[w] == fpre[u]);
            } else {
                assert(flt[u] == s.last());
                assert(s[s.len() - 1] == s.last());
            }
        }
        assert forall|i: int| 0 <= i < s.len() && retained_ws(paths, (#[trigger] s[i]).0)
            implies flt.contains(s[i]) by {
            if i < s.len() - 1 {
                assert(pre[i] == s[i]);
                assert(fpre.contains(s[i]));
                let w = choose|w: int| 0 <= w < fpre.len() && fpre[w] == s[i];
                if retained_ws(paths, s.last().0) {
                    assert(flt[w] == s[i]);
                } else {
                    assert(flt[w] == s[i]);
                }
            } else {
                assert(flt[flt.len() - 1] == s.last());
            }
        }
    }
}

/// Filtering keeps keys distinct.
pub proof fn lemma_filter_importers_distinct(
    s: Seq<(Seq<char>, ProjectSnapshotView)>,
    paths: Seq<Seq<char>>,
)
    requires
        crate::mapx::distinct_keys(s),
    ensures
        crate::mapx::distinct_keys(filter_importers(s, paths)),
    decreases s.len(),
{
    if s.len() > 0 {
        let pre = s.drop_last();
        assert(crate::mapx::distinct_keys(pre)) by {
            assert forall|i: int, j: int| 0 <= i < j < pre.len() implies pre[i].0 != pre[j].0 by {
                assert(s[i] == pre[i] && s[j] == pre[j]);
            }
        }
        lemma_filter_importers_distinct(pre, paths);
        let flt = filter_importers(s, paths);
        let fpre = filter_importers(pre, paths);
        if retained_ws(paths, s.last().0) {
            lemma_filter_importers_mem(pre, paths);
            assert forall|i: int, j: int| 0 <= i < j < flt.len() implies flt[i].0 != flt[j].0 by {
                if j < fpre.len() {
                    assert(flt[i] == fpre[i] && flt[j] == fpre[j]);
                } else {
                    assert(flt[j] == s.last());
                    assert(flt[i] == fpre[i]);
                    assert(pre.contains(fpre[i]));
                    let w = choose|w: int| 0 <= w < pre.len() && pre[w] == fpre[i];
                    assert(s[w] == pre[w]);
                    assert(s[w].0 != s[s.len() - 1].0);
                }
            }
        }
    }
}

/// Some entry of the list carries this key.
pub proof fn lemma_lookup_at_index<V>(s: Seq<(Seq<char>, V)>, u: int)
    requires
        0 <= u < s.len(),
    ensures
        lookup(s, s[u].0) is Some,
    decreases u,
{
    if s[0].0 == s[u].0 {
    } else {
        lemma_lookup_at_index(s.drop_first(), u - 1);
    }
}

/// The workspace's records let every injected dependency resolve.
pub open spec fn importer_injected_ok(imp: ProjectSnapshotView) -> bool {
    match imp.dependencies_meta {
        None => true,
        Some(meta) => forall|j: int|
            0 <= j < meta.len() && (#[trigger] meta[j]).1.injected == Some(true)
                ==> imp.dependencies.find_resolution(meta[j].0) is Some,
    }
}

/// In every retained workspace, every injected dependency resolves through
/// the workspace's own records.  `subgraph` requires this of its caller;
/// a workspace set that breaks it is inconsistent.
pub open spec fn injected_ok(doc: crate::data::DocView, paths: Seq<Seq<char>>) -> bool {
    forall|i: int|
        0 <= i < doc.importers.len() && retained_ws(paths, (#[trigger] doc.importers[i]).0)
            ==> importer_injected_ok(doc.importers[i].1)
}

/// The workspace injects a dependency whose resolved key is `k`.
pub open spec fn importer_injects_key(imp: ProjectSnapshotView, k: Seq<char>) -> bool {
    match imp.dependencies_meta {
        None => false,
        Some(meta) => exists|j: int|
            0 <= j < meta.len() && (#[trigger] meta[j]).1.injected == Some(true) && (
            imp.dependencies.find_resolution(meta[j].0) matches Some(rr) && rr.1 == k),
    }
}

/// Only the first `j` metadata entries of the workspace are considered.
pub open spec fn importer_injects_key_prefix(
    imp: ProjectSnapshotView,
    j: int,
    k: Seq<char>,
) -> bool {
    match imp.dependencies_meta {
        None => false,
        Some(meta) => exists|u: int|
            0 <= u < j && u < meta.len() && (#[trigger] meta[u]).1.injected == Some(true) && (
            imp.dependencies.find_resolution(meta[u].0) matches Some(rr) && rr.1 == k),
    }
}

/// Some retained workspace injects a dependency resolved to `k`.
pub open spec fn injected_key(doc: crate::data::DocView, paths: Seq<Seq<char>>, k: Seq<char>) -> bool {
    exists|i: int|
        0 <= i < doc.importers.len() && retained_ws(paths, (#[trigger] doc.importers[i]).0)
            && importer_injects_key(doc.importers[i].1, k)
}

/// `k` was requested outright.
pub open spec fn requested_key(pkgs: Seq<Seq<char>>, k: Seq<char>) -> bool {
    pkgs.contains(k)
}

/// The keys that must survive: the requested ones and the injected ones.
pub open spec fn surviving_key(
    doc: crate::data::DocView,
    paths: Seq<Seq<char>>,
    pkgs: Seq<Seq<char>>,
    k: Seq<char>,
) -> bool {
    requested_key(pkgs, k) || injected_key(doc, paths, k)
}

/// The patch lookup key a parsed dependency key announces.
pub open spec fn patch_key_of(kp: KeyParts) -> Seq<char> {
    kp.name + seq!['@'] + kp.version
}

/// The dependency key `k` encodes patch `pk` with hash `hash`.
pub open spec fn key_announces(k: Seq<char>, pk: Seq<char>, hash: Seq<char>) -> bool {
    parse_key(k) matches Some(kp) && patch_key_of(kp) == pk && kp.patch_hash == Some(hash)
}

/// Some surviving package's key encodes patch `pk` with hash `hash`.
pub open spec fn surviving_patch(
    pkgs: Option<Seq<(Seq<char>, PackageSnapshotView)>>,
    pk: Seq<char>,
    hash: Seq<char>,
) -> bool {
    exists|k: Seq<char>|
        #[trigger] opt_lookup(pkgs, k) is Some && key_announces(k, pk, hash)
}

/// The same, over the first `t` entries of the pruned package list.
pub open spec fn prefix_survives(
    pv: Seq<(Seq<char>, PackageSnapshotView)>,
    t: int,
    pk: Seq<char>,
    hash: Seq<char>,
) -> bool {
    exists|u: int|
        0 <= u < t && u < pv.len() && key_announces((#[trigger] pv[u]).0, pk, hash)
}

// Deep copies.  Each ensures that the copy's view equals the source's, so
// a pruned document shares no structure with the source it came from.
fn copy_str_entries(src: &Vec<(String, String)>) -> (r: Vec<(String, String)>)
    ensures
        entries_view(r@) == entries_view(src@),
{
    let mut out: Vec<(String, String)> = Vec::new();
    let mut i: usize = 0;
    while i < src.len()
        invariant
            i <= src@.len(),
            entries_view(out@) =~= entries_view(src@).take(i as int),
        decreases src@.len() - i,
    {
        let ghost out_prev = out@;
        let p = &src[i];
        out.push((p.0.clone(), p.1.clone()));
        proof {
            lemma_entries_view_push(out_prev, out@.last());
            assert(out@.drop_last() =~= out_prev);
            assert(out@ =~= out_prev.push(out@.last()));
            assert(entries_view(out@) =~= entries_view(src@).take(i + 1));
        }
        i += 1;
    }
    proof {
        assert(entries_view(src@).take(src@.len() as int) =~= entries_view(src@));
    }
    out
}

fn copy_opt_str_entries(src: &Option<Vec<(String, String)>>) -> (r: Option<
    Vec<(String, String)>,
>)
    ensures
        crate::mapx::omap_view(r) == crate::mapx::omap_view(*src),
{
    match src {
        None => None,
        Some(m) => Some(copy_str_entries(m)),
    }
}

fn copy_string_vec(src: &Vec<String>) -> (r: Vec<String>)
    ensures
        r@ == src@,
{
    let mut out: Vec<String> = Vec::new();
    let mut i: usize = 0;
    while i < src.len()
        invariant
            i <= src@.len(),
            out@ =~= src@.take(i as int),
        decreases src@.len() - i,
    {
        out.push(src[i].clone());
        proof {
            assert(out@ =~= src@.take(i + 1));
        }
        i += 1;
    }
    proof {
        assert(src@.take(src@.len() as int) =~= src@);
    }
    out
}

fn copy_opt_string_vec(src: &Option<Vec<String>>) -> (r: Option<Vec<String>>)
    ensures
        crate::data::olist_view(r) == crate::data::olist_view(*src),
{
    match src {
        None => None,
        Some(v) => Some(copy_string_vec(v)),
    }
}

fn copy_opt_string(src: &Option<String>) -> (r: Option<String>)
    ensures
        crate::data::ostr_view(r) == crate::data::ostr_view(*src),
{
    match src {
        None => None,
        Some(s) => Some(s.clone()),
    }
}

pub(crate) fn clone_lockfile_version(src: &LockfileVersion) -> (r: LockfileVersion)
    ensures
        r@ == src@,
{
    LockfileVersion { version: src.version.clone(), format: src.format }
}

pub(crate) fn clone_patch_file(src: &PatchFile) -> (r: PatchFile)
    ensures
        r@ == src@,
{
    PatchFile { path: src.path.clone(), hash: src.hash.clone() }
}

fn copy_patch_entries(src: &Vec<(String, PatchFile)>) -> (r: Vec<(String, PatchFile)>)
    ensures
        entries_view(r@) == entries_view(src@),
{
    let mut out: Vec<(String, PatchFile)> = Vec::new();
    let mut i: usize = 0;
    while i < src.len()
        invariant
            i <= src@.len(),
            entries_view(out@) =~= entries_view(src@).take(i as int),
        decreases src@.len() - i,
    {
        let ghost out_prev = out@;
        let p = &src[i];
        out.push((p.0.clone(), clone_patch_file(&p.1)));
        proof {
            lemma_entries_view_push(out_prev, out@.last());
            assert(out@.drop_last() =~= out_prev);
            assert(out@ =~= out_prev.push(out@.last()));
            assert(entries_view(out@) =~= entries_view(src@).take(i + 1));
        }
        i += 1;
    }
    proof {
        assert(entries_view(src@).take(src@.len() as int) =~= entries_view(src@));
    }
    out
}

fn clone_dependency(src: &Dependency) -> (r: Dependency)
    ensures
        r@ == src@,
{
    Dependency { specifier: src.specifier.clone(), version: src.version.clone() }
}

fn copy_dep_entries(src: &Vec<(String, Dependency)>) -> (r: Vec<(String, Dependency)>)
    ensures
        entries_view(r@) == entries_view(src@),
{
    let mut out: Vec<(String, Dependency)> = Vec::new();
    let mut i: usize = 0;
    while i < src.len()
        invariant
            i <= src@.len(),
            entries_view(out@) =~= entries_view(src@).take(i as int),
        decreases src@.len() - i,
    {
        let ghost out_prev = out@;
        let p = &src[i];
        out.push((p.0.clone(), clone_dependency(&p.1)));
        proof {
            lemma_entries_view_push(out_prev, out@.last());
            assert(out@.drop_last() =~= out_prev);
            assert(out@ =~= out_prev.push(out@.last()));
            assert(entries_view(out@) =~= entries_view(src@).take(i + 1));
        }
        i += 1;
    }
    proof {
        assert(entries_view(src@).take(src@.len() as int) =~= entries_view(src@));
    }
    out
}

fn clone_meta(src: &DependenciesMeta) -> (r: DependenciesMeta)
    ensures
        r@ == src@,
{
    DependenciesMeta {
        injected: src.injected,
        node: copy_opt_string(&src.node),
        patch: copy_opt_string(&src.patch),
    }
}

fn copy_meta_entries(src: &Vec<(String, DependenciesMeta)>) -> (r: Vec<
    (String, DependenciesMeta),
>)
    ensures
        entries_view(r@) == entries_view(src@),
{
    let mut out: Vec<(String, DependenciesMeta)> = Vec::new();
    let mut i: usize = 0;
    while i < src.len()
        invariant
            i <= src@.len(),
            entries_view(out@) =~= entries_view(src@).take(i as int),
        decreases src@.len() - i,
    {
        let ghost out_prev = out@;
        let p = &src[i];
        out.push((p.0.clone(), clone_meta(&p.1)));
        proof {
            lemma_entries_view_push(out_prev, out@.last());
            assert(out@.drop_last() =~= out_prev);
            assert(out@ =~= out_prev.push(out@.last()));
            assert(entries_view(out@) =~= entries_view(src@).take(i + 1));
        }
        i += 1;
    }
    proof {
        assert(entries_view(src@).take(src@.len() as int) =~= entries_view(src@));
    }
    out
}

fn clone_dependency_info(src: &DependencyInfo) -> (r: DependencyInfo)
    ensures
        r@ == src@,
{
    match src {
        DependencyInfo::PreV6 { specifiers, dependencies, optional_dependencies, dev_dependencies } => {
            DependencyInfo::PreV6 {
                specifiers: copy_opt_str_entries(specifiers),
                dependencies: copy_opt_str_entries(dependencies),
                optional_dependencies: copy_opt_str_entries(optional_dependencies),
                dev_dependencies: copy_opt_str_entries(dev_dependencies),
            }
        },
        DependencyInfo::V6 { dependencies, optional_dependencies, dev_dependencies } => {
            DependencyInfo::V6 {
                dependencies: match dependencies {
                    None => None,
                    Some(m) => Some(copy_dep_entries(m)),
                },
                optional_dependencies: match optional_dependencies {
                    None => None,
                    Some(m) => Some(copy_dep_entries(m)),
                },
                dev_dependencies: match dev_dependencies {
                    None => None,
                    Some(m) => Some(copy_dep_entries(m)),
                },
            }
        },
    }
}

pub(crate) fn clone_project(src: &ProjectSnapshot) -> (r: ProjectSnapshot)
    ensures
        r@ == src@,
{
    ProjectSnapshot {
        dependencies: clone_dependency_info(&src.dependencies),
        dependencies_meta: match &src.dependencies_meta {
            None => None,
            Some(m) => Some(copy_meta_entries(m)),
        },
        publish_directory: copy_opt_string(&src.publish_directory),
    }
}

fn clone_resolution(src: &PackageResolution) -> (r: PackageResolution)
    ensures
        r@ == src@,
{
    PackageResolution {
        type_field: copy_opt_string(&src.type_field),
        integrity: copy_opt_string(&src.integrity),
        tarball: copy_opt_string(&src.tarball),
        dir: copy_opt_string(&src.dir),
        repo: copy_opt_string(&src.repo),
        commit: copy_opt_string(&src.commit),
    }
}

fn copy_val_entries(src: &Vec<(String, serde_yaml::Value)>) -> (r: Vec<
    (String, serde_yaml::Value),
>)
    ensures
        crate::data::vals_view(r@) == crate::data::vals_view(src@),
{
    let mut out: Vec<(String, serde_yaml::Value)> = Vec::new();
    let mut i: usize = 0;
    while i < src.len()
        invariant
            i <= src@.len(),
            out@.len() == i,
            crate::data::vals_view(out@) =~= crate::data::vals_view(src@).take(i as int),
        decreases src@.len() - i,
    {
        let ghost out_prev = out@;
        let p = &src[i];
        let k = p.0.clone();
        let v = p.1.clone();
        let ghost kv = (k, v);
        proof {
            assert(kv.0@ == src@[i as int].0@);
            assert(kv.1 == src@[i as int].1);
        }
        out.push((k, v));
        proof {
            assert(out@ == out_prev.push(kv));
            assert forall|j: int| 0 <= j < out@.len() implies crate::data::vals_view(out@)[j]
                == crate::data::vals_view(src@).take(i + 1)[j] by {
                if j < i {
                    assert(crate::data::vals_view(out_prev)[j] == crate::data::vals_view(
                        src@,
                    ).take(i as int)[j]);
                    assert(out@[j] == out_prev[j]);
                } else {
                    assert(out@[j] == kv);
                }
            }
            assert(crate::data::vals_view(out@) =~= crate::data::vals_view(src@).take(i + 1));
        }
        i += 1;
    }
    proof {
        assert(crate::data::vals_view(src@).take(src@.len() as int) =~= crate::data::vals_view(
            src@,
        ));
    }
    out
}

pub(crate) fn clone_package(src: &PackageSnapshot) -> (r: PackageSnapshot)
    ensures
        r@ == src@,
{
    PackageSnapshot {
        resolution: clone_resolution(&src.resolution),
        id: copy_opt_string(&src.id),
        name: copy_opt_string(&src.name),
        version: copy_opt_string(&src.version),
        dependencies: copy_opt_str_entries(&src.dependencies),
        optional_dependencies: copy_opt_str_entries(&src.optional_dependencies),
        patched: src.patched,
        other: copy_val_entries(&src.other),
    }
}


/// Adding one key to the requested prefix.
pub open spec fn req_prefix(pkgs: Seq<Seq<char>>, n: int, k: Seq<char>) -> bool {
    exists|j: int| 0 <= j < n && j < pkgs.len() && #[trigger] pkgs[j] == k
}

/// The keys injected by the first `t` retained importers.
pub open spec fn injected_upto(
    flt: Seq<(Seq<char>, ProjectSnapshotView)>,
    t: int,
    k: Seq<char>,
) -> bool {
    exists|u: int| 0 <= u < t && u < flt.len() && importer_injects_key((#[trigger] flt[u]).1, k)
}

pub proof fn lemma_req_prefix_step(pkgs: Seq<Seq<char>>, n: int, k: Seq<char>)
    requires
        0 <= n < pkgs.len(),
    ensures
        req_prefix(pkgs, n + 1, k) == (req_prefix(pkgs, n, k) || pkgs[n] == k),
{
    if req_prefix(pkgs, n + 1, k) {
        let j = choose|j: int| 0 <= j < n + 1 && j < pkgs.len() && pkgs[j] == k;
        if j < n {
            assert(req_prefix(pkgs, n, k));
        }
    }
    if req_prefix(pkgs, n, k) {
        let j = choose|j: int| 0 <= j < n && j < pkgs.len() && pkgs[j] == k;
        assert(0 <= j < n + 1 && j < pkgs.len() && pkgs[j] == k);
        assert(req_prefix(pkgs, n + 1, k));
    }
    if pkgs[n] == k {
        assert(req_prefix(pkgs, n + 1, k));
    }
}

pub proof fn lemma_req_prefix_full(pkgs: Seq<Seq<char>>, k: Seq<char>)
    ensures
        req_prefix(pkgs, pkgs.len() as int, k) == requested_key(pkgs, k),
{
    if req_prefix(pkgs, pkgs.len() as int, k) {
        let j = choose|j: int| 0 <= j < pkgs.len() && j < pkgs.len() && pkgs[j] == k;
        assert(pkgs[j] == k);
    }
    if requested_key(pkgs, k) {
        let j = choose|j: int| 0 <= j < pkgs.len() && pkgs[j] == k;
        assert(0 <= j < pkgs.len() && j < pkgs.len() && pkgs[j] == k);
        assert(req_prefix(pkgs, pkgs.len() as int, k));
    }
}

pub proof fn lemma_injected_upto_step(
    flt: Seq<(Seq<char>, ProjectSnapshotView)>,
    t: int,
    k: Seq<char>,
)
    requires
        0 <= t < flt.len(),
    ensures
        injected_upto(flt, t + 1, k) == (injected_upto(flt, t, k) || importer_injects_key(
            flt[t].1,
            k,
        )),
{
    if injected_upto(flt, t + 1, k) {
        let u = choose|u: int|
            0 <= u < t + 1 && u < flt.len() && importer_injects_key(flt[u].1, k);
        if u < t {
            assert(injected_upto(flt, t, k));
        }
    }
    if injected_upto(flt, t, k) {
        let u = choose|u: int| 0 <= u < t && u < flt.len() && importer_injects_key(flt[u].1, k);
        assert(0 <= u < t + 1 && u < flt.len() && importer_injects_key(flt[u].1, k));
        assert(injected_upto(flt, t + 1, k));
    }
    if importer_injects_key(flt[t].1, k) {
        assert(injected_upto(flt, t + 1, k));
    }
}

pub proof fn lemma_prefix_inject_step(imp: ProjectSnapshotView, j: int, k: Seq<char>)
    requires
        imp.dependencies_meta is Some,
        0 <= j < imp.dependencies_meta->Some_0.len(),
    ensures
        importer_injects_key_prefix(imp, j + 1, k) == (importer_injects_key_prefix(imp, j, k)
            || (imp.dependencies_meta->Some_0[j].1.injected == Some(true) && (
            imp.dependencies.find_resolution(imp.dependencies_meta->Some_0[j].0) matches Some(rr)
                && rr.1 == k))),
{
    let meta = imp.dependencies_meta->Some_0;
    if importer_injects_key_prefix(imp, j + 1, k) {
        let u = choose|u: int|
            0 <= u < j + 1 && u < meta.len() && meta[u].1.injected == Some(true) && (
            imp.dependencies.find_resolution(meta[u].0) matches Some(rr) && rr.1 == k);
        if u < j {
            assert(importer_injects_key_prefix(imp, j, k));
        }
    }
    if importer_injects_key_prefix(imp, j, k) {
        let u = choose|u: int|
            0 <= u < j && u < meta.len() && meta[u].1.injected == Some(true) && (
            imp.dependencies.find_resolution(meta[u].0) matches Some(rr) && rr.1 == k);
        assert(0 <= u < j + 1 && u < meta.len() && meta[u].1.injected == Some(true) && (
        imp.dependencies.find_resolution(meta[u].0) matches Some(rr) && rr.1 == k));
        assert(importer_injects_key_prefix(imp, j + 1, k));
    }
    if imp.dependencies_meta->Some_0[j].1.injected == Some(true) && (
    imp.dependencies.find_resolution(imp.dependencies_meta->Some_0[j].0) matches Some(rr)
        && rr.1 == k) {
        assert(importer_injects_key_prefix(imp, j + 1, k));
    }
}

pub proof fn lemma_prefix_inject_full(imp: ProjectSnapshotView, k: Seq<char>)
    requires
        imp.dependencies_meta is Some,
    ensures
        importer_injects_key_prefix(imp, imp.dependencies_meta->Some_0.len() as int, k)
            == importer_injects_key(imp, k),
{
    let meta = imp.dependencies_meta->Some_0;
    if importer_injects_key_prefix(imp, meta.len() as int, k) {
        let u = choose|u: int|
            0 <= u < meta.len() && u < meta.len() && meta[u].1.injected == Some(true) && (
            imp.dependencies.find_resolution(meta[u].0) matches Some(rr) && rr.1 == k);
        assert(importer_injects_key(imp, k));
    }
    if importer_injects_key(imp, k) {
        let u = choose|u: int|
            0 <= u < meta.len() && meta[u].1.injected == Some(true) && (
            imp.dependencies.find_resolution(meta[u].0) matches Some(rr) && rr.1 == k);
        assert(0 <= u < meta.len() as int && u < meta.len() && meta[u].1.injected == Some(true)
            && (imp.dependencies.find_resolution(meta[u].0) matches Some(rr) && rr.1 == k));
        assert(importer_injects_key_prefix(imp, meta.len() as int, k));
    }
}

/// The injected keys of all retained importers are exactly the injected
/// keys of the source's retained workspaces.
pub proof fn lemma_injected_full_iff(
    srcv: crate::data::DocView,
    paths: Seq<Seq<char>>,
    k: Seq<char>,
)
    ensures
        injected_upto(
            filter_importers(srcv.importers, paths),
            filter_importers(srcv.importers, paths).len() as int,
            k,
        ) == injected_key(srcv, paths, k),
{
    let flt = filter_importers(srcv.importers, paths);
    lemma_filter_importers_mem(srcv.importers, paths);
    if injected_upto(flt, flt.len() as int, k) {
        let u = choose|u: int|
            0 <= u < flt.len() && u < flt.len() && importer_injects_key(flt[u].1, k);
        assert(srcv.importers.contains(flt[u]));
        let w = choose|w: int| 0 <= w < srcv.importers.len() && srcv.importers[w] == flt[u];
        assert(retained_ws(paths, srcv.importers[w].0));
        assert(importer_injects_key(srcv.importers[w].1, k));
        assert(injected_key(srcv, paths, k));
    }
    if injected_key(srcv, paths, k) {
        let i = choose|i: int|
            0 <= i < srcv.importers.len() && retained_ws(paths, srcv.importers[i].0)
                && importer_injects_key(srcv.importers[i].1, k);
        assert(flt.contains(srcv.importers[i]));
        let u = choose|u: int| 0 <= u < flt.len() && flt[u] == srcv.importers[i];
        assert(0 <= u < flt.len() as int && u < flt.len() && importer_injects_key(flt[u].1, k));
        assert(injected_upto(flt, flt.len() as int, k));
    }
}

pub proof fn lemma_prefix_survives_step(
    pv: Seq<(Seq<char>, PackageSnapshotView)>,
    u: int,
    pk: Seq<char>,
    hash: Seq<char>,
)
    requires
        0 <= u < pv.len(),
    ensures
        prefix_survives(pv, u + 1, pk, hash) == (prefix_survives(pv, u, pk, hash)
            || key_announces(pv[u].0, pk, hash)),
{
    if prefix_survives(pv, u + 1, pk, hash) {
        let w = choose|w: int| 0 <= w < u + 1 && w < pv.len() && key_announces(pv[w].0, pk, hash);
        if w < u {
            assert(prefix_survives(pv, u, pk, hash));
        }
    }
    if prefix_survives(pv, u, pk, hash) {
        let w = choose|w: int| 0 <= w < u && w < pv.len() && key_announces(pv[w].0, pk, hash);
        assert(0 <= w < u + 1 && w < pv.len() && key_announces(pv[w].0, pk, hash));
        assert(prefix_survives(pv, u + 1, pk, hash));
    }
    if key_announces(pv[u].0, pk, hash) {
        assert(prefix_survives(pv, u + 1, pk, hash));
    }
}

/// Over the whole pruned list, index-wise survival equals key-wise survival.
pub proof fn lemma_survives_full(
    pv: Seq<(Seq<char>, PackageSnapshotView)>,
    pk: Seq<char>,
    hash: Seq<char>,
)
    ensures
        prefix_survives(pv, pv.len() as int, pk, hash) == surviving_patch(Some(pv), pk, hash),
{
    if prefix_survives(pv, pv.len() as int, pk, hash) {
        let u = choose|u: int|
            0 <= u < pv.len() && u < pv.len() && key_announces(pv[u].0, pk, hash);
        lemma_lookup_at_index(pv, u);
        assert(opt_lookup(Some(pv), pv[u].0) is Some && key_announces(pv[u].0, pk, hash));
        assert(surviving_patch(Some(pv), pk, hash));
    }
    if surviving_patch(Some(pv), pk, hash) {
        let k = choose|k: Seq<char>| opt_lookup(Some(pv), k) is Some && key_announces(k, pk, hash);
        crate::mapx::lemma_lookup_some_index(pv, k);
        let u = choose|u: int| 0 <= u < pv.len() && pv[u].0 == k && lookup(pv, k) == Some(pv[u].1);
        assert(0 <= u < pv.len() as int && u < pv.len() && key_announces(pv[u].0, pk, hash));
        assert(prefix_survives(pv, pv.len() as int, pk, hash));
    }
}

/// Decides whether a workspace key survives pruning.
fn is_retained(paths: &[String], key: &str) -> (b: bool)
    ensures
        b == retained_ws(strs_view(paths@), key@),
{
    proof {
        reveal_strlit(".");
    }
    if crate::strutil::str_eq(key, ".") {
        proof {
            assert(key@ =~= seq!['.']);
        }
        return true;
    }
    let mut i: usize = 0;
    while i < paths.len()
        invariant
            i <= paths@.len(),
            forall|j: int| 0 <= j < i ==> strs_view(paths@)[j] != key@,
        decreases paths@.len() - i,
    {
        if crate::strutil::str_eq(paths[i].as_str(), key) {
            proof {
                assert(strs_view(paths@)[i as int] == key@);
                assert(strs_view(paths@).contains(key@));
            }
            return true;
        }
        proof {
            assert(strs_view(paths@)[i as int] == paths@[i as int]@);
        }
        i += 1;
    }
    proof {
        if strs_view(paths@).contains(key@) {
            let j = choose|j: int|
                0 <= j < strs_view(paths@).len() && strs_view(paths@)[j] == key@;
            assert(false);
        }
        assert("."@ =~= seq!['.']);
        assert(key@ != seq!['.']);
    }
    false
}

fn importer_check(imp: &ProjectSnapshot) -> (b: bool)
    ensures
        b == importer_injected_ok(imp@),
{
    match &imp.dependencies_meta {
        None => true,
        Some(meta) => {
            let mut j: usize = 0;
            let mut good = true;
            while j < meta.len()
                invariant
                    j <= meta@.len(),
                    imp@.dependencies_meta == Some(entries_view(meta@)),
                    good == (forall|u: int|
                        0 <= u < j && (#[trigger] entries_view(meta@)[u]).1.injected == Some(
                            true,
                        ) ==> imp@.dependencies.find_resolution(entries_view(meta@)[u].0) is Some),
                decreases meta@.len() - j,
            {
                let ghost mv = entries_view(meta@);
                proof {
                    assert(mv[j as int] == (meta@[j as int].0@, meta@[j as int].1@));
                }
                if matches!(meta[j].1.injected, Some(true)) {
                    if imp.dependencies.find_resolution(meta[j].0.as_str()).is_none() {
                        good = false;
                    }
                }
                j += 1;
            }
            proof {
                if good {
                    assert(importer_injected_ok(imp@));
                } else {
                    assert(!importer_injected_ok(imp@));
                }
            }
            good
        },
    }
}

impl PnpmLockfileData {
    /// Every injected dependency of every retained workspace resolves
    /// through its workspace's own records; `subgraph` requires this.
    pub fn injected_deps_resolvable(&self, workspace_paths: &[String]) -> (b: bool)
        ensures
            b == injected_ok(self@, strs_view(workspace_paths@)),
    {
        let ghost paths_v = strs_view(workspace_paths@);
        let ghost sv = entries_view(self.importers@);
        let mut i: usize = 0;
        let mut ok = true;
        while i < self.importers.len()
            invariant
                i <= self.importers@.len(),
                sv == entries_view(self.importers@),
                paths_v == strs_view(workspace_paths@),
                ok == (forall|w: int|
                    0 <= w < i && retained_ws(paths_v, (#[trigger] sv[w]).0)
                        ==> importer_injected_ok(sv[w].1)),
            decreases self.importers@.len() - i,
        {
            proof {
                assert(sv[i as int] == (self.importers@[i as int].0@,
                self.importers@[i as int].1@));
            }
            if is_retained(workspace_paths, self.importers[i].0.as_str()) {
                let imp_ok = importer_check(&self.importers[i].1);
                ok = ok && imp_ok;
            }
            i += 1;
        }
        proof {
            if ok {
                assert(injected_ok(self@, paths_v)) by {
                    assert forall|w: int|
                        0 <= w < self@.importers.len() && retained_ws(
                            paths_v,
                            (#[trigger] self@.importers[w]).0,
                        ) implies importer_injected_ok(self@.importers[w].1) by {
                        assert(self@.importers[w] == sv[w]);
                    }
                }
            } else {
                assert(!injected_ok(self@, paths_v));
            }
        }
        ok
    }
}


/// What a successful pruning guarantees: global fields carried over
/// verbatim, the timestamp map dropped, exactly the retained importers, a
/// package registry holding exactly the requested and injected keys, and a
/// patch registry reduced to the patches some surviving key still encodes.
pub open spec fn subgraph_ok(
    src: crate::data::DocView,
    paths: Seq<Seq<char>>,
    pkgs: Seq<Seq<char>>,
    out: crate::data::DocView,
) -> bool {
    &&& out.lockfile_version == src.lockfile_version
    &&& out.never_built_dependencies == src.never_built_dependencies
    &&& out.only_built_dependencies == src.only_built_dependencies
    &&& out.overrides == src.overrides
    &&& out.package_extensions_checksum == src.package_extensions_checksum
    &&& out.time is None
    &&& out.importers == filter_importers(src.importers, paths)
    &&& (forall|k: Seq<char>|
        #[trigger] out.pkg_lookup(k) == if surviving_key(src, paths, pkgs, k) {
            src.pkg_lookup(k)
        } else {
            None::<PackageSnapshotView>
        })
    &&& (forall|k: Seq<char>|
        #[trigger] surviving_key(src, paths, pkgs, k) ==> src.pkg_lookup(k) is Some)
    &&& (out.packages is None <==> (forall|k: Seq<char>|
        !(#[trigger] surviving_key(src, paths, pkgs, k))))
    &&& (out.packages matches Some(m) ==> crate::mapx::distinct_keys(m))
    &&& (out.patched_dependencies is Some <==> src.patched_dependencies is Some)
    &&& (out.patched_dependencies matches Some(pm) ==> crate::mapx::distinct_keys(pm) && (
    forall|pk: Seq<char>|
        #[trigger] lookup(pm, pk) == (match opt_lookup(src.patched_dependencies, pk) {
            Some(pf) => if surviving_patch(out.packages, pk, pf.hash) {
                Some(pf)
            } else {
                None::<crate::data::PatchFileView>
            },
            None => None::<crate::data::PatchFileView>,
        })))
}

impl PnpmLockfileData {
    /// Produces the pruned document for the given workspace paths and
    /// package keys.  The root workspace is always retained; injected
    /// dependencies of retained workspaces are implicit members of the
    /// pruned set.  A requested or injected key absent from the source
    /// fails the whole operation with `MissingPackage`; no partial
    /// document is ever produced.  The source is never mutated.
    pub fn subgraph(&self, workspace_paths: &[String], packages: &[String]) -> (r: Result<
        PnpmLockfileData,
        crate::data::Error,
    >)
        requires
            injected_ok(self@, strs_view(workspace_paths@)),
        ensures
            match r {
                Ok(out) => subgraph_ok(
                    self@,
                    strs_view(workspace_paths@),
                    strs_view(packages@),
                    out@,
                ) && (crate::mapx::distinct_keys(self@.importers)
                    ==> crate::mapx::distinct_keys(out@.importers)),
                Err(e) => e matches crate::data::Error::MissingPackage(p) && surviving_key(
                    self@,
                    strs_view(workspace_paths@),
                    strs_view(packages@),
                    p@,
                ) && self@.pkg_lookup(p@) is None,
            },
    {
        let ghost srcv = self@;
        let ghost paths_v = strs_view(workspace_paths@);
        let ghost pkgs_v = strs_view(packages@);

        // Retained importers, in source order.
        let mut importers: Vec<(String, ProjectSnapshot)> = Vec::new();
        let ghost sv = entries_view(self.importers@);
        let mut fi: usize = 0;
        proof {
            assert(sv.take(0) =~= Seq::<(Seq<char>, ProjectSnapshotView)>::empty());
        }
        while fi < self.importers.len()
            invariant
                fi <= self.importers@.len(),
                sv == entries_view(self.importers@),
                paths_v == strs_view(workspace_paths@),
                entries_view(importers@) == filter_importers(sv.take(fi as int), paths_v),
            decreases self.importers@.len() - fi,
        {
            proof {
                assert(sv[fi as int] == (self.importers@[fi as int].0@,
                self.importers@[fi as int].1@));
            }
            let kept = is_retained(workspace_paths, self.importers[fi].0.as_str());
            if kept {
                let ghost out_prev = importers@;
                let key = self.importers[fi].0.clone();
                let snap = clone_project(&self.importers[fi].1);
                importers.push((key, snap));
                proof {
                    lemma_entries_view_push(out_prev, importers@.last());
                    assert(importers@.drop_last() =~= out_prev);
                    assert(importers@ =~= out_prev.push(importers@.last()));
                    assert((importers@.last().0@, importers@.last().1@) == sv[fi as int]);
                }
            }
            proof {
                assert(sv.take(fi + 1).drop_last() =~= sv.take(fi as int));
                assert(sv.take(fi + 1).last() == sv[fi as int]);
                assert(entries_view(importers@) == filter_importers(sv.take(fi + 1), paths_v));
            }
            fi += 1;
        }
        proof {
            assert(sv.take(sv.len() as int) =~= sv);
        }
        let ghost flt = filter_importers(srcv.importers, paths_v);
        proof {
            assert(entries_view(importers@) == flt);
        }

        // The requested packages.
        let mut pruned: Vec<(String, PackageSnapshot)> = Vec::new();
        let mut pi: usize = 0;
        while pi < packages.len()
            invariant
                pi <= packages@.len(),
                srcv == self@,
                pkgs_v == strs_view(packages@),
                crate::mapx::distinct_keys(entries_view(pruned@)),
                forall|j: int| 0 <= j < pi ==> srcv.pkg_lookup(#[trigger] pkgs_v[j]) is Some,
                forall|k: Seq<char>|
                    #[trigger] lookup(entries_view(pruned@), k) == if req_prefix(
                        pkgs_v,
                        pi as int,
                        k,
                    ) {
                        srcv.pkg_lookup(k)
                    } else {
                        None::<PackageSnapshotView>
                    },
            decreases packages@.len() - pi,
        {
            proof {
                assert(pkgs_v[pi as int] == packages@[pi as int]@);
            }
            match self.get_packages(packages[pi].as_str()) {
                None => {
                    let missing = packages[pi].clone();
                    proof {
                        assert(requested_key(pkgs_v, missing@));
                    }
                    return Err(crate::data::Error::MissingPackage(missing));
                },
                Some(entry) => {
                    let ck = packages[pi].clone();
                    let cv = clone_package(entry);
                    let ghost prev = entries_view(pruned@);
                    let ghost ckv = ck@;
                    let ghost cvv = cv@;
                    amap_insert_keep(&mut pruned, ck, cv);
                    proof {
                        assert(srcv.pkg_lookup(ckv) == Some(cvv));
                        assert forall|k: Seq<char>|
                            #[trigger] lookup(entries_view(pruned@), k) == (if req_prefix(
                                pkgs_v,
                                pi + 1,
                                k,
                            ) {
                                srcv.pkg_lookup(k)
                            } else {
                                None::<PackageSnapshotView>
                            }) by {
                            lemma_req_prefix_step(pkgs_v, pi as int, k);
                        }
                    }
                },
            }
            pi += 1;
        }
        proof {
            assert forall|k: Seq<char>|
                #[trigger] lookup(entries_view(pruned@), k) == (if requested_key(pkgs_v, k) {
                    srcv.pkg_lookup(k)
                } else {
                    None::<PackageSnapshotView>
                }) by {
                lemma_req_prefix_full(pkgs_v, k);
            }
        }

        // The injected dependencies of every retained workspace.
        let mut t: usize = 0;
        while t < importers.len()
            invariant
                t <= importers@.len(),
                srcv == self@,
                paths_v == strs_view(workspace_paths@),
                pkgs_v == strs_view(packages@),
                flt == filter_importers(srcv.importers, paths_v),
                entries_view(importers@) == flt,
                injected_ok(srcv, paths_v),
                crate::mapx::distinct_keys(entries_view(pruned@)),
                forall|j: int|
                    0 <= j < pkgs_v.len() ==> srcv.pkg_lookup(#[trigger] pkgs_v[j]) is Some,
                forall|k: Seq<char>|
                    (requested_key(pkgs_v, k) || injected_upto(flt, t as int, k))
                        ==> #[trigger] srcv.pkg_lookup(k) is Some,
                forall|k: Seq<char>|
                    #[trigger] lookup(entries_view(pruned@), k) == (if requested_key(pkgs_v, k)
                        || injected_upto(flt, t as int, k) {
                        srcv.pkg_lookup(k)
                    } else {
                        None::<PackageSnapshotView>
                    }),
            decreases importers@.len() - t,
        {
            proof {
                assert(flt[t as int] == (importers@[t as int].0@, importers@[t as int].1@));
            }
            let ghost imp_v = flt[t as int].1;
            match &importers[t].1.dependencies_meta {
                None => {
                    proof {
                        assert(imp_v.dependencies_meta is None);
                        assert(!importer_injects_key(imp_v, seq![]));
                        assert forall|k: Seq<char>|
                            #[trigger] injected_upto(flt, t + 1, k) == injected_upto(
                                flt,
                                t as int,
                                k,
                            ) by {
                            lemma_injected_upto_step(flt, t as int, k);
                            assert(!importer_injects_key(imp_v, k));
                        }
                    }
                },
                Some(meta) => {
                    proof {
                        assert(imp_v.dependencies_meta == Some(entries_view(meta@)));
                    }
                    let mut j: usize = 0;
                    while j < meta.len()
                        invariant
                            j <= meta@.len(),
                            srcv == self@,
                            paths_v == strs_view(workspace_paths@),
                            pkgs_v == strs_view(packages@),
                            flt == filter_importers(srcv.importers, paths_v),
                            entries_view(importers@) == flt,
                            injected_ok(srcv, paths_v),
                            t < importers@.len(),
                            flt[t as int] == (importers@[t as int].0@,
                            importers@[t as int].1@),
                            imp_v == flt[t as int].1,
                            imp_v.dependencies_meta == Some(entries_view(meta@)),
                            crate::mapx::distinct_keys(entries_view(pruned@)),
                            forall|jj: int|
                                0 <= jj < pkgs_v.len() ==> srcv.pkg_lookup(
                                    #[trigger] pkgs_v[jj],
                                ) is Some,
                            forall|k: Seq<char>|
                                (requested_key(pkgs_v, k) || injected_upto(flt, t as int, k)
                                    || importer_injects_key_prefix(imp_v, j as int, k))
                                    ==> #[trigger] srcv.pkg_lookup(k) is Some,
                            forall|k: Seq<char>|
                                #[trigger] lookup(entries_view(pruned@), k) == (if requested_key(
                                    pkgs_v,
                                    k,
                                ) || injected_upto(flt, t as int, k)
                                    || importer_injects_key_prefix(imp_v, j as int, k) {
                                    srcv.pkg_lookup(k)
                                } else {
                                    None::<PackageSnapshotView>
                                }),
                        decreases meta@.len() - j,
                    {
                        proof {
                            assert(entries_view(meta@)[j as int] == (meta@[j as int].0@,
                            meta@[j as int].1@));
                        }
                        let inj = matches!(meta[j].1.injected, Some(true));
                        if inj {
                            match importers[t].1.dependencies.find_resolution(
                                meta[j].0.as_str(),
                            ) {
                                None => {
                                    proof {
                                        lemma_filter_importers_mem(srcv.importers, paths_v);
                                        assert(srcv.importers.contains(flt[t as int]));
                                        let w = choose|w: int|
                                            0 <= w < srcv.importers.len() && srcv.importers[w]
                                                == flt[t as int];
                                        assert(retained_ws(paths_v, srcv.importers[w].0));
                                        assert(importer_injected_ok(srcv.importers[w].1));
                                        assert(imp_v.dependencies.find_resolution(
                                            entries_view(meta@)[j as int].0,
                                        ) is Some);
                                        assert(false);
                                    }
                                    return vstd::pervasive::unreached();
                                },
                                Some(found) => {
                                    let verstr = found.1;
                                    let ghost vk = verstr@;
                                    proof {
                                        assert(imp_v.dependencies.find_resolution(
                                            meta@[j as int].0@,
                                        ) == Some((found.0@, vk)));
                                    }
                                    match self.get_packages(verstr) {
                                        None => {
                                            let missing = verstr.to_owned();
                                            proof {
                                                lemma_filter_importers_mem(
                                                    srcv.importers,
                                                    paths_v,
                                                );
                                                assert(srcv.importers.contains(flt[t as int]));
                                                let w = choose|w: int|
                                                    0 <= w < srcv.importers.len()
                                                        && srcv.importers[w] == flt[t as int];
                                                assert(retained_ws(
                                                    paths_v,
                                                    srcv.importers[w].0,
                                                ));
                                                assert(importer_injects_key(imp_v, vk));
                                                assert(importer_injects_key(
                                                    srcv.importers[w].1,
                                                    vk,
                                                ));
                                                assert(injected_key(srcv, paths_v, vk));
                                                assert(missing@ == vk);
                                            }
                                            return Err(
                                                crate::data::Error::MissingPackage(missing),
                                            );
                                        },
                                        Some(entry) => {
                                            let ck = verstr.to_owned();
                                            let cv = clone_package(entry);
                                            let ghost cvv = cv@;
                                            amap_insert_keep(&mut pruned, ck, cv);
                                            proof {
                                                assert(srcv.pkg_lookup(vk) == Some(cvv));
                                                assert(importer_injects_key_prefix(
                                                    imp_v,
                                                    j + 1,
                                                    vk,
                                                )) by {
                                                    lemma_prefix_inject_step(
                                                        imp_v,
                                                        j as int,
                                                        vk,
                                                    );
                                                }
                                                assert forall|k: Seq<char>|
                                                    #[trigger] lookup(
                                                        entries_view(pruned@),
                                                        k,
                                                    ) == (if requested_key(pkgs_v, k)
                                                        || injected_upto(flt, t as int, k)
                                                        || importer_injects_key_prefix(
                                                        imp_v,
                                                        j + 1,
                                                        k,
                                                    ) {
                                                        srcv.pkg_lookup(k)
                                                    } else {
                                                        None::<PackageSnapshotView>
                                                    }) by {
                                                    lemma_prefix_inject_step(
                                                        imp_v,
                                                        j as int,
                                                        k,
                                                    );
                                                }
                                                assert forall|k: Seq<char>|
                                                    (requested_key(pkgs_v, k) || injected_upto(
                                                        flt,
                                                        t as int,
                                                        k,
                                                    ) || importer_injects_key_prefix(
                                                        imp_v,
                                                        j + 1,
                                                        k,
                                                    )) implies #[trigger] srcv.pkg_lookup(
                                                    k,
                                                ) is Some by {
                                                    lemma_prefix_inject_step(
                                                        imp_v,
                                                        j as int,
                                                        k,
                                                    );
                                                }
                                            }
                                        },
                                    }
                                },
                            }
                        } else {
                            proof {
                                assert(meta@[j as int].1.injected != Some(true));
                                assert forall|k: Seq<char>|
                                    #[trigger] importer_injects_key_prefix(imp_v, j + 1, k)
                                        == importer_injects_key_prefix(imp_v, j as int, k) by {
                                    lemma_prefix_inject_step(imp_v, j as int, k);
                                }
                            }
                        }
                        j += 1;
                    }
                    proof {
                        assert forall|k: Seq<char>|
                            #[trigger] injected_upto(flt, t + 1, k) == (injected_upto(
                                flt,
                                t as int,
                                k,
                            ) || importer_injects_key_prefix(
                                imp_v,
                                meta@.len() as int,
                                k,
                            )) by {
                            lemma_injected_upto_step(flt, t as int, k);
                            lemma_prefix_inject_full(imp_v, k);
                        }
                    }
                },
            }
            t += 1;
        }
        proof {
            assert forall|k: Seq<char>|
                #[trigger] lookup(entries_view(pruned@), k) == (if surviving_key(
                    srcv,
                    paths_v,
                    pkgs_v,
                    k,
                ) {
                    srcv.pkg_lookup(k)
                } else {
                    None::<PackageSnapshotView>
                }) by {
                lemma_injected_full_iff(srcv, paths_v, k);
            }
            assert forall|k: Seq<char>|
                #[trigger] surviving_key(srcv, paths_v, pkgs_v, k) implies srcv.pkg_lookup(
                k,
            ) is Some by {
                lemma_injected_full_iff(srcv, paths_v, k);
            }
        }
        let ghost pruned_v = entries_view(pruned@);

        // The surviving patches.
        let patched: Option<Vec<(String, PatchFile)>> = match &self.patched_dependencies {
            None => None,
            Some(src_patches) => {
                let ghost spv = entries_view(src_patches@);
                proof {
                    assert(srcv.patched_dependencies == Some(spv));
                }
                let mut kept: Vec<(String, PatchFile)> = Vec::new();
                let mut u: usize = 0;
                while u < pruned.len()
                    invariant
                        u <= pruned@.len(),
                        srcv == self@,
                        pruned_v == entries_view(pruned@),
                        spv == entries_view(src_patches@),
                        srcv.patched_dependencies == Some(spv),
                        crate::mapx::distinct_keys(entries_view(kept@)),
                        forall|pk: Seq<char>|
                            #[trigger] lookup(entries_view(kept@), pk) == (match lookup(
                                spv,
                                pk,
                            ) {
                                Some(pf) => if prefix_survives(pruned_v, u as int, pk, pf.hash) {
                                    Some(pf)
                                } else {
                                    None::<crate::data::PatchFileView>
                                },
                                None => None::<crate::data::PatchFileView>,
                            }),
                    decreases pruned@.len() - u,
                {
                    proof {
                        assert(pruned_v[u as int] == (pruned@[u as int].0@,
                        pruned@[u as int].1@));
                    }
                    let keystr = pruned[u].0.as_str();
                    match parse_dep_path(keystr) {
                        None => {
                            proof {
                                assert forall|pk: Seq<char>, h: Seq<char>|
                                    #[trigger] prefix_survives(pruned_v, u + 1, pk, h)
                                        == prefix_survives(pruned_v, u as int, pk, h) by {
                                    lemma_prefix_survives_step(pruned_v, u as int, pk, h);
                                    assert(!key_announces(pruned_v[u as int].0, pk, h));
                                }
                            }
                        },
                        Some(dp) => {
                            let ghost kp = parse_key(pruned_v[u as int].0)->Some_0;
                            let mut pkstr = dp.name.to_owned();
                            pkstr.append("@");
                            pkstr.append(dp.version);
                            proof {
                                reveal_strlit("@");
                                assert(pkstr@ =~= patch_key_of(kp));
                            }
                            match amap_get(src_patches, pkstr.as_str()) {
                                None => {
                                    proof {
                                        assert(lookup(spv, patch_key_of(kp)) is None);
                                        assert forall|pk: Seq<char>|
                                            #[trigger] lookup(entries_view(kept@), pk) == (
                                            match lookup(spv, pk) {
                                                Some(pf) => if prefix_survives(
                                                    pruned_v,
                                                    u + 1,
                                                    pk,
                                                    pf.hash,
                                                ) {
                                                    Some(pf)
                                                } else {
                                                    None::<crate::data::PatchFileView>
                                                },
                                                None => None::<crate::data::PatchFileView>,
                                            }) by {
                                            match lookup(spv, pk) {
                                                Some(pf) => {
                                                    lemma_prefix_survives_step(
                                                        pruned_v,
                                                        u as int,
                                                        pk,
                                                        pf.hash,
                                                    );
                                                    if key_announces(
                                                        pruned_v[u as int].0,
                                                        pk,
                                                        pf.hash,
                                                    ) {
                                                        assert(pk == patch_key_of(kp));
                                                        assert(false);
                                                    }
                                                },
                                                None => {},
                                            }
                                        }
                                    }
                                },
                                Some(pf) => {
                                    let hmatch = match dp.patch_hash {
                                        Some(h) => crate::strutil::str_eq(h, pf.hash.as_str()),
                                        None => false,
                                    };
                                    let ghost pfv = pf@;
                                    if hmatch {
                                        let ghost kept_prev = entries_view(kept@);
                                        let cpf = clone_patch_file(pf);
                                        amap_insert_keep(&mut kept, pkstr, cpf);
                                        proof {
                                            assert(kp.patch_hash == Some(pfv.hash));
                                            assert(key_announces(
                                                pruned_v[u as int].0,
                                                patch_key_of(kp),
                                                pfv.hash,
                                            ));
                                            assert forall|pk: Seq<char>|
                                                #[trigger] lookup(entries_view(kept@), pk) == (
                                                match lookup(spv, pk) {
                                                    Some(pf2) => if prefix_survives(
                                                        pruned_v,
                                                        u + 1,
                                                        pk,
                                                        pf2.hash,
                                                    ) {
                                                        Some(pf2)
                                                    } else {
                                                        None::<crate::data::PatchFileView>
                                                    },
                                                    None => None::<
                                                        crate::data::PatchFileView,
                                                    >,
                                                }) by {
                                                match lookup(spv, pk) {
                                                    Some(pf2) => {
                                                        lemma_prefix_survives_step(
                                                            pruned_v,
                                                            u as int,
                                                            pk,
                                                            pf2.hash,
                                                        );
                                                        if pk == patch_key_of(kp) {
                                                            assert(lookup(spv, pk) == Some(
                                                                pfv,
                                                            ));
                                                        } else {
                                                            assert(!key_announces(
                                                                pruned_v[u as int].0,
                                                                pk,
                                                                pf2.hash,
                                                            ));
                                                        }
                                                    },
                                                    None => {},
                                                }
                                            }
                                        }
                                    } else {
                                        proof {
                                            assert(kp.patch_hash != Some(pfv.hash));
                                            assert forall|pk: Seq<char>|
                                                #[trigger] lookup(entries_view(kept@), pk) == (
                                                match lookup(spv, pk) {
                                                    Some(pf2) => if prefix_survives(
                                                        pruned_v,
                                                        u + 1,
                                                        pk,
                                                        pf2.hash,
                                                    ) {
                                                        Some(pf2)
                                                    } else {
                                                        None::<crate::data::PatchFileView>
                                                    },
                                                    None => None::<
                                                        crate::data::PatchFileView,
                                                    >,
                                                }) by {
                                                match lookup(spv, pk) {
                                                    Some(pf2) => {
                                                        lemma_prefix_survives_step(
                                                            pruned_v,
                                                            u as int,
                                                            pk,
                                                            pf2.hash,
                                                        );
                                                        if key_announces(
                                                            pruned_v[u as int].0,
                                                            pk,
                                                            pf2.hash,
                                                        ) {
                                                            assert(pk == patch_key_of(kp));
                                                            assert(lookup(spv, pk) == Some(
                                                                pfv,
                                                            ));
                                                            assert(false);
                                                        }
                                                    },
                                                    None => {},
                                                }
                                            }
                                        }
                                    }
                                },
                            }
                        },
                    }
                    u += 1;
                }
                Some(kept)
            },
        };

        let packages_out: Option<Vec<(String, PackageSnapshot)>> = if pruned.len() == 0 {
            proof {
                assert forall|k: Seq<char>|
                    !(#[trigger] surviving_key(srcv, paths_v, pkgs_v, k)) by {
                    if surviving_key(srcv, paths_v, pkgs_v, k) {
                        assert(lookup(pruned_v, k) == srcv.pkg_lookup(k));
                        assert(srcv.pkg_lookup(k) is Some);
                        assert(lookup(pruned_v, k) is None);
                    }
                }
            }
            None
        } else {
            proof {
                lemma_lookup_at_index(pruned_v, 0);
                assert(lookup(pruned_v, pruned_v[0].0) is Some);
                assert(surviving_key(srcv, paths_v, pkgs_v, pruned_v[0].0));
            }
            Some(pruned)
        };

        let result = PnpmLockfileData {
            lockfile_version: clone_lockfile_version(&self.lockfile_version),
            never_built_dependencies: copy_opt_string_vec(&self.never_built_dependencies),
            only_built_dependencies: copy_opt_string_vec(&self.only_built_dependencies),
            overrides: copy_opt_str_entries(&self.overrides),
            package_extensions_checksum: copy_opt_string(&self.package_extensions_checksum),
            patched_dependencies: patched,
            importers,
            packages: packages_out,
            time: None,
        };
        proof {
            assert(result@.importers == flt);
            if crate::mapx::distinct_keys(srcv.importers) {
                lemma_filter_importers_distinct(srcv.importers, paths_v);
            }
            match result@.packages {
                None => {
                    assert forall|k: Seq<char>|
                        #[trigger] result@.pkg_lookup(k) == (if surviving_key(
                            srcv,
                            paths_v,
                            pkgs_v,
                            k,
                        ) {
                            srcv.pkg_lookup(k)
                        } else {
                            None::<PackageSnapshotView>
                        }) by {}
                },
                Some(m) => {
                    assert(m == pruned_v);
                },
            }
            match result@.patched_dependencies {
                None => {
                    assert(srcv.patched_dependencies is None);
                },
                Some(pm) => {
                    assert forall|pk: Seq<char>|
                        #[trigger] lookup(pm, pk) == (match opt_lookup(
                            srcv.patched_dependencies,
                            pk,
                        ) {
                            Some(pf) => if surviving_patch(result@.packages, pk, pf.hash) {
                                Some(pf)
                            } else {
                                None::<crate::data::PatchFileView>
                            },
                            None => None::<crate::data::PatchFileView>,
                        }) by {
                        match opt_lookup(srcv.patched_dependencies, pk) {
                            Some(pf) => {
                                lemma_survives_full(pruned_v, pk, pf.hash);
                                match result@.packages {
                                    None => {
                                        assert(pruned_v.len() == 0);
                                        assert(!prefix_survives(
                                            pruned_v,
                                            pruned_v.len() as int,
                                            pk,
                                            pf.hash,
                                        ));
                                        if surviving_patch(None, pk, pf.hash) {
                                            let w = choose|w: Seq<char>|
                                                opt_lookup(
                                                    None::<
                                                        Seq<(Seq<char>, PackageSnapshotView)>,
                                                    >,
                                                    w,
                                                ) is Some && key_announces(w, pk, pf.hash);
                                            assert(false);
                                        }
                                    },
                                    Some(m) => {
                                        assert(m == pruned_v);
                                    },
                                }
                            },
                            None => {},
                        }
                    }
                },
            }
        }
        Ok(result)
    }
}

} // verus!
