//! The engine's laws, each stated and proved over the document views and
//! the specification functions that the public contracts use.

use vstd::prelude::*;

use crate::data::{DocView, ProjectSnapshotView};
use crate::keys::parse_key;
use crate::mapx::opt_lookup;
use crate::prune::{
    filter_importers, injected_key, lemma_filter_importers_mem, requested_key, retained_ws,
    subgraph_ok, surviving_key, surviving_patch,
};

verus! {

/// Law: resolution is idempotent on resolved keys.  A specifier that is
/// itself a parseable key present in the registry resolves to that key
/// unchanged, with the version the key encodes, whatever the workspace
/// and name.
pub proof fn lemma_resolution_idempotent(
    doc: DocView,
    w: Seq<char>,
    name: Seq<char>,
    key: Seq<char>,
)
    requires
        doc.pkg_lookup(key) is Some,
        parse_key(key) is Some,
    ensures
        doc.resolve_package_model(w, name, key) == Ok::<Option<(Seq<char>, Seq<char>)>, Seq<char>>(
            Some((key, doc.extract_version(key)->Some_0)),
        ),
{
    assert(doc.extract_version(key) is Some);
}

/// Law: overrides take precedence.  When a global override for `name`
/// differs from the workspace's recorded specifier, resolution ignores
/// the recorded version and consults the registry under the key built
/// from the override; the workspace's own record is never rewritten.
pub proof fn lemma_override_precedence(
    doc: DocView,
    imp: ProjectSnapshotView,
    name: Seq<char>,
    specifier: Seq<char>,
)
    requires
        doc.override_for(name) is Some,
        imp.dependencies.find_resolution(name) is Some,
        imp.dependencies.find_resolution(name)->Some_0.0 != doc.override_for(name)->Some_0,
    ensures
        doc.resolve_specifier_in(imp, name, specifier) == (if doc.pkg_lookup(
            doc.format_key(name, doc.override_for(name)->Some_0),
        ) is Some {
            Some(doc.override_for(name)->Some_0)
        } else {
            None::<Seq<char>>
        }),
{
}

/// Law: pruning is restrictive.  Every workspace of a pruned document is
/// the root or one of the requested paths, and every package key bound in
/// it was requested or is injected by a retained workspace.
pub proof fn lemma_subgraph_restrictive(
    src: DocView,
    paths: Seq<Seq<char>>,
    pkgs: Seq<Seq<char>>,
    out: DocView,
)
    requires
        subgraph_ok(src, paths, pkgs, out),
    ensures
        forall|u: int|
            0 <= u < out.importers.len() ==> retained_ws(paths, (#[trigger] out.importers[u]).0),
        forall|k: Seq<char>|
            #[trigger] out.pkg_lookup(k) is Some ==> surviving_key(src, paths, pkgs, k),
{
    lemma_filter_importers_mem(src.importers, paths);
}

/// Filtering the retained importers twice changes nothing.
pub proof fn lemma_filter_importers_idempotent(
    s: Seq<(Seq<char>, ProjectSnapshotView)>,
    paths: Seq<Seq<char>>,
)
    ensures
        filter_importers(filter_importers(s, paths), paths) == filter_importers(s, paths),
    decreases s.len(),
{
    if s.len() == 0 {
        assert(filter_importers(filter_importers(s, paths), paths) =~= filter_importers(
            s,
            paths,
        ));
    } else {
        let pre = s.drop_last();
        lemma_filter_importers_idempotent(pre, paths);
        let fpre = filter_importers(pre, paths);
        if retained_ws(paths, s.last().0) {
            let pushed = fpre.push(s.last());
            assert(pushed.drop_last() =~= fpre);
            assert(pushed.last() == s.last());
            assert(filter_importers(pushed, paths) == filter_importers(fpre, paths).push(
                s.last(),
            ));
        }
    }
}

/// Law: pruning is idempotent.  Pruning a pruned document again, with the
/// same workspace paths and package keys, reproduces it: the same
/// importers, the same package bindings, the same patch bindings, and the
/// same global fields.
pub proof fn lemma_subgraph_idempotent(
    src: DocView,
    paths: Seq<Seq<char>>,
    pkgs: Seq<Seq<char>>,
    out1: DocView,
    out2: DocView,
)
    requires
        subgraph_ok(src, paths, pkgs, out1),
        subgraph_ok(out1, paths, pkgs, out2),
    ensures
        out2.importers == out1.importers,
        forall|k: Seq<char>| #[trigger] out2.pkg_lookup(k) == out1.pkg_lookup(k),
        forall|pk: Seq<char>|
            #[trigger] opt_lookup(out2.patched_dependencies, pk) == opt_lookup(
                out1.patched_dependencies,
                pk,
            ),
        out2.overrides == out1.overrides,
        out2.lockfile_version == out1.lockfile_version,
        out2.never_built_dependencies == out1.never_built_dependencies,
        out2.only_built_dependencies == out1.only_built_dependencies,
        out2.package_extensions_checksum == out1.package_extensions_checksum,
        out2.time == out1.time,
{
    lemma_filter_importers_idempotent(src.importers, paths);
    lemma_filter_importers_mem(src.importers, paths);
    assert forall|k: Seq<char>| #[trigger] out2.pkg_lookup(k) == out1.pkg_lookup(k) by {
        if surviving_key(out1, paths, pkgs, k) {
        } else {
            if out1.pkg_lookup(k) is Some {
                assert(surviving_key(src, paths, pkgs, k));
                if requested_key(pkgs, k) {
                    assert(surviving_key(out1, paths, pkgs, k));
                } else {
                    assert(injected_key(src, paths, k));
                    let i = choose|i: int|
                        0 <= i < src.importers.len() && retained_ws(paths, src.importers[i].0)
                            && crate::prune::importer_injects_key(src.importers[i].1, k);
                    assert(filter_importers(src.importers, paths).contains(src.importers[i]));
                    let u = choose|u: int|
                        0 <= u < filter_importers(src.importers, paths).len()
                            && filter_importers(src.importers, paths)[u] == src.importers[i];
                    assert(out1.importers[u] == src.importers[i]);
                    assert(injected_key(out1, paths, k));
                    assert(surviving_key(out1, paths, pkgs, k));
                }
                assert(false);
            }
        }
    }
    assert forall|pk: Seq<char>|
        #[trigger] opt_lookup(out2.patched_dependencies, pk) == opt_lookup(
            out1.patched_dependencies,
            pk,
        ) by {
        match out1.patched_dependencies {
            None => {
                assert(src.patched_dependencies is None);
                assert(out2.patched_dependencies is None);
            },
            Some(pm1) => {
                assert(out2.patched_dependencies is Some);
                let pm2 = out2.patched_dependencies->Some_0;
                match opt_lookup(out1.patched_dependencies, pk) {
                    None => {},
                    Some(pf) => {
                        assert(opt_lookup(src.patched_dependencies, pk) == Some(pf));
                        assert(surviving_patch(out1.packages, pk, pf.hash));
                        let wk = choose|wk: Seq<char>|
                            opt_lookup(out1.packages, wk) is Some && crate::prune::key_announces(
                                wk,
                                pk,
                                pf.hash,
                            );
                        assert(out1.pkg_lookup(wk) is Some);
                        assert(out2.pkg_lookup(wk) is Some);
                        assert(opt_lookup(out2.packages, wk) is Some);
                        assert(surviving_patch(out2.packages, pk, pf.hash));
                    },
                }
            },
        }
    }
}

/// Law: patch survival.  A patch is bound in a pruned document exactly
/// when the source binds it and some surviving package's key encodes its
/// lookup key together with its recorded hash.
pub proof fn lemma_patch_survival(
    src: DocView,
    paths: Seq<Seq<char>>,
    pkgs: Seq<Seq<char>>,
    out: DocView,
    pk: Seq<char>,
)
    requires
        subgraph_ok(src, paths, pkgs, out),
    ensures
        opt_lookup(out.patched_dependencies, pk) == (match opt_lookup(
            src.patched_dependencies,
            pk,
        ) {
            Some(pf) => if surviving_patch(out.packages, pk, pf.hash) {
                Some(pf)
            } else {
                None::<crate::data::PatchFileView>
            },
            None => None::<crate::data::PatchFileView>,
        }),
{
}

} // verus!
