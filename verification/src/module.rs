//! Modules: declarative bundles of providers, composed by flattening.
//!
//! A module is identified by an id and may include other modules by id.
//! [`flatten`] walks the given list depth-first, in order, and emits each
//! distinct module identity exactly once, at its first encounter — so a
//! sub-module shared by several bundles (diamond composition) contributes
//! its providers exactly once, however often it is reachable.

use vstd::prelude::*;
use vstd::seq_lib::*;
use vstd::set_lib::lemma_len_subset;

use crate::provider::{prov_view, DynProvider, ProvView};

verus! {

/// A declarative bundle: providers of its own, plus the ids of the
/// modules it includes. Every module named anywhere must appear in the
/// list handed to [`flatten`]; an included id with no definition in that
/// list is skipped.
pub struct Module {
    pub id: u64,
    pub providers: Vec<DynProvider>,
    pub submodules: Vec<u64>,
}

/// A resolved module: one distinct module identity with its providers,
/// ready for registration.
pub struct ResolveModule {
    pub id: u64,
    pub providers: Vec<DynProvider>,
}

/// The mathematical value of a module.
pub struct ModView {
    pub id: u64,
    pub providers: Seq<ProvView>,
    pub submodules: Seq<u64>,
}

/// The view of a module.
pub open spec fn mod_view(m: Module) -> ModView {
    ModView {
        id: m.id,
        providers: m.providers@.map_values(|p: DynProvider| prov_view(p)),
        submodules: m.submodules@,
    }
}

/// The views of a module list.
pub open spec fn defs_views(ms: Seq<Module>) -> Seq<ModView> {
    ms.map_values(|m: Module| mod_view(m))
}

/// The view of a resolved module.
pub open spec fn rm_view(rm: ResolveModule) -> (u64, Seq<ProvView>) {
    (rm.id, rm.providers@.map_values(|p: DynProvider| prov_view(p)))
}

/// The first definition of a module id in a list, if any: when an id is
/// defined more than once, the first definition wins.
pub open spec fn find_def(defs: Seq<ModView>, id: u64) -> Option<ModView>
    decreases defs.len(),
{
    if defs.len() == 0 {
        Option::None
    } else if defs.first().id == id {
        Option::Some(defs.first())
    } else {
        find_def(defs.drop_first(), id)
    }
}

/// What flattening guarantees: each defined module identity appears
/// exactly once, with the providers of its first definition, and nothing
/// else appears.
pub open spec fn flatten_post(defs: Seq<ModView>, outv: Seq<(u64, Seq<ProvView>)>) -> bool {
    &&& outv.map_values(|e: (u64, Seq<ProvView>)| e.0).no_duplicates()
    &&& forall|i: int|
        0 <= i < outv.len() ==> match find_def(defs, (#[trigger] outv[i]).0) {
            Option::Some(m) => outv[i].1 == m.providers,
            Option::None => false,
        }
    &&& forall|id: u64|
        outv.map_values(|e: (u64, Seq<ProvView>)| e.0).contains(id) <==> (#[trigger] find_def(
            defs,
            id,
        )) is Some
}

/// An id has a definition exactly when it occurs among the ids.
proof fn lemma_find_def_found(defs: Seq<ModView>, id: u64)
    ensures
        find_def(defs, id) is Some <==> defs.map_values(|m: ModView| m.id).contains(id),
    decreases defs.len(),
{
    let ids = defs.map_values(|m: ModView| m.id);
    if defs.len() > 0 {
        lemma_find_def_found(defs.drop_first(), id);
        assert(defs.drop_first().map_values(|m: ModView| m.id) =~= ids.drop_first());
        if defs.first().id == id {
            assert(ids[0] == id);
        } else {
            if ids.contains(id) {
                let i = choose|i: int| 0 <= i < ids.len() && ids[i] == id;
                assert(i != 0);
                assert(ids.drop_first()[i - 1] == id);
            }
            if ids.drop_first().contains(id) {
                let i = choose|i: int|
                    0 <= i < ids.drop_first().len() && ids.drop_first()[i] == id;
                assert(ids[i + 1] == id);
            }
        }
    }
}

/// A sequence of distinct ids drawn from another sequence is no longer
/// than it.
proof fn lemma_distinct_members_bound(xs: Seq<u64>, ids: Seq<u64>)
    requires
        xs.no_duplicates(),
        forall|i: int| 0 <= i < xs.len() ==> ids.contains(#[trigger] xs[i]),
    ensures
        xs.len() <= ids.len(),
{
    broadcast use vstd::seq_lib::seq_to_set_is_finite;
    broadcast use vstd::set::group_set_axioms;

    assert forall|x: u64| xs.to_set().contains(x) implies ids.to_set().contains(x) by {
        let i = choose|i: int| 0 <= i < xs.len() && xs[i] == x;
    }
    xs.unique_seq_to_set();
    lemma_len_subset(xs.to_set(), ids.to_set());
    ids.lemma_cardinality_of_set();
}

/// Whether a plain id list holds an id.
fn contains_u64(v: &Vec<u64>, x: u64) -> (r: bool)
    ensures
        r == v@.contains(x),
{
    let mut i: usize = 0;
    while i < v.len()
        invariant
            i <= v.len(),
            forall|j: int| 0 <= j < i as int ==> v@[j] != x,
        decreases v.len() - i,
    {
        if v[i] == x {
            return true;
        }
        i = i + 1;
    }
    false
}

/// The index of the first definition of `id`, if any.
fn find_index(defs: &Vec<Module>, id: u64) -> (r: Option<usize>)
    ensures
        match r {
            Option::Some(ix) => ix < defs@.len() && defs@[ix as int].id == id && find_def(
                defs_views(defs@),
                id,
            ) == Option::Some(mod_view(defs@[ix as int])),
            Option::None => find_def(defs_views(defs@), id) is None,
        },
{
    let ghost dv = defs_views(defs@);
    proof {
        assert(dv.skip(0) =~= dv);
    }
    let mut i: usize = 0;
    while i < defs.len()
        invariant
            i <= defs.len(),
            dv == defs_views(defs@),
            find_def(dv, id) == find_def(dv.skip(i as int), id),
        decreases defs.len() - i,
    {
        proof {
            assert(dv.skip(i as int).first() == dv[i as int]);
            assert(dv.skip(i as int).drop_first() =~= dv.skip(i as int + 1));
        }
        if defs[i].id == id {
            return Option::Some(i);
        }
        i = i + 1;
    }
    proof {
        assert(dv.skip(defs@.len() as int) =~= Seq::<ModView>::empty());
    }
    Option::None
}

/// A copy of a provider list, provider views preserved.
fn clone_providers(ps: &Vec<DynProvider>) -> (r: Vec<DynProvider>)
    ensures
        r@.map_values(|p: DynProvider| prov_view(p)) == ps@.map_values(
            |p: DynProvider| prov_view(p),
        ),
{
    let mut out: Vec<DynProvider> = Vec::new();
    let mut i: usize = 0;
    while i < ps.len()
        invariant
            i <= ps.len(),
            out@.len() == i as int,
            forall|j: int| 0 <= j < i as int ==> prov_view(#[trigger] out@[j]) == prov_view(ps@[j]),
        decreases ps.len() - i,
    {
        out.push(ps[i].clone());
        i = i + 1;
    }
    proof {
        assert(out@.map_values(|p: DynProvider| prov_view(p)) =~= ps@.map_values(
            |p: DynProvider| prov_view(p),
        ));
    }
    out
}

/// Flattens a module list: walks it depth-first in order, emitting each
/// distinct module identity once, at its first encounter, with the
/// providers of its first definition. Included ids with no definition in
/// the list are skipped.
pub fn flatten(defs: &Vec<Module>) -> (out: Vec<ResolveModule>)
    ensures
        flatten_post(defs_views(defs@), out@.map_values(|rm: ResolveModule| rm_view(rm))),
{
    let ghost dv = defs_views(defs@);
    let mut work: Vec<u64> = Vec::new();
    let mut i: usize = 0;
    while i < defs.len()
        invariant
            i <= defs.len(),
            work@.len() == i as int,
            forall|j: int| 0 <= j < i as int ==> work@[j] == defs@[j].id,
        decreases defs.len() - i,
    {
        work.push(defs[i].id);
        i = i + 1;
    }
    proof {
        assert forall|id: u64| find_def(dv, id) is Some implies work@.contains(id) by {
            lemma_find_def_found(dv, id);
            let ids = dv.map_values(|m: ModView| m.id);
            let j = choose|j: int| 0 <= j < ids.len() && ids[j] == id;
            assert(work@[j] == id);
        }
    }

    let mut seen: Vec<u64> = Vec::new();
    let mut out: Vec<ResolveModule> = Vec::new();
    while work.len() > 0
        invariant
            dv == defs_views(defs@),
            seen@.no_duplicates(),
            forall|j: int|
                0 <= j < seen@.len() ==> find_def(dv, #[trigger] seen@[j]) is Some,
            out@.map_values(|rm: ResolveModule| rm_view(rm)).map_values(
                |e: (u64, Seq<ProvView>)| e.0,
            ) =~= seen@,
            forall|j: int|
                0 <= j < out@.len() ==> match find_def(dv, rm_view(#[trigger] out@[j]).0) {
                    Option::Some(m) => rm_view(out@[j]).1 == m.providers,
                    Option::None => false,
                },
            forall|id: u64|
                (#[trigger] find_def(dv, id)) is Some ==> seen@.contains(id) || work@.contains(id),
        decreases dv.len() - seen@.len(), work@.len(),
    {
        proof {
            assert forall|j: int| 0 <= j < seen@.len() implies dv.map_values(
                |m: ModView| m.id,
            ).contains(#[trigger] seen@[j]) by {
                lemma_find_def_found(dv, seen@[j]);
            }
            lemma_distinct_members_bound(seen@, dv.map_values(|m: ModView| m.id));
        }
        let ghost old_work = work@;
        let ghost old_seen = seen@;
        let id = work.remove(0);
        proof {
            assert(work@ =~= old_work.drop_first());
        }
        if !contains_u64(&seen, id) {
            match find_index(defs, id) {
                Option::Some(ix) => {
                    seen.push(id);
                    out.push(
                        ResolveModule { id, providers: clone_providers(&defs[ix].providers) },
                    );
                    let mut nw = clone_u64s(&defs[ix].submodules);
                    nw.append(&mut work);
                    work = nw;
                    proof {
                        assert(seen@ =~= old_seen.push(id));
                        assert forall|j: int| 0 <= j < seen@.len() implies dv.map_values(
                            |m: ModView| m.id,
                        ).contains(#[trigger] seen@[j]) by {
                            lemma_find_def_found(dv, seen@[j]);
                        }
                        lemma_distinct_members_bound(seen@, dv.map_values(|m: ModView| m.id));
                        assert(out@.map_values(|rm: ResolveModule| rm_view(rm)).map_values(
                            |e: (u64, Seq<ProvView>)| e.0,
                        ) =~= seen@);
                        assert forall|id2: u64| (#[trigger] find_def(dv, id2)) is Some implies seen@
                            .contains(id2) || work@.contains(id2) by {
                            if id2 == id {
                                assert(seen@[seen@.len() - 1] == id);
                            } else if old_seen.contains(id2) {
                                let j = choose|j: int|
                                    0 <= j < old_seen.len() && old_seen[j] == id2;
                                assert(seen@[j] == id2);
                            } else {
                                let j = choose|j: int|
                                    0 <= j < old_work.len() && old_work[j] == id2;
                                assert(j != 0);
                                assert(old_work.drop_first()[j - 1] == id2);
                                let base = defs@[ix as int].submodules@.len() as int;
                                assert(work@[base + j - 1] == id2);
                            }
                        }
                    }
                },
                Option::None => {
                    proof {
                        assert forall|id2: u64| (#[trigger] find_def(dv, id2)) is Some implies seen@
                            .contains(id2) || work@.contains(id2) by {
                            if !old_seen.contains(id2) {
                                let j = choose|j: int|
                                    0 <= j < old_work.len() && old_work[j] == id2;
                                assert(j != 0);
                                assert(work@[j - 1] == id2);
                            }
                        }
                    }
                },
            }
        } else {
            proof {
                assert forall|id2: u64| (#[trigger] find_def(dv, id2)) is Some implies seen@
                    .contains(id2) || work@.contains(id2) by {
                    if !old_seen.contains(id2) {
                        let j = choose|j: int| 0 <= j < old_work.len() && old_work[j] == id2;
                        if j == 0 {
                            assert(old_seen.contains(id));
                        } else {
                            assert(work@[j - 1] == id2);
                        }
                    }
                }
            }
        }
    }
    proof {
        let outv = out@.map_values(|rm: ResolveModule| rm_view(rm));
        assert(outv.map_values(|e: (u64, Seq<ProvView>)| e.0) == seen@);
        assert forall|id: u64| outv.map_values(|e: (u64, Seq<ProvView>)| e.0).contains(id)
            <==> (#[trigger] find_def(dv, id)) is Some by {
            if seen@.contains(id) {
                let j = choose|j: int| 0 <= j < seen@.len() && seen@[j] == id;
                assert(find_def(dv, seen@[j]) is Some);
            }
        }
    }
    out
}

/// A copy of a plain id list.
fn clone_u64s(v: &Vec<u64>) -> (r: Vec<u64>)
    ensures
        r@ == v@,
{
    let mut out: Vec<u64> = Vec::new();
    let mut i: usize = 0;
    while i < v.len()
        invariant
            i <= v.len(),
            out@.len() == i as int,
            forall|j: int| 0 <= j < i as int ==> out@[j] == v@[j],
        decreases v.len() - i,
    {
        out.push(v[i]);
        i = i + 1;
    }
    proof {
        assert(out@ =~= v@);
    }
    out
}

/// A sub-module shared by several bundles contributes its providers
/// exactly once: in a flattening of any module list, a defined id appears
/// at exactly one position, carrying the providers of its first
/// definition.
pub proof fn lemma_shared_submodule_once(
    defs: Seq<ModView>,
    outv: Seq<(u64, Seq<ProvView>)>,
    id: u64,
)
    requires
        flatten_post(defs, outv),
        find_def(defs, id) is Some,
    ensures
        exists|i: int|
            0 <= i < outv.len() && (#[trigger] outv[i]).0 == id && outv[i].1 == find_def(
                defs,
                id,
            )->Some_0.providers,
        forall|i: int, j: int|
            0 <= i < outv.len() && 0 <= j < outv.len() && (#[trigger] outv[i]).0 == id && (
            #[trigger] outv[j]).0 == id ==> i == j,
{
    let ids = outv.map_values(|e: (u64, Seq<ProvView>)| e.0);
    assert(ids.contains(id));
    let i = choose|i: int| 0 <= i < ids.len() && ids[i] == id;
    assert(outv[i].0 == id && outv[i].1 == find_def(defs, id)->Some_0.providers);
    assert forall|i2: int, j2: int|
        0 <= i2 < outv.len() && 0 <= j2 < outv.len() && (#[trigger] outv[i2]).0 == id && (
        #[trigger] outv[j2]).0 == id implies i2 == j2 by {
        assert(ids[i2] == id && ids[j2] == id);
    }
}

} // verus!
