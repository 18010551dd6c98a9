//! The engine's laws: what any two resolutions satisfying the resolution
//! contract are bound to do together. Each law quantifies over arbitrary
//! states and results related by [`resolve_post`], so it holds of every
//! pair of calls to the checked resolution surface.

use vstd::prelude::*;

use crate::context::{resolve_post, untouched, Context};
use crate::errors::{err_view, ErrView, ResolveError};
use crate::instance::{inst_view, Instance};
use crate::key::Key;
use crate::provider::{Color, CtorView, Scope};

verus! {

/// States with equal registries register the same providers.
proof fn lemma_same_reg(a: Context, b: Context)
    requires
        a.registry@ == b.registry@,
    ensures
        forall|kv: (u64, Option<Seq<char>>)| #[trigger] b.reg(kv) == a.reg(kv),
{
}

/// Two resolutions of a singleton key within the same context yield the
/// same shared instance: whatever the first call returned is cached, and
/// the second call returns exactly the cached instance, running no
/// constructor and touching no state.
pub proof fn lemma_singleton_shared(
    c0: Context,
    c1: Context,
    c2: Context,
    kv: (u64, Option<Seq<char>>),
    sync1: bool,
    sync2: bool,
    r1: Result<Instance, ResolveError>,
    r2: Result<Instance, ResolveError>,
)
    requires
        c0.wf(),
        c0.reg(kv) matches Option::Some(pv) && pv.scope == Scope::Singleton,
        resolve_post(c0, kv, sync1, r1, c1),
        resolve_post(c1, kv, sync2, r2, c2),
        r1 is Ok,
    ensures
        r2 is Ok,
        inst_view(r2->Ok_0) == inst_view(r1->Ok_0),
        untouched(c1, c2),
{
    lemma_same_reg(c0, c1);
    let v1 = r1->Ok_0;
    assert(c1.cached(kv) == Option::Some(inst_view(v1)));
}

/// Two resolutions of a transient key yield independently constructed
/// instances: each run of the constructor stamps a fresh serial, so the
/// two instances have distinct identities.
pub proof fn lemma_transient_independent(
    c0: Context,
    c1: Context,
    c2: Context,
    kv: (u64, Option<Seq<char>>),
    sync1: bool,
    sync2: bool,
    r1: Result<Instance, ResolveError>,
    r2: Result<Instance, ResolveError>,
    tag: u64,
    deps: Seq<(u64, Option<Seq<char>>)>,
)
    requires
        c0.wf(),
        c0.reg(kv) matches Option::Some(pv) && pv.scope == Scope::Transient && pv.ctor
            == CtorView::Build(tag, deps),
        resolve_post(c0, kv, sync1, r1, c1),
        resolve_post(c1, kv, sync2, r2, c2),
        r1 is Ok,
        r2 is Ok,
    ensures
        r1->Ok_0.serial != r2->Ok_0.serial,
{
    lemma_same_reg(c0, c1);
    let v1 = r1->Ok_0;
    let v2 = r2->Ok_0;
    assert(c0.built@.len() <= v1.serial < c1.built@.len());
    assert(c1.built@.len() <= v2.serial);
}

/// A single-owner key is handed out exactly once: with nothing blocking
/// it, the first resolution succeeds and marks the key consumed, and the
/// second fails with the already-consumed error.
pub proof fn lemma_single_owner_consumed(
    c0: Context,
    c1: Context,
    c2: Context,
    kv: (u64, Option<Seq<char>>),
    sync1: bool,
    sync2: bool,
    r1: Result<Instance, ResolveError>,
    r2: Result<Instance, ResolveError>,
    tag: u64,
)
    requires
        c0.wf(),
        c0.reg(kv) matches Option::Some(pv) && pv.scope == Scope::SingleOwner && pv.ctor
            == CtorView::Build(tag, Seq::<(u64, Option<Seq<char>>)>::empty()) && !(pv.color
            == Color::Async && sync1),
        !c0.is_consumed(kv),
        resolve_post(c0, kv, sync1, r1, c1),
        resolve_post(c1, kv, sync2, r2, c2),
    ensures
        r1 is Ok,
        r2 matches Result::Err(e) && err_view(e) == ErrView::AlreadyConsumed(kv),
{
    lemma_same_reg(c0, c1);
    assert(c1.is_consumed(kv));
}

/// A provider that depends directly on its own key fails with a cycle
/// error carrying the re-entered key, leaves no trace behind, and the
/// context stays usable: a later resolution of an unrelated pre-built
/// provider still succeeds.
pub proof fn lemma_direct_cycle_detected(
    c0: Context,
    c1: Context,
    c2: Context,
    kv: (u64, Option<Seq<char>>),
    kv2: (u64, Option<Seq<char>>),
    sync1: bool,
    sync2: bool,
    r1: Result<Instance, ResolveError>,
    r2: Result<Instance, ResolveError>,
    tag: u64,
    deps: Seq<(u64, Option<Seq<char>>)>,
)
    requires
        c0.wf(),
        c0.reg(kv) matches Option::Some(pv) && pv.ctor == CtorView::Build(tag, deps) && !(pv.color
            == Color::Async && sync1) && (pv.scope == Scope::SingleOwner ==> !c0.is_consumed(kv)),
        c0.cached(kv) is None,
        deps.len() > 0 && deps[0] == kv,
        resolve_post(c0, kv, sync1, r1, c1),
        c0.reg(kv2) matches Option::Some(pv2) && pv2.ctor matches CtorView::Standalone(_) && !(
        pv2.color == Color::Async && sync2) && (pv2.scope == Scope::SingleOwner ==> !c0.is_consumed(
            kv2,
        )),
        resolve_post(c1, kv2, sync2, r2, c2),
    ensures
        r1 matches Result::Err(e) && err_view(e) == ErrView::Cycle(
            Seq::<(u64, Option<Seq<char>>)>::empty().push(kv).push(kv),
        ),
        untouched(c0, c1),
        r2 is Ok,
{
    assert(c0.stack_v() =~= Seq::<(u64, Option<Seq<char>>)>::empty());
    lemma_same_reg(c0, c1);
    assert(c1.reg(kv2) == c0.reg(kv2));
    assert(c1.cached(kv2) == c0.cached(kv2)) by {
        assert(c1.singletons@ == c0.singletons@);
    }
    assert(c1.is_consumed(kv2) == c0.is_consumed(kv2)) by {
        assert(c1.consumed@ == c0.consumed@);
    }
    assert(c1.stack_v() =~= Seq::<(u64, Option<Seq<char>>)>::empty());
}

/// A failed resolution is fatal only to its own call: whatever a first
/// resolution did or failed to do — a dependency cycle of any depth
/// included — the stack comes back empty and a later resolution of an
/// unblocked pre-built provider succeeds.
pub proof fn lemma_context_usable_after_failure(
    c0: Context,
    c1: Context,
    c2: Context,
    kv: (u64, Option<Seq<char>>),
    kv2: (u64, Option<Seq<char>>),
    sync1: bool,
    sync2: bool,
    r1: Result<Instance, ResolveError>,
    r2: Result<Instance, ResolveError>,
)
    requires
        c0.wf(),
        resolve_post(c0, kv, sync1, r1, c1),
        c0.reg(kv2) matches Option::Some(pv2) && pv2.ctor matches CtorView::Standalone(_) && !(
        pv2.color == Color::Async && sync2) && (pv2.scope == Scope::SingleOwner ==> !c1.is_consumed(
            kv2,
        )),
        resolve_post(c1, kv2, sync2, r2, c2),
    ensures
        c1.wf(),
        r2 is Ok,
{
    lemma_same_reg(c0, c1);
    assert(c1.reg(kv2) == c0.reg(kv2));
    assert(c1.stack_v() == c0.stack_v());
}

/// An async provider reached through the synchronous path fails fast
/// with the wrong-color error, before any construction is performed —
/// except that an already-realized singleton is still handed out, since
/// no constructor needs to run for it.
pub proof fn lemma_wrong_color_fails_fast(
    c0: Context,
    c1: Context,
    kv: (u64, Option<Seq<char>>),
    r: Result<Instance, ResolveError>,
)
    requires
        c0.wf(),
        c0.reg(kv) matches Option::Some(pv) && pv.color == Color::Async,
        !(c0.reg(kv)->Some_0.scope == Scope::Singleton && c0.cached(kv) is Some),
        !(c0.reg(kv)->Some_0.scope == Scope::SingleOwner && c0.is_consumed(kv)),
        resolve_post(c0, kv, true, r, c1),
    ensures
        r matches Result::Err(e) && err_view(e) == ErrView::WrongColor(kv),
        untouched(c0, c1),
{
}

/// The suspension-capable path is a superset: no resolution through it
/// ever fails for a provider's color, whatever the provider.
pub proof fn lemma_async_path_never_wrong_color(
    c0: Context,
    c1: Context,
    kv: (u64, Option<Seq<char>>),
    r: Result<Instance, ResolveError>,
)
    requires
        c0.inv(),
        resolve_post(c0, kv, false, r, c1),
    ensures
        !(r matches Result::Err(e) && err_view(e) matches ErrView::WrongColor(_)),
{
}

/// Two bind transforms of one singleton source expose the same concrete
/// built value: resolving both derived keys, while neither is realized
/// yet, yields instances wrapping the same source construction.
pub proof fn lemma_binds_share_source(
    c0: Context,
    c1: Context,
    c2: Context,
    kvx: (u64, Option<Seq<char>>),
    kvy: (u64, Option<Seq<char>>),
    kvs: (u64, Option<Seq<char>>),
    sync1: bool,
    sync2: bool,
    r1: Result<Instance, ResolveError>,
    r2: Result<Instance, ResolveError>,
    tx: u64,
    ty: u64,
)
    requires
        c0.wf(),
        c0.reg(kvs) matches Option::Some(ps) && ps.scope == Scope::Singleton,
        c0.reg(kvx) matches Option::Some(px) && px.ctor == CtorView::Build(tx, seq![kvs]),
        c0.reg(kvy) matches Option::Some(py) && py.ctor == CtorView::Build(ty, seq![kvs]),
        c0.cached(kvx) is None,
        c1.cached(kvy) is None,
        resolve_post(c0, kvx, sync1, r1, c1),
        resolve_post(c1, kvy, sync2, r2, c2),
        r1 is Ok,
        r2 is Ok,
    ensures
        r1->Ok_0.parts@.len() == 1,
        r2->Ok_0.parts@.len() == 1,
        r1->Ok_0.parts@[0] == r2->Ok_0.parts@[0],
{
    lemma_same_reg(c0, c1);
    let v1 = r1->Ok_0;
    let v2 = r2->Ok_0;
    let deps = seq![kvs];
    assert(deps[0] == kvs);
    assert(c1.cached(kvs) matches Option::Some(d1) && d1.serial == v1.parts@[0]);
    assert(c2.cached(kvs) matches Option::Some(d2) && d2.serial == v2.parts@[0]);
    assert(c2.cached(kvs) == c1.cached(kvs));
}

/// Later registrations win: when the last registration under a key is the
/// provider at index `j`, resolving the key constructs through that
/// provider's constructor, never an earlier one's.
pub proof fn lemma_later_registration_wins(
    c0: Context,
    c1: Context,
    kv: (u64, Option<Seq<char>>),
    sync1: bool,
    r1: Result<Instance, ResolveError>,
    j: int,
    tag: u64,
    deps: Seq<(u64, Option<Seq<char>>)>,
)
    requires
        c0.wf(),
        0 <= j < c0.registry@.len(),
        crate::key::key_view(c0.registry@[j].definition.key) == kv,
        forall|l: int|
            j < l < c0.registry@.len() ==> crate::key::key_view(
                #[trigger] c0.registry@[l].definition.key,
            ) != kv,
        crate::provider::prov_view(c0.registry@[j]).ctor == CtorView::Build(tag, deps),
        c0.cached(kv) is None,
        resolve_post(c0, kv, sync1, r1, c1),
        r1 is Ok,
    ensures
        c0.reg(kv) == Option::Some(crate::provider::prov_view(c0.registry@[j])),
        (r1 matches Result::Ok(v) ==> v.tag == tag),
{
    lemma_reg_lookup_at(c0.registry@, kv, j);
}

/// The registry lookup returns the provider at the last index whose key
/// matches.
proof fn lemma_reg_lookup_at(s: Seq<crate::provider::DynProvider>, kv: (u64, Option<Seq<char>>), j: int)
    requires
        0 <= j < s.len(),
        crate::key::key_view(s[j].definition.key) == kv,
        forall|l: int|
            j < l < s.len() ==> crate::key::key_view(#[trigger] s[l].definition.key) != kv,
    ensures
        crate::context::reg_lookup(s, kv) == Option::Some(crate::provider::prov_view(s[j])),
    decreases s.len(),
{
    if j == s.len() - 1 {
    } else {
        assert(crate::key::key_view(s.last().definition.key) != kv);
        lemma_reg_lookup_at(s.drop_last(), kv, j);
        assert(s.drop_last()[j] == s[j]);
    }
}

} // verus!
