//! The context: the runtime surface of the engine. It owns the provider
//! registry and the singleton cache, tracks the in-flight resolution stack
//! for cycle detection, and performs eager creation when it is built.

use vstd::prelude::*;
use vstd::seq_lib::*;
use vstd::set_lib::lemma_len_subset;

use crate::errors::{err_view, ErrView, ResolveError};
use crate::instance::{inst_view, InstView, Instance, Payload};
use crate::key::{key_view, Key};
use crate::module::{defs_views, flatten, flatten_post, rm_view, Module, ResolveModule};
use crate::provider::{ctor_view, prov_view, Bind, Color, Constructor, CtorView, DynProvider, ProvView, Scope};

verus! {

/// Looks a key up in a registration sequence; the last registration under
/// the key wins, so later registrations override earlier ones.
pub open spec fn reg_lookup(
    s: Seq<DynProvider>,
    kv: (u64, Option<Seq<char>>),
) -> Option<ProvView>
    decreases s.len(),
{
    if s.len() == 0 {
        Option::None
    } else if key_view(s.last().definition.key) == kv {
        Option::Some(prov_view(s.last()))
    } else {
        reg_lookup(s.drop_last(), kv)
    }
}

/// Looks a key up in the singleton cache; the last entry under the key wins.
pub open spec fn cache_lookup(
    s: Seq<(Key, Instance)>,
    kv: (u64, Option<Seq<char>>),
) -> Option<InstView>
    decreases s.len(),
{
    if s.len() == 0 {
        Option::None
    } else if key_view(s.last().0) == kv {
        Option::Some(inst_view(s.last().1))
    } else {
        cache_lookup(s.drop_last(), kv)
    }
}

/// The key views of a registration sequence, in order.
pub open spec fn reg_keys(s: Seq<DynProvider>) -> Seq<(u64, Option<Seq<char>>)> {
    s.map_values(|p: DynProvider| key_view(p.definition.key))
}

/// The runtime surface: one registry of providers, one cache of realized
/// singletons, the consumed single-owner keys, the in-flight resolution
/// stack, and the log of constructor runs (each run records its tag).
///
/// The fields are exposed so that the specifications below can speak about
/// them; the construction surface is [`Context::options`] and
/// [`ContextOptions::create`], and the registry is never mutated after the
/// context is built.
pub struct Context {
    pub registry: Vec<DynProvider>,
    pub singletons: Vec<(Key, Instance)>,
    pub consumed: Vec<Key>,
    pub stack: Vec<Key>,
    pub built: Vec<u64>,
}

impl Context {
    /// The provider registered under a key view, if any.
    pub open spec fn reg(self, kv: (u64, Option<Seq<char>>)) -> Option<ProvView> {
        reg_lookup(self.registry@, kv)
    }

    /// The cached singleton instance under a key view, if any.
    pub open spec fn cached(self, kv: (u64, Option<Seq<char>>)) -> Option<InstView> {
        cache_lookup(self.singletons@, kv)
    }

    /// Whether a single-owner key's instance was already taken.
    pub open spec fn is_consumed(self, kv: (u64, Option<Seq<char>>)) -> bool {
        self.consumed@.map_values(|k: Key| key_view(k)).contains(kv)
    }

    /// The key views currently under construction, outermost first.
    pub open spec fn stack_v(self) -> Seq<(u64, Option<Seq<char>>)> {
        self.stack@.map_values(|k: Key| key_view(k))
    }

    /// The log of constructor runs: one tag per run, in completion order.
    /// The serial of a built instance is its index in this log.
    pub open spec fn log(self) -> Seq<u64> {
        self.built@
    }

    /// The internal invariant: every key under construction is registered,
    /// and no key is under construction twice (else resolution would
    /// recurse without bound instead of failing with a cycle).
    pub open spec fn inv(self) -> bool {
        &&& self.stack_v().no_duplicates()
        &&& forall|i: int|
            0 <= i < self.stack_v().len() ==> (#[trigger] self.reg(self.stack_v()[i])) is Some
    }

    /// A context at rest: the invariant holds and no resolution is in
    /// flight.
    pub open spec fn wf(self) -> bool {
        self.inv() && self.stack_v().len() == 0
    }
}

/// A registered key is one that the lookup finds.
proof fn lemma_reg_lookup_found(s: Seq<DynProvider>, kv: (u64, Option<Seq<char>>))
    ensures
        reg_lookup(s, kv) is Some <==> reg_keys(s).contains(kv),
    decreases s.len(),
{
    if s.len() > 0 {
        lemma_reg_lookup_found(s.drop_last(), kv);
        let rk = reg_keys(s);
        let rkp = reg_keys(s.drop_last());
        assert(rkp =~= rk.drop_last());
        let n = s.len() - 1;
        assert(rk[n] == key_view(s.last().definition.key));
        if key_view(s.last().definition.key) == kv {
            assert(rk.contains(kv)) by {
                assert(rk[n] == kv);
            }
        } else {
            if rk.contains(kv) {
                let i = choose|i: int| 0 <= i < rk.len() && rk[i] == kv;
                assert(i != n);
                assert(rkp[i] == kv);
                assert(rkp.contains(kv));
            }
            if rkp.contains(kv) {
                let i = choose|i: int| 0 <= i < rkp.len() && rkp[i] == kv;
                assert(rk[i] == kv);
                assert(rk.contains(kv));
            }
        }
    }
}

/// While the invariant holds, the resolution stack cannot be longer than
/// the registry: its keys are distinct and all registered. This bounds the
/// depth of the resolution recursion.
proof fn lemma_stack_bounded(cx: Context)
    requires
        cx.inv(),
    ensures
        cx.stack_v().len() <= cx.registry@.len(),
{
    broadcast use vstd::seq_lib::seq_to_set_is_finite;
    broadcast use vstd::set::group_set_axioms;

    let sv = cx.stack_v();
    let rk = reg_keys(cx.registry@);
    assert forall|kv: (u64, Option<Seq<char>>)| sv.to_set().contains(kv) implies rk.to_set()
        .contains(kv) by {
        let i = choose|i: int| 0 <= i < sv.len() && sv[i] == kv;
        assert(cx.reg(sv[i]) is Some);
        lemma_reg_lookup_found(cx.registry@, kv);
        assert(rk.contains(kv));
    }
    sv.unique_seq_to_set();
    lemma_len_subset(sv.to_set(), rk.to_set());
    rk.lemma_cardinality_of_set();
}

impl Context {
    /// Whether the key is already on the resolution stack.
    fn stack_contains(&self, key: &Key) -> (r: bool)
        ensures
            r == self.stack_v().contains(key_view(*key)),
    {
        let mut i: usize = 0;
        while i < self.stack.len()
            invariant
                i <= self.stack.len(),
                forall|j: int| 0 <= j < i as int ==> self.stack_v()[j] != key_view(*key),
            decreases self.stack.len() - i,
        {
            if self.stack[i].same_key(key) {
                proof {
                    assert(self.stack_v()[i as int] == key_view(*key));
                }
                return true;
            }
            i = i + 1;
        }
        false
    }

    /// Whether the single-owner instance under the key was already taken.
    fn consumed_contains(&self, key: &Key) -> (r: bool)
        ensures
            r == self.is_consumed(key_view(*key)),
    {
        let cs = Ghost(self.consumed@.map_values(|k: Key| key_view(k)));
        let mut i: usize = 0;
        while i < self.consumed.len()
            invariant
                i <= self.consumed.len(),
                cs@ == self.consumed@.map_values(|k: Key| key_view(k)),
                forall|j: int| 0 <= j < i as int ==> cs@[j] != key_view(*key),
            decreases self.consumed.len() - i,
        {
            if self.consumed[i].same_key(key) {
                proof {
                    assert(cs@[i as int] == key_view(*key));
                }
                return true;
            }
            i = i + 1;
        }
        false
    }

    /// Fetches the scope, color and constructor of the provider registered
    /// under the key; the last registration wins.
    fn fetch_provider(&self, key: &Key) -> (r: Option<(Scope, Color, Constructor)>)
        ensures
            match self.reg(key_view(*key)) {
                Option::None => r is None,
                Option::Some(pv) => r matches Option::Some(t) && t.0 == pv.scope && t.1
                    == pv.color && ctor_view(t.2) == pv.ctor,
            },
    {
        let mut i: usize = self.registry.len();
        proof {
            assert(self.registry@.take(i as int) =~= self.registry@);
        }
        while i > 0
            invariant
                i <= self.registry.len(),
                self.reg(key_view(*key)) == reg_lookup(
                    self.registry@.take(i as int),
                    key_view(*key),
                ),
            decreases i,
        {
            i = i - 1;
            proof {
                assert(self.registry@.take(i as int + 1).drop_last() =~= self.registry@.take(
                    i as int,
                ));
                assert(self.registry@.take(i as int + 1).last() == self.registry@[i as int]);
            }
            if self.registry[i].definition.key.same_key(key) {
                let p = &self.registry[i];
                return Option::Some((p.definition.scope, p.definition.color, p.constructor.clone()));
            }
        }
        proof {
            assert(self.registry@.take(0) =~= Seq::<DynProvider>::empty());
        }
        Option::None
    }

    /// Fetches a copy of the cached singleton instance under the key.
    fn cache_get(&self, key: &Key) -> (r: Option<Instance>)
        ensures
            match self.cached(key_view(*key)) {
                Option::None => r is None,
                Option::Some(iv) => r matches Option::Some(inst) && inst_view(inst) == iv,
            },
    {
        let mut i: usize = self.singletons.len();
        proof {
            assert(self.singletons@.take(i as int) =~= self.singletons@);
        }
        while i > 0
            invariant
                i <= self.singletons.len(),
                self.cached(key_view(*key)) == cache_lookup(
                    self.singletons@.take(i as int),
                    key_view(*key),
                ),
            decreases i,
        {
            i = i - 1;
            proof {
                assert(self.singletons@.take(i as int + 1).drop_last() =~= self.singletons@.take(
                    i as int,
                ));
                assert(self.singletons@.take(i as int + 1).last() == self.singletons@[i as int]);
            }
            if self.singletons[i].0.same_key(key) {
                return Option::Some(self.singletons[i].1.clone());
            }
        }
        proof {
            assert(self.singletons@.take(0) =~= Seq::<(Key, Instance)>::empty());
        }
        Option::None
    }

    /// Remembers that a built instance realizes the singleton under `key`.
    fn cache_put(&mut self, key: &Key, inst: &Instance)
        ensures
            final(self).registry@ == old(self).registry@,
            final(self).stack@ == old(self).stack@,
            final(self).consumed@ == old(self).consumed@,
            final(self).built@ == old(self).built@,
            final(self).cached(key_view(*key)) == Option::Some(inst_view(*inst)),
            forall|kv: (u64, Option<Seq<char>>)|
                kv != key_view(*key) ==> #[trigger] final(self).cached(kv) == old(self).cached(kv),
    {
        self.singletons.push((key.clone(), inst.clone()));
        proof {
            let s = self.singletons@;
            assert(s.last() == self.singletons@[s.len() - 1]);
            assert(s.drop_last() =~= old(self).singletons@);
        }
    }

    /// Records that the single-owner instance under `key` has been taken.
    fn consume(&mut self, key: &Key)
        ensures
            final(self).registry@ == old(self).registry@,
            final(self).stack@ == old(self).stack@,
            final(self).singletons@ == old(self).singletons@,
            final(self).built@ == old(self).built@,
            final(self).is_consumed(key_view(*key)),
            forall|kv: (u64, Option<Seq<char>>)|
                old(self).is_consumed(kv) ==> #[trigger] final(self).is_consumed(kv),
    {
        self.consumed.push(key.clone());
        proof {
            let m = self.consumed@.map_values(|k: Key| key_view(k));
            let m0 = old(self).consumed@.map_values(|k: Key| key_view(k));
            assert(m =~= m0.push(key_view(*key)));
            assert(m[m.len() - 1] == key_view(*key));
            assert forall|kv: (u64, Option<Seq<char>>)| old(self).is_consumed(kv) implies #[trigger] self.is_consumed(
                kv,
            ) by {
                let i = choose|i: int| 0 <= i < m0.len() && m0[i] == kv;
                assert(m[i] == kv);
            }
        }
    }

    /// A copy of the resolution stack with the re-entered key appended:
    /// the diagnostic payload of a cycle error.
    fn stack_with(&self, key: &Key) -> (r: Vec<Key>)
        ensures
            r@.map_values(|k: Key| key_view(k)) == self.stack_v().push(key_view(*key)),
    {
        let mut out: Vec<Key> = Vec::new();
        let mut i: usize = 0;
        while i < self.stack.len()
            invariant
                i <= self.stack.len(),
                out@.len() == i as int,
                forall|j: int| 0 <= j < i as int ==> key_view(#[trigger] out@[j]) == self.stack_v()[j],
            decreases self.stack.len() - i,
        {
            out.push(self.stack[i].clone());
            i = i + 1;
        }
        out.push(key.clone());
        proof {
            assert(out@.map_values(|k: Key| key_view(k)) =~= self.stack_v().push(key_view(*key)));
        }
        out
    }
}

/// Nothing observable changed: the cache, the consumed set and the
/// construction log are exactly as they were.
pub open spec fn untouched(pre: Context, post: Context) -> bool {
    &&& post.singletons@ == pre.singletons@
    &&& post.consumed@ == pre.consumed@
    &&& post.built@ == pre.built@
}

/// What every resolution preserves: the registry and the stack come back
/// as they were, the construction log only grows, cached singletons stay
/// cached unchanged, and consumed keys stay consumed.
pub open spec fn resolve_frame(pre: Context, post: Context) -> bool {
    &&& post.registry@ == pre.registry@
    &&& post.stack@ == pre.stack@
    &&& pre.built@.is_prefix_of(post.built@)
    &&& forall|kv: (u64, Option<Seq<char>>)|
        pre.cached(kv) is Some ==> #[trigger] post.cached(kv) == pre.cached(kv)
    &&& forall|kv: (u64, Option<Seq<char>>)|
        pre.is_consumed(kv) ==> #[trigger] post.is_consumed(kv)
}

/// What holds of a construction run: the scope policy's bookkeeping, and
/// for a constructor run the freshness of the new instance.
pub open spec fn construction_post(
    pre: Context,
    kv: (u64, Option<Seq<char>>),
    pv: ProvView,
    r: Result<Instance, ResolveError>,
    post: Context,
) -> bool {
    &&& match pv.ctor {
        CtorView::Standalone(iv) => (r matches Result::Ok(v) && inst_view(v) == iv
            && untouched(pre, post) == (pv.scope == Scope::Transient)),
        CtorView::Build(tag, deps) => {
            &&& (deps.len() == 0 ==> (r matches Result::Ok(v) && v.serial == pre.built@.len()
                && v.parts@.len() == 0))
            &&& (r matches Result::Ok(v) ==> {
                &&& v.tag == tag
                &&& pre.built@.len() <= v.serial < post.built@.len()
                &&& post.built@[v.serial as int] == tag
                &&& v.parts@.len() == deps.len()
                &&& forall|j: int|
                    0 <= j < deps.len() ==> match pre.reg(#[trigger] deps[j]) {
                        Option::Some(dpv) => dpv.scope == Scope::Singleton ==> match post.cached(
                            deps[j],
                        ) {
                            Option::Some(div) => div.serial == v.parts@[j],
                            Option::None => false,
                        },
                        Option::None => true,
                    }
            })
            &&& (deps.len() > 0 && deps[0] == kv ==> (r matches Result::Err(e) && err_view(e)
                == ErrView::Cycle(pre.stack_v().push(kv).push(kv)) && untouched(pre, post)))
        },
    }
    &&& (r matches Result::Ok(v) ==> match pv.scope {
        Scope::Singleton => post.cached(kv) == Option::Some(inst_view(v)),
        Scope::SingleOwner => post.is_consumed(kv),
        Scope::Transient => true,
    })
}

/// The full contract of one resolution of `kv` against the state `pre`,
/// relating the result and the state `post` it leaves behind.
///
/// The order of the guards mirrors the algorithm: a key already under
/// construction fails with a cycle carrying the stack; an unregistered key
/// fails as not found; a cached singleton is returned as it was cached; a
/// consumed single-owner key fails; an async provider on the synchronous
/// path fails before any construction; otherwise the constructor runs and
/// the scope's bookkeeping is applied.
pub open spec fn resolve_post(
    pre: Context,
    kv: (u64, Option<Seq<char>>),
    sync: bool,
    r: Result<Instance, ResolveError>,
    post: Context,
) -> bool {
    let st0 = pre.stack_v();
    &&& post.inv()
    &&& resolve_frame(pre, post)
    &&& match r {
        Result::Err(e) => match err_view(e) {
            ErrView::NotFound(kv2) => pre.reg(kv2) is None,
            ErrView::Cycle(s) => s.len() >= 1 && s.drop_last().contains(s.last()),
            ErrView::AlreadyConsumed(kv2) => post.is_consumed(kv2) && (pre.reg(kv2)
                matches Option::Some(w) && w.scope == Scope::SingleOwner),
            ErrView::WrongColor(kv2) => sync && (pre.reg(kv2) matches Option::Some(w) && w.color
                == Color::Async),
        },
        Result::Ok(_) => true,
    }
    &&& (st0.contains(kv) ==> (r matches Result::Err(e) && err_view(e) == ErrView::Cycle(
        st0.push(kv),
    ) && untouched(pre, post)))
    &&& (!st0.contains(kv) ==> match pre.reg(kv) {
        Option::None => (r matches Result::Err(e) && err_view(e) == ErrView::NotFound(kv)
            && untouched(pre, post)),
        Option::Some(pv) => {
            let cached_hit = pv.scope == Scope::Singleton && pre.cached(kv) is Some;
            let consumed_hit = pv.scope == Scope::SingleOwner && pre.is_consumed(kv);
            let wrong_color = pv.color == Color::Async && sync;
            &&& (cached_hit ==> (r matches Result::Ok(v) && Option::Some(inst_view(v))
                == pre.cached(kv) && untouched(pre, post)))
            &&& (!cached_hit && consumed_hit ==> (r matches Result::Err(e) && err_view(e)
                == ErrView::AlreadyConsumed(kv) && untouched(pre, post)))
            &&& (!cached_hit && !consumed_hit && wrong_color ==> (r matches Result::Err(e)
                && err_view(e) == ErrView::WrongColor(kv) && untouched(pre, post)))
            &&& (!cached_hit && !consumed_hit && !wrong_color ==> construction_post(
                pre,
                kv,
                pv,
                r,
                post,
            ))
            &&& (match r {
                Result::Ok(v) => pv.scope == Scope::Singleton ==> post.cached(kv)
                    == Option::Some(inst_view(v)),
                Result::Err(_) => true,
            })
        },
    })
}

/// Two states with the same cache store the same singletons.
proof fn lemma_cached_transfer(a: Context, b: Context)
    requires
        a.singletons@ == b.singletons@,
    ensures
        forall|kv: (u64, Option<Seq<char>>)| #[trigger] b.cached(kv) == a.cached(kv),
{
    assert forall|kv: (u64, Option<Seq<char>>)| #[trigger] b.cached(kv) == a.cached(kv) by {
        assert(cache_lookup(a.singletons@, kv) == cache_lookup(b.singletons@, kv));
    }
}

/// Two states with the same consumed list agree on consumed keys.
proof fn lemma_consumed_transfer(a: Context, b: Context)
    requires
        a.consumed@ == b.consumed@,
    ensures
        forall|kv: (u64, Option<Seq<char>>)| #[trigger] b.is_consumed(kv) == a.is_consumed(kv),
{
}

/// The invariant carries over to a state with the same registry and stack.
proof fn lemma_inv_transfer(a: Context, b: Context)
    requires
        a.inv(),
        b.registry@ == a.registry@,
        b.stack@ == a.stack@,
    ensures
        b.inv(),
{
    assert(b.stack_v() == a.stack_v());
    assert forall|i: int| 0 <= i < b.stack_v().len() implies (#[trigger] b.reg(
        b.stack_v()[i],
    )) is Some by {
        assert(a.reg(a.stack_v()[i]) is Some);
        assert(reg_lookup(a.registry@, a.stack_v()[i]) == reg_lookup(b.registry@, b.stack_v()[i]));
    }
}

impl Context {
    /// Resolves one key: pushes it on the resolution stack, applies scope
    /// policy, runs the constructor (resolving its dependencies first, in
    /// order), and pops the stack on every exit path.
    #[verifier::loop_isolation(false)]
    fn resolve_inner(&mut self, key: &Key, sync_path: bool) -> (r: Result<Instance, ResolveError>)
        requires
            old(self).inv(),
        ensures
            resolve_post(*old(self), key_view(*key), sync_path, r, *final(self)),
        decreases old(self).registry@.len() - old(self).stack@.len(),
    {
        let ghost kv = key_view(*key);
        if self.stack_contains(key) {
            let trace = self.stack_with(key);
            proof {
                let s = trace@.map_values(|k: Key| key_view(k));
                assert(s.drop_last() =~= self.stack_v());
                assert(s.last() == kv);
            }
            return Result::Err(ResolveError::Cycle(trace));
        }
        let fetched = self.fetch_provider(key);
        let (scope, color, ctor) = match fetched {
            Option::None => {
                return Result::Err(ResolveError::NotFound(key.clone()));
            },
            Option::Some(t) => t,
        };
        match scope {
            Scope::Singleton => {
                let hit = self.cache_get(key);
                if let Option::Some(inst) = hit {
                    return Result::Ok(inst);
                }
            },
            Scope::SingleOwner => {
                if self.consumed_contains(key) {
                    return Result::Err(ResolveError::AlreadyConsumed(key.clone()));
                }
            },
            Scope::Transient => {},
        }
        if sync_path && matches!(color, Color::Async) {
            return Result::Err(ResolveError::WrongColor(key.clone()));
        }

        self.stack.push(key.clone());
        proof {
            assert(self.stack_v() =~= old(self).stack_v().push(kv));
            assert(self.stack_v().drop_last() =~= old(self).stack_v());
            assert forall|i: int| 0 <= i < self.stack_v().len() implies (#[trigger] self.reg(
                self.stack_v()[i],
            )) is Some by {
                if i < self.stack_v().len() - 1 {
                    assert(old(self).stack_v()[i] == self.stack_v()[i]);
                    assert(old(self).reg(old(self).stack_v()[i]) is Some);
                }
            }
            assert(self.inv());
        }

        let ghost entry = *self;
        let built_inst: Instance = match ctor {
            Constructor::Standalone(inst0) => inst0,
            Constructor::Build { tag, deps } => {
                let mut parts: Vec<u64> = Vec::new();
                let mut di: usize = 0;
                while di < deps.len()
                    invariant
                        di <= deps.len(),
                        self.inv(),
                        self.registry@ == entry.registry@,
                        self.stack@ == entry.stack@,
                        entry.built@.is_prefix_of(self.built@),
                        forall|kv2: (u64, Option<Seq<char>>)|
                            entry.cached(kv2) is Some ==> #[trigger] self.cached(kv2)
                                == entry.cached(kv2),
                        forall|kv2: (u64, Option<Seq<char>>)|
                            entry.is_consumed(kv2) ==> #[trigger] self.is_consumed(kv2),
                        parts@.len() == di as int,
                        forall|j: int|
                            0 <= j < di as int ==> key_view(#[trigger] deps@[j]) != key_view(*key),
                        forall|j: int|
                            0 <= j < di as int ==> match entry.reg(key_view(#[trigger] deps@[j])) {
                                Option::Some(dpv) => dpv.scope == Scope::Singleton ==> match self
                                    .cached(key_view(deps@[j])) {
                                    Option::Some(div) => div.serial == parts@[j],
                                    Option::None => false,
                                },
                                Option::None => true,
                            },
                        di == 0 ==> untouched(entry, *self),
                    decreases deps.len() - di,
                {
                    let ghost pre_iter = *self;
                    proof {
                        lemma_stack_bounded(*self);
                    }
                    let dep_result = self.resolve_inner(&deps[di], sync_path);
                    proof {
                        assert(entry.stack_v()[entry.stack_v().len() - 1] == key_view(*key));
                        assert(entry.stack_v().contains(key_view(*key)));
                    }
                    match dep_result {
                        Result::Ok(d) => {
                            parts.push(d.serial);
                        },
                        Result::Err(e) => {
                            let ghost after_dep = *self;
                            self.stack.pop();
                            proof {
                                assert(self.stack@ =~= old(self).stack@);
                                lemma_inv_transfer(*old(self), *self);
                                lemma_cached_transfer(*old(self), entry);
                                lemma_cached_transfer(after_dep, *self);
                                lemma_consumed_transfer(*old(self), entry);
                                lemma_consumed_transfer(after_dep, *self);
                                assert forall|kv2: (u64, Option<Seq<char>>)|
                                    old(self).cached(kv2) is Some implies #[trigger] self.cached(
                                    kv2,
                                ) == old(self).cached(kv2) by {
                                    assert(pre_iter.cached(kv2) == entry.cached(kv2));
                                    assert(after_dep.cached(kv2) == pre_iter.cached(kv2));
                                }
                                assert forall|kv2: (u64, Option<Seq<char>>)|
                                    old(self).is_consumed(kv2) implies #[trigger] self.is_consumed(
                                    kv2,
                                ) by {
                                    assert(pre_iter.is_consumed(kv2));
                                    assert(after_dep.is_consumed(kv2));
                                }
                                assert(old(self).built@.is_prefix_of(self.built@)) by {
                                    assert(entry.built@.is_prefix_of(pre_iter.built@));
                                    assert(pre_iter.built@.is_prefix_of(after_dep.built@));
                                }
                            }
                            return Result::Err(e);
                        },
                    }
                    di = di + 1;
                }
                let ghost after_loop = *self;
                let serial_index = self.built.len();
                let serial = serial_index as u64;
                self.built.push(tag);
                proof {
                    assert(self.built@[serial as int] == tag);
                    lemma_cached_transfer(after_loop, *self);
                    lemma_consumed_transfer(after_loop, *self);
                    assert forall|kv2: (u64, Option<Seq<char>>)|
                        old(self).cached(kv2) is Some implies #[trigger] self.cached(kv2) == old(
                        self,
                    ).cached(kv2) by {
                        assert(entry.cached(kv2) == old(self).cached(kv2));
                        assert(after_loop.cached(kv2) == entry.cached(kv2));
                    }
                    assert forall|kv2: (u64, Option<Seq<char>>)|
                        old(self).is_consumed(kv2) implies #[trigger] self.is_consumed(kv2) by {
                        assert(entry.is_consumed(kv2) == old(self).is_consumed(kv2));
                        assert(after_loop.is_consumed(kv2));
                    }
                    assert forall|j: int| 0 <= j < deps@.len() implies match entry.reg(
                        key_view(#[trigger] deps@[j]),
                    ) {
                        Option::Some(dpv) => dpv.scope == Scope::Singleton ==> match self.cached(
                            key_view(deps@[j]),
                        ) {
                            Option::Some(div) => div.serial == parts@[j],
                            Option::None => false,
                        },
                        Option::None => true,
                    } by {
                        assert(self.cached(key_view(deps@[j])) == after_loop.cached(
                            key_view(deps@[j]),
                        ));
                    }
                    assert(old(self).built@.is_prefix_of(self.built@)) by {
                        assert(entry.built@.is_prefix_of(after_loop.built@));
                        assert(after_loop.built@.is_prefix_of(self.built@)) by {
                            assert(self.built@.drop_last() =~= after_loop.built@);
                            assert(after_loop.built@ =~= self.built@.take(
                                after_loop.built@.len() as int,
                            ));
                        }
                    }
                }
                Instance { serial, tag, parts, payload: Payload::Unit }
            },
        };
        let ghost after_ctor = *self;

        self.stack.pop();
        let ghost after_pop = *self;
        proof {
            assert(self.stack@ =~= old(self).stack@);
            lemma_cached_transfer(after_ctor, after_pop);
            lemma_consumed_transfer(after_ctor, after_pop);
            lemma_inv_transfer(*old(self), *self);
        }
        match scope {
            Scope::Singleton => {
                self.cache_put(key, &built_inst);
            },
            Scope::SingleOwner => {
                self.consume(key);
            },
            Scope::Transient => {},
        }
        proof {
            lemma_inv_transfer(*old(self), *self);
            assert forall|kv2: (u64, Option<Seq<char>>)|
                old(self).cached(kv2) is Some implies #[trigger] self.cached(kv2) == old(
                self,
            ).cached(kv2) by {
                assert(after_ctor.cached(kv2) == old(self).cached(kv2));
                assert(after_pop.cached(kv2) == after_ctor.cached(kv2));
            }
            assert forall|kv2: (u64, Option<Seq<char>>)|
                old(self).is_consumed(kv2) implies #[trigger] self.is_consumed(kv2) by {
                assert(after_ctor.is_consumed(kv2));
                assert(after_pop.is_consumed(kv2));
            }
        }
        Result::Ok(built_inst)
    }
}

/// The provider views of a context's registry, in registration order.
pub open spec fn reg_views(cx: Context) -> Seq<ProvView> {
    cx.registry@.map_values(|p: DynProvider| prov_view(p))
}

/// The provider a bind transform derives: the transform's key, the
/// source's scope and color, and a constructor that resolves the source
/// key and wraps the instance under the transform's tag.
pub open spec fn bind_derived(pv: ProvView, b: ((u64, Option<Seq<char>>), u64)) -> ProvView {
    ProvView {
        key: b.0,
        scope: pv.scope,
        color: pv.color,
        eager: false,
        ctor: CtorView::Build(b.1, seq![pv.key]),
        binds: Seq::empty(),
    }
}

/// Registering one provider registers it and one derived provider per
/// bind transform, in order.
pub open spec fn expand_views(pv: ProvView) -> Seq<ProvView> {
    seq![pv] + pv.binds.map_values(|b: ((u64, Option<Seq<char>>), u64)| bind_derived(pv, b))
}

/// The expansion of a provider list, front to back.
pub open spec fn expand_seq(pvs: Seq<ProvView>) -> Seq<ProvView>
    decreases pvs.len(),
{
    if pvs.len() == 0 {
        Seq::empty()
    } else {
        expand_views(pvs.first()) + expand_seq(pvs.drop_first())
    }
}

/// The expansion of a resolved-module list, front to back.
pub open spec fn expand_rms(rms: Seq<(u64, Seq<ProvView>)>) -> Seq<ProvView>
    decreases rms.len(),
{
    if rms.len() == 0 {
        Seq::empty()
    } else {
        expand_seq(rms.first().1) + expand_rms(rms.drop_first())
    }
}

/// Whether any provider in a list is marked for eager creation.
pub open spec fn has_eager(pvs: Seq<ProvView>) -> bool {
    exists|k: int| 0 <= k < pvs.len() && (#[trigger] pvs[k]).eager
}

/// The view of the provider that a seeded standalone instance registers:
/// a non-eager synchronous singleton handing out the pre-built value.
pub open spec fn standalone_view(kv: (u64, Option<Seq<char>>), payload: Payload) -> ProvView {
    ProvView {
        key: kv,
        scope: Scope::Singleton,
        color: Color::Sync,
        eager: false,
        ctor: CtorView::Standalone(
            InstView { serial: 0, tag: 0, parts: Seq::empty(), payload },
        ),
        binds: Seq::empty(),
    }
}

impl Context {
    /// Inserts a provider under its key; a later registration under the
    /// same key overrides an earlier one, silently and by design, so that
    /// later modules and test doubles win.
    fn register(&mut self, p: DynProvider)
        ensures
            reg_views(*final(self)) == reg_views(*old(self)).push(prov_view(p)),
            final(self).singletons@ == old(self).singletons@,
            final(self).consumed@ == old(self).consumed@,
            final(self).stack@ == old(self).stack@,
            final(self).built@ == old(self).built@,
    {
        self.registry.push(p);
        proof {
            assert(reg_views(*self) =~= reg_views(*old(self)).push(
                prov_view(self.registry@.last()),
            ));
        }
    }

    /// Registers a provider together with the derived providers of its
    /// bind transforms.
    #[verifier::loop_isolation(false)]
    fn register_with_binds(&mut self, p: DynProvider)
        ensures
            reg_views(*final(self)) == reg_views(*old(self)) + expand_views(prov_view(p)),
            final(self).singletons@ == old(self).singletons@,
            final(self).consumed@ == old(self).consumed@,
            final(self).stack@ == old(self).stack@,
            final(self).built@ == old(self).built@,
    {
        let ghost pv = prov_view(p);
        let scope = p.definition.scope;
        let color = p.definition.color;
        let src_key = p.definition.key.clone();
        let mut derived: Vec<DynProvider> = Vec::new();
        let mut i: usize = 0;
        while i < p.binds.len()
            invariant
                i <= p.binds.len(),
                derived@.len() == i as int,
                forall|j: int|
                    0 <= j < i as int ==> prov_view(#[trigger] derived@[j]) == bind_derived(
                        pv,
                        (key_view(p.binds@[j].key), p.binds@[j].tag),
                    ),
            decreases p.binds.len() - i,
        {
            let b = &p.binds[i];
            let mut deps: Vec<Key> = Vec::new();
            deps.push(src_key.clone());
            proof {
                assert(deps@.map_values(|k: Key| key_view(k)) =~= seq![pv.key]);
            }
            let ctor = Constructor::Build { tag: b.tag, deps };
            proof {
                assert(ctor_view(ctor) == CtorView::Build(p.binds@[i as int].tag, seq![pv.key]));
            }
            let d = DynProvider::define(b.key.clone(), scope, color, false, ctor, Vec::new());
            proof {
                assert(d.binds@.map_values(|b2: Bind| (key_view(b2.key), b2.tag)) =~= Seq::<
                    ((u64, Option<Seq<char>>), u64),
                >::empty());
                assert(prov_view(d) == bind_derived(
                    pv,
                    (key_view(p.binds@[i as int].key), p.binds@[i as int].tag),
                ));
            }
            derived.push(d);
            i = i + 1;
        }
        let ghost expected = reg_views(*old(self)) + expand_views(pv);
        proof {
            assert(derived@.map_values(|q: DynProvider| prov_view(q)) =~= pv.binds.map_values(
                |b: ((u64, Option<Seq<char>>), u64)| bind_derived(pv, b),
            ));
        }
        self.register(p);
        proof {
            assert(reg_views(*self) + derived@.map_values(|q: DynProvider| prov_view(q))
                =~= expected);
        }
        while derived.len() > 0
            invariant
                reg_views(*self) + derived@.map_values(|q: DynProvider| prov_view(q)) == expected,
                self.singletons@ == old(self).singletons@,
                self.consumed@ == old(self).consumed@,
                self.stack@ == old(self).stack@,
                self.built@ == old(self).built@,
            decreases derived@.len(),
        {
            let ghost before = derived@;
            let d = derived.remove(0);
            proof {
                assert(derived@ =~= before.drop_first());
            }
            self.register(d);
            proof {
                assert(reg_views(*self) + derived@.map_values(|q: DynProvider| prov_view(q))
                    =~= expected);
            }
        }
        proof {
            assert(derived@.map_values(|q: DynProvider| prov_view(q)) =~= Seq::<
                ProvView,
            >::empty());
            assert(reg_views(*self) =~= expected);
        }
    }

    /// Registers a provider list, binds expanded, in order.
    #[verifier::loop_isolation(false)]
    fn register_providers(&mut self, ps: Vec<DynProvider>)
        ensures
            reg_views(*final(self)) == reg_views(*old(self)) + expand_seq(
                ps@.map_values(|p: DynProvider| prov_view(p)),
            ),
            final(self).singletons@ == old(self).singletons@,
            final(self).consumed@ == old(self).consumed@,
            final(self).stack@ == old(self).stack@,
            final(self).built@ == old(self).built@,
    {
        let ghost whole = ps@.map_values(|p: DynProvider| prov_view(p));
        let mut ps = ps;
        while ps.len() > 0
            invariant
                reg_views(*self) + expand_seq(ps@.map_values(|p: DynProvider| prov_view(p)))
                    == reg_views(*old(self)) + expand_seq(whole),
                self.singletons@ == old(self).singletons@,
                self.consumed@ == old(self).consumed@,
                self.stack@ == old(self).stack@,
                self.built@ == old(self).built@,
            decreases ps@.len(),
        {
            let ghost before = ps@.map_values(|p: DynProvider| prov_view(p));
            let p = ps.remove(0);
            proof {
                assert(ps@.map_values(|q: DynProvider| prov_view(q)) =~= before.drop_first());
                assert(before.first() == prov_view(p));
            }
            self.register_with_binds(p);
        }
        proof {
            assert(ps@.map_values(|p: DynProvider| prov_view(p)) =~= Seq::<ProvView>::empty());
        }
    }

    /// Registers the providers of a resolved-module list, in composition
    /// order, so that later modules' same-key providers override earlier
    /// ones.
    #[verifier::loop_isolation(false)]
    fn register_modules(&mut self, rms: Vec<ResolveModule>)
        ensures
            reg_views(*final(self)) == reg_views(*old(self)) + expand_rms(
                rms@.map_values(|rm: ResolveModule| rm_view(rm)),
            ),
            final(self).singletons@ == old(self).singletons@,
            final(self).consumed@ == old(self).consumed@,
            final(self).stack@ == old(self).stack@,
            final(self).built@ == old(self).built@,
    {
        let ghost whole = rms@.map_values(|rm: ResolveModule| rm_view(rm));
        let mut rms = rms;
        while rms.len() > 0
            invariant
                reg_views(*self) + expand_rms(rms@.map_values(|rm: ResolveModule| rm_view(rm)))
                    == reg_views(*old(self)) + expand_rms(whole),
                self.singletons@ == old(self).singletons@,
                self.consumed@ == old(self).consumed@,
                self.stack@ == old(self).stack@,
                self.built@ == old(self).built@,
            decreases rms@.len(),
        {
            let ghost before = rms@.map_values(|rm: ResolveModule| rm_view(rm));
            let rm = rms.remove(0);
            proof {
                assert(rms@.map_values(|q: ResolveModule| rm_view(q)) =~= before.drop_first());
                assert(before.first() == rm_view(rm));
            }
            self.register_providers(rm.providers);
        }
        proof {
            assert(rms@.map_values(|rm: ResolveModule| rm_view(rm)) =~= Seq::<
                (u64, Seq<ProvView>),
            >::empty());
        }
    }

    /// Constructs every eager provider, in registration order, through
    /// the same resolution path (and the same cycle detection) as
    /// on-demand resolution; the first failure aborts.
    #[verifier::loop_isolation(false)]
    fn eager_sweep(&mut self) -> (r: Result<(), ResolveError>)
        requires
            old(self).wf(),
        ensures
            final(self).wf(),
            final(self).registry@ == old(self).registry@,
            r is Ok ==> forall|i: int|
                0 <= i < old(self).registry@.len() ==> ((#[trigger] prov_view(
                    old(self).registry@[i],
                )).eager && (old(self).reg(prov_view(old(self).registry@[i]).key)
                    matches Option::Some(w) && w.scope == Scope::Singleton) ==> final(self).cached(
                    prov_view(old(self).registry@[i]).key,
                ) is Some),
            (forall|i: int|
                0 <= i < old(self).registry@.len() ==> !(#[trigger] prov_view(
                    old(self).registry@[i],
                )).eager) ==> (r is Ok && untouched(*old(self), *final(self))),
    {
        let mut i: usize = 0;
        while i < self.registry.len()
            invariant
                i <= self.registry.len(),
                self.wf(),
                self.registry@ == old(self).registry@,
                forall|j: int|
                    0 <= j < i as int ==> ((#[trigger] prov_view(old(self).registry@[j])).eager
                        && (old(self).reg(prov_view(old(self).registry@[j]).key)
                        matches Option::Some(w) && w.scope == Scope::Singleton) ==> self.cached(
                        prov_view(old(self).registry@[j]).key,
                    ) is Some),
                (forall|j: int|
                    0 <= j < old(self).registry@.len() ==> !(#[trigger] prov_view(
                        old(self).registry@[j],
                    )).eager) ==> untouched(*old(self), *self),
            decreases self.registry.len() - i,
        {
            if self.registry[i].definition.eager_create {
                proof {
                    assert(prov_view(old(self).registry@[i as int]).eager);
                }
                let k = self.registry[i].definition.key.clone();
                let ghost pre = *self;
                let outcome = self.resolve_inner(&k, false);
                match outcome {
                    Result::Err(e) => {
                        return Result::Err(e);
                    },
                    Result::Ok(_) => {},
                }
                proof {
                    assert(self.stack@ == pre.stack@);
                    assert forall|j: int|
                        0 <= j < i as int + 1 implies ((#[trigger] prov_view(
                        old(self).registry@[j],
                    )).eager && (old(self).reg(prov_view(old(self).registry@[j]).key)
                        matches Option::Some(w) && w.scope == Scope::Singleton) ==> self.cached(
                        prov_view(old(self).registry@[j]).key,
                    ) is Some) by {
                        let kvj = prov_view(old(self).registry@[j]).key;
                        if j < i as int {
                            if pre.cached(kvj) is Some {
                                assert(self.cached(kvj) == pre.cached(kvj));
                            }
                        } else {
                            assert(kvj == key_view(k));
                            assert(pre.reg(kvj) == old(self).reg(kvj));
                        }
                    }
                }
            }
            i = i + 1;
        }
        Result::Ok(())
    }

    /// The checked synchronous resolution surface: resolves the key on
    /// the caller's thread of control; an async provider fails fast with
    /// the wrong-color error instead of blocking.
    pub fn try_resolve(&mut self, key: &Key) -> (r: Result<Instance, ResolveError>)
        requires
            old(self).wf(),
        ensures
            final(self).wf(),
            resolve_post(*old(self), key_view(*key), true, r, *final(self)),
    {
        self.resolve_inner(key, true)
    }

    /// The checked suspension-capable sibling of [`Context::try_resolve`]:
    /// the superset path, through which synchronous and async providers
    /// alike can be resolved. In this engine constructors complete on the
    /// calling thread, so no actual suspension occurs.
    pub fn try_resolve_async(&mut self, key: &Key) -> (r: Result<Instance, ResolveError>)
        requires
            old(self).wf(),
        ensures
            final(self).wf(),
            resolve_post(*old(self), key_view(*key), false, r, *final(self)),
    {
        self.resolve_inner(key, false)
    }

    /// The provider registered under a key, for introspection; the last
    /// registration under the key wins.
    pub fn get_provider(&self, key: &Key) -> (r: Option<&DynProvider>)
        ensures
            match r {
                Option::Some(p) => self.reg(key_view(*key)) == Option::Some(prov_view(*p)),
                Option::None => self.reg(key_view(*key)) is None,
            },
    {
        let mut i: usize = self.registry.len();
        proof {
            assert(self.registry@.take(i as int) =~= self.registry@);
        }
        while i > 0
            invariant
                i <= self.registry.len(),
                self.reg(key_view(*key)) == reg_lookup(
                    self.registry@.take(i as int),
                    key_view(*key),
                ),
            decreases i,
        {
            i = i - 1;
            proof {
                assert(self.registry@.take(i as int + 1).drop_last() =~= self.registry@.take(
                    i as int,
                ));
                assert(self.registry@.take(i as int + 1).last() == self.registry@[i as int]);
            }
            if self.registry[i].definition.key.same_key(key) {
                return Option::Some(&self.registry[i]);
            }
        }
        proof {
            assert(self.registry@.take(0) =~= Seq::<DynProvider>::empty());
        }
        Option::None
    }

    /// How many singleton instances are currently cached.
    pub fn singletons_len(&self) -> (n: usize)
        ensures
            n == self.singletons@.len(),
    {
        self.singletons.len()
    }

    /// The keys of the currently cached singleton instances, in the order
    /// they were realized.
    pub fn singleton_keys(&self) -> (ks: Vec<Key>)
        ensures
            ks@.map_values(|k: Key| key_view(k)) == self.singletons@.map_values(
                |e: (Key, Instance)| key_view(e.0),
            ),
    {
        let mut out: Vec<Key> = Vec::new();
        let mut i: usize = 0;
        while i < self.singletons.len()
            invariant
                i <= self.singletons.len(),
                out@.len() == i as int,
                forall|j: int|
                    0 <= j < i as int ==> key_view(#[trigger] out@[j]) == key_view(
                        self.singletons@[j].0,
                    ),
            decreases self.singletons.len() - i,
        {
            out.push(self.singletons[i].0.clone());
            i = i + 1;
        }
        proof {
            assert(out@.map_values(|k: Key| key_view(k)) =~= self.singletons@.map_values(
                |e: (Key, Instance)| key_view(e.0),
            ));
        }
        out
    }

    /// A copy of the cached singleton instance under a key, if one was
    /// realized.
    pub fn get_singleton(&self, key: &Key) -> (r: Option<Instance>)
        ensures
            match self.cached(key_view(*key)) {
                Option::None => r is None,
                Option::Some(iv) => r matches Option::Some(inst) && inst_view(inst) == iv,
            },
    {
        self.cache_get(key)
    }

    /// The log of constructor runs so far: one tag per run, in completion
    /// order. A pre-built standalone instance runs no constructor and
    /// leaves no entry here.
    pub fn build_log(&self) -> (l: &Vec<u64>)
        ensures
            l@ == self.log(),
    {
        &self.built
    }

    /// A fresh, empty context in its building state.
    fn empty() -> (cx: Context)
        ensures
            cx.registry@.len() == 0,
            cx.singletons@.len() == 0,
            cx.consumed@.len() == 0,
            cx.stack@.len() == 0,
            cx.built@.len() == 0,
            cx.wf(),
    {
        let cx = Context {
            registry: Vec::new(),
            singletons: Vec::new(),
            consumed: Vec::new(),
            stack: Vec::new(),
            built: Vec::new(),
        };
        proof {
            assert(cx.stack_v() =~= Seq::<(u64, Option<Seq<char>>)>::empty());
        }
        cx
    }

    /// The options surface for building a context.
    pub fn options() -> (o: ContextOptions)
        ensures
            o.entries@.len() == 0,
    {
        ContextOptions { entries: Vec::new() }
    }

    /// Builds a context from modules alone: flattens and deduplicates
    /// them, registers their providers in composition order, and runs the
    /// eager-creation sweep. Fails if an eager construction fails.
    pub fn create(modules: Vec<Module>) -> (r: Result<Context, ResolveError>)
        ensures
            match r {
                Result::Ok(cx) => {
                    &&& cx.wf()
                    &&& exists|outv: Seq<(u64, Seq<ProvView>)>|
                        #[trigger] flatten_post(defs_views(modules@), outv) && reg_views(cx)
                            == expand_rms(outv)
                },
                Result::Err(_) => true,
            },
    {
        ContextOptions { entries: Vec::new() }.create(modules)
    }
}

/// Options for building a context: a list of entries registered before
/// any module's providers, so a module-declared provider under the same
/// key overrides a seeded one.
pub struct ContextOptions {
    pub entries: Vec<DynProvider>,
}

impl ContextOptions {
    /// Seeds a pre-built standalone instance: it is registered as a
    /// non-eager synchronous singleton whose resolution hands out the
    /// value without running any constructor.
    pub fn instance(self, key: Key, payload: Payload) -> (o: ContextOptions)
        ensures
            o.entries@.map_values(|p: DynProvider| prov_view(p)) == self.entries@.map_values(
                |p: DynProvider| prov_view(p),
            ).push(standalone_view(key_view(key), payload)),
    {
        let ghost kv = key_view(key);
        let ghost pay = payload;
        let p = DynProvider::define(
            key,
            Scope::Singleton,
            Color::Sync,
            false,
            Constructor::Standalone(Instance::standalone(payload)),
            Vec::new(),
        );
        proof {
            assert(p.binds@.map_values(|b: Bind| (key_view(b.key), b.tag)) =~= Seq::<
                ((u64, Option<Seq<char>>), u64),
            >::empty());
            assert(prov_view(p) == standalone_view(kv, pay));
        }
        let mut entries = self.entries;
        entries.push(p);
        let o = ContextOptions { entries };
        proof {
            assert(o.entries@.map_values(|q: DynProvider| prov_view(q)) =~= self.entries@
                .map_values(|q: DynProvider| prov_view(q)).push(standalone_view(kv, pay)));
        }
        o
    }

    /// Adds a provider to be registered before any module's providers.
    pub fn provider(self, p: DynProvider) -> (o: ContextOptions)
        ensures
            o.entries@.map_values(|q: DynProvider| prov_view(q)) == self.entries@.map_values(
                |q: DynProvider| prov_view(q),
            ).push(prov_view(p)),
    {
        let ghost pv = prov_view(p);
        let mut entries = self.entries;
        entries.push(p);
        let o = ContextOptions { entries };
        proof {
            assert(o.entries@.map_values(|q: DynProvider| prov_view(q)) =~= self.entries@
                .map_values(|q: DynProvider| prov_view(q)).push(pv));
        }
        o
    }

    /// Builds the context: registers the seeded entries first, then the
    /// flattened modules' providers in composition order, then runs the
    /// eager-creation sweep; an eager failure aborts construction.
    pub fn create(self, modules: Vec<Module>) -> (r: Result<Context, ResolveError>)
        ensures
            match r {
                Result::Ok(cx) => {
                    &&& cx.wf()
                    &&& exists|outv: Seq<(u64, Seq<ProvView>)>|
                        #[trigger] flatten_post(defs_views(modules@), outv) && reg_views(cx)
                            == expand_seq(
                            self.entries@.map_values(|p: DynProvider| prov_view(p)),
                        ) + expand_rms(outv)
                    &&& forall|i: int|
                        0 <= i < cx.registry@.len() ==> ((#[trigger] prov_view(
                            cx.registry@[i],
                        )).eager && (cx.reg(prov_view(cx.registry@[i]).key)
                            matches Option::Some(w) && w.scope == Scope::Singleton) ==> cx.cached(
                            prov_view(cx.registry@[i]).key,
                        ) is Some)
                    &&& (forall|i: int|
                        0 <= i < cx.registry@.len() ==> !(#[trigger] prov_view(
                            cx.registry@[i],
                        )).eager) ==> (cx.singletons@.len() == 0 && cx.consumed@.len() == 0
                        && cx.built@.len() == 0)
                },
                Result::Err(_) => exists|outv: Seq<(u64, Seq<ProvView>)>|
                    #[trigger] flatten_post(defs_views(modules@), outv) && has_eager(
                        expand_seq(self.entries@.map_values(|p: DynProvider| prov_view(p)))
                            + expand_rms(outv),
                    ),
            },
    {
        let mut cx = Context::empty();
        proof {
            assert(reg_views(cx) =~= Seq::<ProvView>::empty());
        }
        cx.register_providers(self.entries);
        let rms = flatten(&modules);
        let ghost outv = rms@.map_values(|rm: ResolveModule| rm_view(rm));
        cx.register_modules(rms);
        proof {
            assert(cx.wf());
        }
        let swept = cx.eager_sweep();
        match swept {
            Result::Err(e) => {
                proof {
                    assert(exists|i: int|
                        0 <= i < cx.registry@.len() && (#[trigger] prov_view(
                            cx.registry@[i],
                        )).eager) by {
                        if forall|i: int|
                            0 <= i < cx.registry@.len() ==> !(#[trigger] prov_view(
                                cx.registry@[i],
                            )).eager {
                            assert(false);
                        }
                    }
                    let i = choose|i: int|
                        0 <= i < cx.registry@.len() && (#[trigger] prov_view(
                            cx.registry@[i],
                        )).eager;
                    let all = expand_seq(
                        self.entries@.map_values(|p: DynProvider| prov_view(p)),
                    ) + expand_rms(outv);
                    assert(all[i] == prov_view(cx.registry@[i]));
                    assert(has_eager(all));
                    assert(flatten_post(defs_views(modules@), outv));
                }
                Result::Err(e)
            },
            Result::Ok(()) => {
                proof {
                    assert(flatten_post(defs_views(modules@), outv) && reg_views(cx)
                        == expand_seq(self.entries@.map_values(|p: DynProvider| prov_view(p)))
                        + expand_rms(outv));
                }
                Result::Ok(cx)
            },
        }
    }
}

} // verus!
