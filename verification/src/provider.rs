//! Providers: immutable definitions of how one registration is built.

use vstd::prelude::*;

use crate::instance::{inst_view, InstView, Instance};
use crate::key::{key_view, Key};

verus! {

/// Lifetime and sharing policy for the instances a provider produces.
#[derive(Clone, Copy, Debug, PartialEq, Eq, Structural)]
pub enum Scope {
    /// One instance per key, built on first resolution (or eagerly) and
    /// shared by every later resolver of that key.
    Singleton,
    /// A fresh instance on every resolution; nothing is cached.
    Transient,
    /// Built at most once; ownership moves to the first resolver and a
    /// second resolution of the key fails.
    SingleOwner,
}

/// Whether the constructor completes on the caller's thread of control or
/// may suspend. An async constructor cannot be reached through the
/// synchronous resolution path.
#[derive(Clone, Copy, Debug, PartialEq, Eq, Structural)]
pub enum Color {
    Sync,
    Async,
}

/// How a provider produces an instance.
pub enum Constructor {
    /// A pre-built value, handed out without running any construction.
    Standalone(Instance),
    /// A constructor run: the keys in `deps` are resolved first, in order,
    /// and the new instance is stamped with a fresh serial, the tag, and
    /// the serials of the resolved dependencies.
    Build { tag: u64, deps: Vec<Key> },
}

/// A transform re-exposing a provider's instance under an additional key:
/// resolving `key` builds (or fetches, per the inherited scope) the source
/// instance and wraps it under the transform's tag.
pub struct Bind {
    pub key: Key,
    pub tag: u64,
}

/// The immutable description of a registration: its key, scope, color and
/// eager-creation flag.
pub struct Definition {
    pub key: Key,
    pub scope: Scope,
    pub color: Color,
    pub eager_create: bool,
}

/// A provider: a definition, a constructor, and the bind transforms that
/// re-expose the built instance under further keys.
pub struct DynProvider {
    pub definition: Definition,
    pub constructor: Constructor,
    pub binds: Vec<Bind>,
}

/// The mathematical value of a constructor.
pub enum CtorView {
    Standalone(InstView),
    Build(u64, Seq<(u64, Option<Seq<char>>)>),
}

/// The mathematical value of a provider.
pub struct ProvView {
    pub key: (u64, Option<Seq<char>>),
    pub scope: Scope,
    pub color: Color,
    pub eager: bool,
    pub ctor: CtorView,
    pub binds: Seq<((u64, Option<Seq<char>>), u64)>,
}

/// The view of a constructor: dependency keys become key views.
pub open spec fn ctor_view(c: Constructor) -> CtorView {
    match c {
        Constructor::Standalone(i) => CtorView::Standalone(inst_view(i)),
        Constructor::Build { tag, deps } => CtorView::Build(
            tag,
            deps@.map_values(|k: Key| key_view(k)),
        ),
    }
}

/// The view of a provider.
pub open spec fn prov_view(p: DynProvider) -> ProvView {
    ProvView {
        key: key_view(p.definition.key),
        scope: p.definition.scope,
        color: p.definition.color,
        eager: p.definition.eager_create,
        ctor: ctor_view(p.constructor),
        binds: p.binds@.map_values(|b: Bind| (key_view(b.key), b.tag)),
    }
}

impl DynProvider {
    /// Defines a provider from its parts.
    pub fn define(
        key: Key,
        scope: Scope,
        color: Color,
        eager_create: bool,
        constructor: Constructor,
        binds: Vec<Bind>,
    ) -> (p: DynProvider)
        ensures
            prov_view(p) == (ProvView {
                key: key_view(key),
                scope,
                color,
                eager: eager_create,
                ctor: ctor_view(constructor),
                binds: binds@.map_values(|b: Bind| (key_view(b.key), b.tag)),
            }),
    {
        DynProvider {
            definition: Definition { key, scope, color, eager_create },
            constructor,
            binds,
        }
    }

    /// The definition of this provider.
    pub fn definition(&self) -> (d: &Definition)
        ensures
            *d == self.definition,
    {
        &self.definition
    }

    /// Whether this provider is constructed when its context is built
    /// rather than on first demand.
    pub fn eager_create(&self) -> (r: bool)
        ensures
            r == self.definition.eager_create,
    {
        self.definition.eager_create
    }
}

impl Clone for Bind {
    fn clone(&self) -> (r: Self)
        ensures
            key_view(r.key) == key_view(self.key) && r.tag == self.tag,
    {
        Bind { key: self.key.clone(), tag: self.tag }
    }
}

impl Clone for Definition {
    fn clone(&self) -> (r: Self)
        ensures
            key_view(r.key) == key_view(self.key),
            r.scope == self.scope && r.color == self.color && r.eager_create == self.eager_create,
    {
        Definition {
            key: self.key.clone(),
            scope: self.scope,
            color: self.color,
            eager_create: self.eager_create,
        }
    }
}

impl Clone for DynProvider {
    fn clone(&self) -> (r: Self)
        ensures
            prov_view(r) == prov_view(*self),
    {
        let mut binds: Vec<Bind> = Vec::new();
        let mut i: usize = 0;
        while i < self.binds.len()
            invariant
                i <= self.binds.len(),
                binds@.len() == i as int,
                forall|j: int|
                    0 <= j < i as int ==> key_view(#[trigger] binds@[j].key) == key_view(
                        self.binds@[j].key,
                    ) && binds@[j].tag == self.binds@[j].tag,
            decreases self.binds.len() - i,
        {
            binds.push(self.binds[i].clone());
            i = i + 1;
        }
        proof {
            assert(binds@.map_values(|b: Bind| (key_view(b.key), b.tag)) =~= self.binds@.map_values(
                |b: Bind| (key_view(b.key), b.tag),
            ));
        }
        DynProvider {
            definition: self.definition.clone(),
            constructor: self.constructor.clone(),
            binds,
        }
    }
}

impl Clone for Constructor {
    fn clone(&self) -> (r: Self)
        ensures
            ctor_view(r) == ctor_view(*self),
    {
        match self {
            Constructor::Standalone(i) => Constructor::Standalone(i.clone()),
            Constructor::Build { tag, deps } => {
                let mut cloned_deps: Vec<Key> = Vec::new();
                let mut idx: usize = 0;
                while idx < deps.len()
                    invariant
                        idx <= deps.len(),
                        cloned_deps@.len() == idx as int,
                        forall|j: int| 0 <= j < idx as int ==> key_view(
                            #[trigger] cloned_deps@[j],
                        ) == key_view(deps@[j]),
                    decreases deps.len() - idx,
                {
                    cloned_deps.push(deps[idx].clone());
                    idx = idx + 1;
                }
                proof {
                    assert(cloned_deps@.map_values(|k: Key| key_view(k)) =~= deps@.map_values(
                        |k: Key| key_view(k),
                    ));
                }
                Constructor::Build { tag: *tag, deps: cloned_deps }
            },
        }
    }
}

} // verus!
