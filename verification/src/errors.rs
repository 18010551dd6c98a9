//! The failures a resolution can surface. None is retried and no default
//! value is ever substituted; every error is returned to the caller of the
//! top-level resolve operation.

use vstd::prelude::*;

use crate::key::{key_view, Key};

verus! {

/// Why a resolution failed.
#[derive(Debug)]
pub enum ResolveError {
    /// No provider is registered under the requested key.
    NotFound(Key),
    /// The key was re-entered while already under construction; carries
    /// the ordered resolution stack, the re-entered key last.
    Cycle(Vec<Key>),
    /// A single-owner provider's instance was already taken.
    AlreadyConsumed(Key),
    /// An async provider was reached through the synchronous path.
    WrongColor(Key),
}

/// The mathematical value of a resolution error.
pub enum ErrView {
    NotFound((u64, Option<Seq<char>>)),
    Cycle(Seq<(u64, Option<Seq<char>>)>),
    AlreadyConsumed((u64, Option<Seq<char>>)),
    WrongColor((u64, Option<Seq<char>>)),
}

/// The view of a resolution error.
pub open spec fn err_view(e: ResolveError) -> ErrView {
    match e {
        ResolveError::NotFound(k) => ErrView::NotFound(key_view(k)),
        ResolveError::Cycle(s) => ErrView::Cycle(s@.map_values(|k: Key| key_view(k))),
        ResolveError::AlreadyConsumed(k) => ErrView::AlreadyConsumed(key_view(k)),
        ResolveError::WrongColor(k) => ErrView::WrongColor(key_view(k)),
    }
}

impl ResolveError {
    /// A short description of the failure, for callers that report it.
    pub fn describe(&self) -> (r: &'static str)
        ensures
            (*self matches ResolveError::NotFound(_)) ==> r@ =~= "no provider is registered under this key"@,
            (*self matches ResolveError::Cycle(_)) ==> r@ =~= "the key is already being constructed: dependency cycle"@,
            (*self matches ResolveError::AlreadyConsumed(_)) ==> r@ =~= "the single-owner instance was already taken"@,
            (*self matches ResolveError::WrongColor(_)) ==> r@ =~= "an async provider cannot be resolved synchronously"@,
    {
        match self {
            ResolveError::NotFound(_) => "no provider is registered under this key",
            ResolveError::Cycle(_) => "the key is already being constructed: dependency cycle",
            ResolveError::AlreadyConsumed(_) => "the single-owner instance was already taken",
            ResolveError::WrongColor(_) => "an async provider cannot be resolved synchronously",
        }
    }
}

} // verus!
