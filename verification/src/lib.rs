//! A dependency-injection runtime: providers describe how instances are
//! built, a context owns a registry of providers and resolves keys on
//! demand, enforcing scope policy (singleton, transient, single-owner),
//! detecting dependency cycles, and composing deduplicated module bundles.

pub mod context;
pub mod errors;
pub mod instance;
pub mod key;
pub mod laws;
pub mod module;
pub mod provider;

pub use context::{Context, ContextOptions};
pub use errors::ResolveError;
pub use instance::{Instance, Payload};
pub use key::Key;
pub use module::{Module, ResolveModule};
pub use provider::{Bind, Color, Constructor, DynProvider, Scope};
