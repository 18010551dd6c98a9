//! Keys: a type-identity token plus an optional human-readable name.

use vstd::prelude::*;

verus! {

/// Identifies one registration: a type-identity token together with an
/// optional discriminator name. Two keys address the same registration
/// exactly when both the token and the name agree.
#[derive(Debug)]
pub struct Key {
    pub type_id: u64,
    pub name: Option<String>,
}

/// The mathematical value of a key: the token and the name's characters.
/// All contracts compare keys through this view, so that two names with
/// the same characters address the same registration.
pub open spec fn key_view(k: Key) -> (u64, Option<Seq<char>>) {
    (
        k.type_id,
        match k.name {
            Option::Some(s) => Option::Some(s@),
            Option::None => Option::None,
        },
    )
}

impl Key {
    /// The unnamed key for a type token.
    pub fn new(type_id: u64) -> (k: Key)
        ensures
            key_view(k) == (type_id, Option::<Seq<char>>::None),
    {
        Key { type_id, name: Option::None }
    }

    /// A key carrying a discriminator name beside the type token.
    pub fn named(type_id: u64, name: String) -> (k: Key)
        ensures
            key_view(k) == (type_id, Option::Some(name@)),
    {
        Key { type_id, name: Option::Some(name) }
    }

    /// Whether two keys address the same registration.
    pub fn same_key(&self, other: &Key) -> (r: bool)
        ensures
            r == (key_view(*self) == key_view(*other)),
    {
        let ids_equal = self.type_id == other.type_id;
        let names_equal = match (&self.name, &other.name) {
            (Option::None, Option::None) => true,
            (Option::Some(a), Option::Some(b)) => a.eq(b),
            _ => false,
        };
        ids_equal && names_equal
    }
}

impl Clone for Key {
    fn clone(&self) -> (r: Self)
        ensures
            key_view(r) == key_view(*self),
    {
        Key {
            type_id: self.type_id,
            name: match &self.name {
                Option::Some(s) => Option::Some(s.clone()),
                Option::None => Option::None,
            },
        }
    }
}

} // verus!
