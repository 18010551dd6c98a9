//! Instances: the values the context builds and hands out.
//!
//! An instance carries a construction serial (its identity: every run of a
//! provider's constructor yields a fresh serial), the tag of the constructor
//! that produced it, the serials of the dependency instances it was built
//! from, and an optional plain payload for pre-built standalone values.

use vstd::prelude::*;

verus! {

/// A plain value carried by a pre-built standalone instance.
#[derive(Debug, PartialEq, Eq)]
pub enum Payload {
    Unit,
    Int(i64),
    Bool(bool),
    Text(String),
}

/// A built instance. `serial` is its identity: constructors stamp each run
/// with a fresh serial, while shared singletons keep the serial of the one
/// construction they came from.
#[derive(Debug)]
pub struct Instance {
    pub serial: u64,
    pub tag: u64,
    pub parts: Vec<u64>,
    pub payload: Payload,
}

/// The mathematical value of an instance.
pub struct InstView {
    pub serial: u64,
    pub tag: u64,
    pub parts: Seq<u64>,
    pub payload: Payload,
}

/// The view of an instance: its identity, constructor tag, dependency
/// serials and payload.
pub open spec fn inst_view(i: Instance) -> InstView {
    InstView { serial: i.serial, tag: i.tag, parts: i.parts@, payload: i.payload }
}

impl Instance {
    /// A pre-built standalone instance holding a plain value.
    pub fn standalone(payload: Payload) -> (r: Instance)
        ensures
            inst_view(r) == (InstView {
                serial: 0,
                tag: 0,
                parts: Seq::<u64>::empty(),
                payload,
            }),
    {
        let r = Instance { serial: 0, tag: 0, parts: Vec::new(), payload };
        proof {
            assert(r.parts@ =~= Seq::<u64>::empty());
        }
        r
    }
}

impl Clone for Payload {
    fn clone(&self) -> (r: Self)
        ensures
            r == *self,
    {
        match self {
            Payload::Unit => Payload::Unit,
            Payload::Int(v) => Payload::Int(*v),
            Payload::Bool(v) => Payload::Bool(*v),
            Payload::Text(s) => Payload::Text(s.clone()),
        }
    }
}

impl Clone for Instance {
    fn clone(&self) -> (r: Self)
        ensures
            inst_view(r) == inst_view(*self),
    {
        let parts = self.parts.clone();
        proof {
            assert(parts@ =~= self.parts@);
        }
        Instance {
            serial: self.serial,
            tag: self.tag,
            parts,
            payload: self.payload.clone(),
        }
    }
}

} // verus!
