//! Numbers that are never zero.

use vstd::prelude::*;

verus! {

/// A positive 64-bit number.
#[derive(Clone, Copy, Debug, PartialEq, Eq, PartialOrd, Ord, Hash, Structural)]
pub struct PositiveU64 {
    value: u64,
}

impl View for PositiveU64 {
    type V = nat;

    closed spec fn view(&self) -> nat {
        self.value as nat
    }
}

impl PositiveU64 {
    #[verifier::type_invariant]
    spec fn positive(self) -> bool {
        self.value > 0
    }

    pub fn new(value: u64) -> (r: Option<Self>)
        ensures
            r is Some <==> value > 0,
            r is Some ==> r->Some_0@ == value,
    {
        if value > 0 {
            Some(PositiveU64 { value })
        } else {
            None
        }
    }

    pub fn get(self) -> (r: u64)
        ensures
            r == self@,
            r > 0,
    {
        proof {
            use_type_invariant(&self);
        }
        self.value
    }
}

/// A positive count.
#[derive(Clone, Copy, Debug, PartialEq, Eq, PartialOrd, Ord, Hash, Structural)]
pub struct PositiveUsize {
    value: usize,
}

impl View for PositiveUsize {
    type V = nat;

    closed spec fn view(&self) -> nat {
        self.value as nat
    }
}

impl PositiveUsize {
    #[verifier::type_invariant]
    spec fn positive(self) -> bool {
        self.value > 0
    }

    pub fn new(value: usize) -> (r: Option<Self>)
        ensures
            r is Some <==> value > 0,
            r is Some ==> r->Some_0@ == value,
    {
        if value > 0 {
            Some(PositiveUsize { value })
        } else {
            None
        }
    }

    pub fn one() -> (r: Self)
        ensures
            r@ == 1,
    {
        PositiveUsize { value: 1 }
    }

    pub fn get(self) -> (r: usize)
        ensures
            r == self@,
            r > 0,
    {
        proof {
            use_type_invariant(&self);
        }
        self.value
    }
}

} // verus!
