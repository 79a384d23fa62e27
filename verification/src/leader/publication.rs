//! One sequence of publication generations for everything an owner publishes.

use vstd::prelude::*;

verus! {

/// The generations of an owner are used up.
#[derive(Clone, Copy, Debug, PartialEq, Eq, Structural)]
pub struct PublicationGenerationExhausted;

/// Hands out generations, each larger than every one before.
#[derive(Debug, PartialEq, Eq)]
pub struct BundlePublicationSequence {
    last: u64,
}

impl View for BundlePublicationSequence {
    type V = u64;

    closed spec fn view(&self) -> u64 {
        self.last
    }
}

impl BundlePublicationSequence {
    /// A sequence that goes on after the last generation that was handed out.
    pub fn starting_after(last: u64) -> (r: Self)
        ensures
            r@ == last,
    {
        BundlePublicationSequence { last }
    }

    /// The next generation. Once the last one is handed out there is none, ever.
    pub fn reserve(&mut self) -> (r: Result<u64, PublicationGenerationExhausted>)
        ensures
            match r {
                Ok(generation) => {
                    &&& old(self)@ < u64::MAX
                    &&& generation == old(self)@ + 1
                    &&& final(self)@ == generation
                },
                Err(_) => old(self)@ == u64::MAX && final(self)@ == old(self)@,
            },
    {
        if self.last == u64::MAX {
            return Err(PublicationGenerationExhausted);
        }
        self.last = self.last + 1;
        Ok(self.last)
    }
}

impl Default for BundlePublicationSequence {
    /// A sequence whose first generation is one.
    fn default() -> (r: Self)
        ensures
            r@ == 0,
    {
        BundlePublicationSequence { last: 0 }
    }
}

} // verus!
