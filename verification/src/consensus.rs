//! Consensus over single headers.

use vstd::prelude::*;

verus! {

/// A consensus over headers of type `H`: it seals a header and checks a
/// sealed one.
pub trait Consensus<H>: Sized {
    /// Whether this consensus can be used for `header`.
    spec fn spec_is_applicable(&self, header: &H) -> bool;

    /// Whether sealing may turn the header `before` into the header `after`.
    spec fn seals(&self, before: H, after: H) -> bool;

    /// Whether `header` passes the check.
    spec fn spec_verify(&self, header: &H) -> bool;

    /// Makes the consensus that goes with `header`.
    fn create_for(header: &H) -> Self;

    /// Tells whether this consensus can be used for `header`.
    fn is_applicable(&self, header: &H) -> (r: bool)
        ensures
            r == self.spec_is_applicable(header),
    ;

    /// Seals `header`, which may change it.
    fn mine(&self, header: &mut H)
        ensures
            self.seals(*old(header), *final(header)),
    ;

    /// Checks `header`.
    fn verify(&self, header: &H) -> (r: bool)
        ensures
            r == self.spec_verify(header),
    ;
}

/// A consensus that applies to every header, leaves it as it is and passes
/// it.
pub struct FakeConsensus;

impl<H> Consensus<H> for FakeConsensus {
    open spec fn spec_is_applicable(&self, header: &H) -> bool {
        true
    }

    open spec fn seals(&self, before: H, after: H) -> bool {
        after == before
    }

    open spec fn spec_verify(&self, header: &H) -> bool {
        true
    }

    fn create_for(header: &H) -> Self {
        FakeConsensus
    }

    fn is_applicable(&self, header: &H) -> (r: bool) {
        true
    }

    fn mine(&self, header: &mut H) {
    }

    fn verify(&self, header: &H) -> (r: bool) {
        true
    }
}

} // verus!
