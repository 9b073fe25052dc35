//! Zero-knowledge proofs over Bulletproofs generators.

use vstd::prelude::*;

verus! {

/// Generators of the `bulletproofs` crate, carried opaque.
#[verifier::external_type_specification]
#[verifier::external_body]
pub struct ExBulletproofGens(bulletproofs::BulletproofGens);

/// Handler of zero-knowledge proofs; it holds the generators once they are
/// set up.
pub struct ZKP {
    gens: Option<bulletproofs::BulletproofGens>,
}

impl ZKP {
    /// Whether the generators are set up.
    pub closed spec fn has_generators(&self) -> bool {
        self.gens is Some
    }

    /// A handler with no generators set up yet.
    pub fn new() -> (z: Self)
        ensures
            !z.has_generators(),
    {
        ZKP { gens: None }
    }
}

} // verus!
