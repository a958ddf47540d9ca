use vstd::prelude::*;

use crate::engine;
use crate::errors::Error;
use crate::keys::{clone_bytes, PublicKey};

verus! {

/// The policy identifier a publisher and a delegate derive independently:
/// the first 16 bytes of the digest of publisher key, delegate key and
/// label, in that order.
pub open spec fn spec_hrac(
    publisher_vk: Seq<u8>,
    bob_vk: Seq<u8>,
    label: Seq<u8>,
) -> Seq<u8> {
    engine::keccak_digest(publisher_vk + bob_vk + label).take(16)
}

/// Hashed Resource Access Code: a deterministic 16-byte policy identifier.
#[derive(Debug, PartialEq, Eq)]
pub struct HRAC {
    bytes: Vec<u8>,
}

impl View for HRAC {
    type V = Seq<u8>;

    closed spec fn view(&self) -> Seq<u8> {
        self.bytes@
    }
}

impl HRAC {
    /// An identifier is exactly 16 bytes.
    #[verifier::type_invariant]
    pub open spec fn wf(self) -> bool {
        self@.len() == 16
    }

    /// Derives the policy identifier for the given keys and label.
    pub fn new(publisher_verifying_key: &PublicKey, bob_verifying_key: &PublicKey, label: &[u8])
        -> (r: HRAC)
        ensures
            r@ == spec_hrac(publisher_verifying_key@, bob_verifying_key@, label@),
    {
        let mut input = publisher_verifying_key.to_compressed_bytes();
        let bob = bob_verifying_key.to_compressed_bytes();
        crate::codec::push_all(&mut input, bob.as_slice());
        crate::codec::push_all(&mut input, label);
        let mut digest = engine::digest32(input.as_slice());
        digest.truncate(16);
        proof {
            assert(input@ == publisher_verifying_key@ + bob_verifying_key@ + label@);
        }
        HRAC { bytes: digest }
    }

    /// Restores an identifier from its raw 16 bytes; any other length is a
    /// `FormatError`.
    pub fn from_bytes(data: &[u8]) -> (r: Result<HRAC, Error>)
        ensures
            r is Ok <==> data@.len() == 16,
            r matches Ok(h) ==> h@ == data@,
            r is Err ==> r == Err::<HRAC, Error>(Error::FormatError),
    {
        if data.len() == 16 {
            Ok(HRAC { bytes: vstd::slice::slice_to_vec(data) })
        } else {
            Err(Error::FormatError)
        }
    }

    /// The raw 16 bytes of the identifier.
    pub fn to_bytes(&self) -> (r: Vec<u8>)
        ensures
            r@ == self@,
    {
        clone_bytes(&self.bytes)
    }

    /// The identifier itself, as an owned value.
    pub fn inner(&self) -> (r: HRAC)
        ensures
            r@ == self@,
    {
        proof {
            use_type_invariant(&*self);
        }
        HRAC { bytes: clone_bytes(&self.bytes) }
    }

    /// An owned copy of the identifier.
    pub fn duplicate(&self) -> (r: HRAC)
        ensures
            r@ == self@,
    {
        self.inner()
    }
}

/// Two derivations from the same keys and label yield the same identifier:
/// the policy identifier is a pure function of its inputs.
pub proof fn lemma_hrac_deterministic(
    p1: Seq<u8>,
    b1: Seq<u8>,
    l1: Seq<u8>,
    p2: Seq<u8>,
    b2: Seq<u8>,
    l2: Seq<u8>,
)
    requires
        p1 == p2,
        b1 == b2,
        l1 == l2,
    ensures
        spec_hrac(p1, b1, l1) == spec_hrac(p2, b2, l2),
{
}

} // verus!
