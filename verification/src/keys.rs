use vstd::prelude::*;

use crate::engine;
use crate::errors::Error;

verus! {

/// Copies a byte vector, keeping its contents.
pub(crate) fn clone_bytes(v: &Vec<u8>) -> (r: Vec<u8>)
    ensures
        r@ == v@,
{
    let r = v.clone();
    proof {
        assert(r@ =~= v@);
    }
    r
}

/// A public key of the re-encryption engine, held in compressed serialized
/// form.  A value of this type always holds bytes that parse as a key.
#[derive(Debug, PartialEq, Eq)]
pub struct PublicKey {
    bytes: Vec<u8>,
}

impl View for PublicKey {
    type V = Seq<u8>;

    closed spec fn view(&self) -> Seq<u8> {
        self.bytes@
    }
}

impl PublicKey {
    /// A held key always parses as a compressed public key, in its 33-byte
    /// SEC1 compressed form.
    #[verifier::type_invariant]
    pub open spec fn wf(self) -> bool {
        engine::is_public_key(self@) && self@.len() == 33
    }

    /// Parses a compressed public key; fails with `CryptoError` exactly when
    /// the bytes are not the 33-byte compressed form of a valid key.  The
    /// length is checked here, executably: the engine's parser would also
    /// accept the uncompressed form, which this library does not carry.
    pub fn from_compressed_bytes(data: &[u8]) -> (r: Result<PublicKey, Error>)
        ensures
            r is Ok <==> (engine::is_public_key(data@) && data@.len() == 33),
            r matches Ok(k) ==> k@ == data@,
            r is Err ==> r == Err::<PublicKey, Error>(Error::CryptoError),
    {
        if data.len() == 33 && engine::check_public_key(data) {
            Ok(PublicKey { bytes: vstd::slice::slice_to_vec(data) })
        } else {
            Err(Error::CryptoError)
        }
    }

    /// The compressed serialized form of the key.
    pub fn to_compressed_bytes(&self) -> (r: Vec<u8>)
        ensures
            r@ == self@,
    {
        clone_bytes(&self.bytes)
    }

    /// An owned copy of the key.
    pub fn duplicate(&self) -> (r: PublicKey)
        ensures
            r@ == self@,
    {
        proof {
            use_type_invariant(&*self);
        }
        PublicKey { bytes: clone_bytes(&self.bytes) }
    }

}

/// A secret key, identified by the 32-byte seed it is derived from.
/// Key generation policy is outside this library: the caller brings the
/// secure randomness.
pub struct SecretKey {
    seed: Vec<u8>,
}

impl View for SecretKey {
    type V = Seq<u8>;

    closed spec fn view(&self) -> Seq<u8> {
        self.seed@
    }
}

impl SecretKey {
    /// A held seed is always exactly 32 bytes.
    #[verifier::type_invariant]
    pub open spec fn wf(self) -> bool {
        self@.len() == 32
    }

    /// Derives a secret key from a 32-byte seed; fails with `CryptoError`
    /// exactly when the length is wrong.
    pub fn from_seed(data: &[u8]) -> (r: Result<SecretKey, Error>)
        ensures
            r is Ok <==> data@.len() == 32,
            r matches Ok(k) ==> k@ == data@,
            r is Err ==> r == Err::<SecretKey, Error>(Error::CryptoError),
    {
        if data.len() == 32 {
            Ok(SecretKey { seed: vstd::slice::slice_to_vec(data) })
        } else {
            Err(Error::CryptoError)
        }
    }

    /// The public counterpart of this key.
    pub fn public_key(&self) -> (r: PublicKey)
        ensures
            r@ == engine::public_key_of(self@),
    {
        proof {
            use_type_invariant(&*self);
        }
        let bytes = engine::public_key_bytes_of(self.seed.as_slice());
        PublicKey { bytes }
    }

    /// An owned copy of the key.
    pub fn duplicate(&self) -> (r: SecretKey)
        ensures
            r@ == self@,
    {
        proof {
            use_type_invariant(&*self);
        }
        SecretKey { seed: clone_bytes(&self.seed) }
    }
}

/// The seed bytes of a secret key, for the engine boundary.
pub(crate) fn secret_seed_bytes(sk: &SecretKey) -> (r: Vec<u8>)
    ensures
        r@ == sk@,
        r@.len() == 32,
{
    proof {
        use_type_invariant(&*sk);
    }
    clone_bytes(&sk.seed)
}

/// An object that signs messages under a secret key.
pub struct Signer {
    key: SecretKey,
}

impl View for Signer {
    type V = Seq<u8>;

    closed spec fn view(&self) -> Seq<u8> {
        self.key@
    }
}

impl Signer {
    /// The verifying key of a signer, as a spec-level shorthand.
    pub open spec fn spec_verifying_key(&self) -> Seq<u8> {
        engine::public_key_of(self@)
    }

    pub fn new(key: SecretKey) -> (r: Signer)
        ensures
            r@ == key@,
    {
        Signer { key }
    }

    /// The public key that verifies this signer's signatures.
    pub fn verifying_key(&self) -> (r: PublicKey)
        ensures
            r@ == self.spec_verifying_key(),
    {
        self.key.public_key()
    }

    /// Signs a message; the result verifies under the verifying key.
    pub(crate) fn sign(&self, msg: &[u8]) -> (r: Vec<u8>)
        ensures
            r@.len() == 64,
            engine::sig_valid(r@, self.spec_verifying_key(), msg@),
    {
        proof {
            use_type_invariant(&self.key);
        }
        engine::sign_bytes(self.key.seed.as_slice(), msg)
    }
}

} // verus!
