use vstd::prelude::*;

use sha3::Digest;

verus! {

// ---------------------------------------------------------------------------
// Names for the results of the cryptographic engine.
//
// Every value that crosses this boundary is a plain byte string.  A secret
// key is identified by the 32-byte seed it is deterministically derived
// from, through `umbral_pre::SecretKeyFactory::from_secure_randomness`
// followed by `make_key` with an empty label.  The names below stand for
// what the engine computes on those strings; only the `external_body`
// wrappers in this module say anything about them.
// ---------------------------------------------------------------------------

/// The 32-byte Keccak-256 digest of a byte string.
pub uninterp spec fn keccak_digest(data: Seq<u8>) -> Seq<u8>;

/// Whether a byte string is a valid compressed public key, as
/// `umbral_pre::PublicKey::try_from_compressed_bytes` accepts it.
pub uninterp spec fn is_public_key(b: Seq<u8>) -> bool;

/// The compressed public key of the secret key derived from a 32-byte seed,
/// as `umbral_pre::SecretKey::public_key` computes it.
pub uninterp spec fn public_key_of(seed: Seq<u8>) -> Seq<u8>;

/// What `umbral_pre::decrypt_original` returns under the secret key derived
/// from `seed`: the plaintext when the capsule opens and the ciphertext
/// authenticates, `None` on any parse or authentication failure.
pub uninterp spec fn umbral_decrypt_original(seed: Seq<u8>, capsule: Seq<u8>, ct: Seq<u8>) -> Option<
    Seq<u8>,
>;

/// What `umbral_pre::decrypt_reencrypted` returns under the secret key
/// derived from `seed`, for a delegating public key, a capsule, a list of
/// serialized verified capsule fragments and a ciphertext.
pub uninterp spec fn umbral_decrypt_reencrypted(
    seed: Seq<u8>,
    delegating_pk: Seq<u8>,
    capsule: Seq<u8>,
    cfrags: Seq<Seq<u8>>,
    ct: Seq<u8>,
) -> Option<Seq<u8>>;

/// What `umbral_pre::Signature::verify` returns: whether `sig` parses as a
/// 64-byte ECDSA signature, `vk` as a compressed public key, and the
/// signature checks out over `msg`.
pub uninterp spec fn sig_valid(sig: Seq<u8>, vk: Seq<u8>, msg: Seq<u8>) -> bool;

/// What `umbral_pre::CapsuleFrag::verify` returns: whether `cfrag` parses
/// and is a valid re-encryption of `capsule` under the three keys.
pub uninterp spec fn cfrag_valid(
    cfrag: Seq<u8>,
    capsule: Seq<u8>,
    verifying_pk: Seq<u8>,
    delegating_pk: Seq<u8>,
    receiving_pk: Seq<u8>,
) -> bool;

// ---------------------------------------------------------------------------
// Trusted wrappers around the engine.
// ---------------------------------------------------------------------------

/// Relies on sha3::Keccak256: a fixed 32-byte digest of the input alone.
#[verifier::external_body]
pub(crate) fn digest32(data: &[u8]) -> (r: Vec<u8>)
    ensures
        r@ == keccak_digest(data@),
        r@.len() == 32,
{
    sha3::Keccak256::digest(data).to_vec()
}

/// Relies on umbral_pre::PublicKey::try_from_compressed_bytes: which byte
/// strings parse as a public key.  The parser also accepts the 65-byte
/// uncompressed SEC1 form, so a caller that wants the canonical 33-byte
/// compressed form must check the length itself.
#[verifier::external_body]
pub(crate) fn check_public_key(b: &[u8]) -> (r: bool)
    ensures
        r == is_public_key(b@),
{
    umbral_pre::PublicKey::try_from_compressed_bytes(b).is_ok()
}

/// Relies on umbral_pre::SecretKeyFactory (from_secure_randomness, make_key)
/// and PublicKey::to_compressed_bytes: the public counterpart of the secret
/// key derived from the seed, in compressed form, which parses back.
#[verifier::external_body]
pub(crate) fn public_key_bytes_of(seed: &[u8]) -> (r: Vec<u8>)
    requires
        seed@.len() == 32,
    ensures
        r@ == public_key_of(seed@),
        is_public_key(r@),
        r@.len() == 33,
{
    let factory = umbral_pre::SecretKeyFactory::from_secure_randomness(seed).unwrap();
    let key = factory.make_key(&[]);
    key.public_key().to_compressed_bytes().to_vec()
}

/// Relies on umbral_pre::Signer::sign and verifying_key: the produced ECDSA
/// signature is 64 bytes and verifies under the public counterpart of the
/// secret key the signer was built from.
#[verifier::external_body]
pub(crate) fn sign_bytes(seed: &[u8], msg: &[u8]) -> (r: Vec<u8>)
    requires
        seed@.len() == 32,
    ensures
        r@.len() == 64,
        sig_valid(r@, public_key_of(seed@), msg@),
{
    let factory = umbral_pre::SecretKeyFactory::from_secure_randomness(seed).unwrap();
    let signer = umbral_pre::Signer::new(factory.make_key(&[]));
    signer.sign(msg).to_be_bytes().to_vec()
}

/// Relies on umbral_pre::Signature::verify, with
/// Signature::try_from_be_bytes and PublicKey::try_from_compressed_bytes for
/// the parsing that `sig_valid` includes.
#[verifier::external_body]
pub(crate) fn verify_signature_bytes(sig: &[u8], vk: &[u8], msg: &[u8]) -> (r: bool)
    ensures
        r == sig_valid(sig@, vk@, msg@),
{
    let sig = match umbral_pre::Signature::try_from_be_bytes(sig) {
        Ok(s) => s,
        Err(_) => return false,
    };
    let vk = match umbral_pre::PublicKey::try_from_compressed_bytes(vk) {
        Ok(k) => k,
        Err(_) => return false,
    };
    sig.verify(&vk, msg)
}

/// Relies on umbral_pre::encrypt: a fresh capsule and an XChaCha20-Poly1305
/// ciphertext laid out as nonce(24) || body || tag(16), which
/// decrypt_original opens back to the plaintext under the matching secret
/// key.  The serialized capsule is a three-field MessagePack record of
/// fixed-size curve points, well under 1024 bytes.
#[verifier::external_body]
pub(crate) fn encrypt_bytes(pk: &[u8], pt: &[u8]) -> (r: Result<
    (Vec<u8>, Vec<u8>),
    crate::errors::Error,
>)
    requires
        pt@.len() <= 0x4000_0000,
    ensures
        r is Ok <==> is_public_key(pk@),
        r matches Ok((cap, ct)) ==> {
            &&& cap@.len() <= 1024
            &&& ct@.len() == pt@.len() + 40
            &&& forall|seed: Seq<u8>|
                seed.len() == 32 && public_key_of(seed) == pk@ ==> umbral_decrypt_original(
                    seed,
                    cap@,
                    ct@,
                ) == Some(pt@)
        },
{
    let key = match umbral_pre::PublicKey::try_from_compressed_bytes(pk) {
        Ok(k) => k,
        Err(_) => return Err(crate::errors::Error::CryptoError),
    };
    let (capsule, ct) = match umbral_pre::encrypt(&key, pt) {
        Ok(pair) => pair,
        Err(_) => return Err(crate::errors::Error::CryptoError),
    };
    let cap_bytes = match umbral_pre::DefaultSerialize::to_bytes(&capsule) {
        Ok(b) => b,
        Err(_) => return Err(crate::errors::Error::CryptoError),
    };
    Ok((cap_bytes.to_vec(), ct.to_vec()))
}

/// Relies on umbral_pre::decrypt_original, with Capsule's MessagePack
/// deserialization for the capsule bytes; any parse or authentication
/// failure is `None`.
#[verifier::external_body]
pub(crate) fn decrypt_original_bytes(seed: &[u8], capsule: &[u8], ct: &[u8]) -> (r: Result<
    Vec<u8>,
    crate::errors::Error,
>)
    requires
        seed@.len() == 32,
    ensures
        r matches Ok(v) ==> umbral_decrypt_original(seed@, capsule@, ct@) == Some(v@),
        r is Err ==> umbral_decrypt_original(seed@, capsule@, ct@) is None,
{
    let err = crate::errors::Error::CryptoError;
    let factory = umbral_pre::SecretKeyFactory::from_secure_randomness(seed).unwrap();
    let key = factory.make_key(&[]);
    let capsule: umbral_pre::Capsule =
        umbral_pre::DefaultDeserialize::from_bytes(capsule).map_err(|_| err)?;
    let pt = umbral_pre::decrypt_original(&key, &capsule, ct).map_err(|_| err)?;
    Ok(pt.to_vec())
}

/// Relies on umbral_pre::decrypt_reencrypted, with CapsuleFrag's MessagePack
/// deserialization and skip_verification for each fragment (the caller
/// re-verifies fragments before use); any failure is `None`.
#[verifier::external_body]
pub(crate) fn decrypt_reencrypted_bytes(
    seed: &[u8],
    delegating_pk: &[u8],
    capsule: &[u8],
    cfrags: &Vec<Vec<u8>>,
    ct: &[u8],
) -> (r: Result<Vec<u8>, crate::errors::Error>)
    requires
        seed@.len() == 32,
    ensures
        r matches Ok(v) ==> umbral_decrypt_reencrypted(
            seed@,
            delegating_pk@,
            capsule@,
            crate::codec::views_of(cfrags@),
            ct@,
        ) == Some(v@),
        r is Err ==> umbral_decrypt_reencrypted(
            seed@,
            delegating_pk@,
            capsule@,
            crate::codec::views_of(cfrags@),
            ct@,
        ) is None,
{
    let err = crate::errors::Error::CryptoError;
    let key = umbral_pre::SecretKeyFactory::from_secure_randomness(seed).unwrap().make_key(&[]);
    let dpk = umbral_pre::PublicKey::try_from_compressed_bytes(delegating_pk).map_err(|_| err)?;
    let capsule: umbral_pre::Capsule =
        umbral_pre::DefaultDeserialize::from_bytes(capsule).map_err(|_| err)?;
    let mut frags: Vec<umbral_pre::VerifiedCapsuleFrag> = Vec::new();
    for b in cfrags.iter() {
        let f: umbral_pre::CapsuleFrag =
            umbral_pre::DefaultDeserialize::from_bytes(b.as_slice()).map_err(|_| err)?;
        frags.push(f.skip_verification());
    }
    let pt = umbral_pre::decrypt_reencrypted(&key, &dpk, &capsule, frags, ct).map_err(|_| err)?;
    Ok(pt.to_vec())
}

/// Relies on umbral_pre::CapsuleFrag::verify, with the MessagePack
/// deserialization of the fragment and the capsule and the parsing of the
/// three keys included in what `cfrag_valid` names.
#[verifier::external_body]
pub(crate) fn verify_cfrag_bytes(
    cfrag: &[u8],
    capsule: &[u8],
    verifying_pk: &[u8],
    delegating_pk: &[u8],
    receiving_pk: &[u8],
) -> (r: bool)
    ensures
        r == cfrag_valid(cfrag@, capsule@, verifying_pk@, delegating_pk@, receiving_pk@),
{
    let frag: Option<umbral_pre::CapsuleFrag> =
        umbral_pre::DefaultDeserialize::from_bytes(cfrag).ok();
    let cap: Option<umbral_pre::Capsule> =
        umbral_pre::DefaultDeserialize::from_bytes(capsule).ok();
    let vpk = umbral_pre::PublicKey::try_from_compressed_bytes(verifying_pk).ok();
    let dpk = umbral_pre::PublicKey::try_from_compressed_bytes(delegating_pk).ok();
    let rpk = umbral_pre::PublicKey::try_from_compressed_bytes(receiving_pk).ok();
    match (frag, cap, vpk, dpk, rpk) {
        (Some(f), Some(c), Some(v), Some(d), Some(r)) => f.verify(&c, &v, &d, &r).is_ok(),
        _ => false,
    }
}

} // verus!
