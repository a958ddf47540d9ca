use vstd::prelude::*;

use crate::codec::{
    enc_envelope, fits_u32, lemma_envelope_assemble, lemma_peel_envelope, lemma_peel_u8,
    read_envelope, write_envelope, write_u8, PROTOCOL_MAJOR, PROTOCOL_MINOR,
};
use crate::engine;
use crate::errors::Error;
use crate::fields::{
    enc_fields, enc_payload, field_views, fields_fit, lemma_enc_fields_injective, parse_payload,
    write_field_bytes, FieldVal, ParsedField,
};
use crate::keys::{clone_bytes, PublicKey, SecretKey};

verus! {

/// The four ASCII bytes "MKit", as a little-endian word.
pub const BRAND_MESSAGE_KIT: u32 = 0x74694B4D;

/// Field name "caps": the capsule.
pub const NAME_CAPSULE: u32 = 0x73706163;

/// Field name "ciph": the symmetric ciphertext.
pub const NAME_CIPHERTEXT: u32 = 0x68706963;

/// An encrypted application payload: the capsule produced by the engine at
/// encryption time, and the symmetric ciphertext of the plaintext.
#[derive(Debug, PartialEq, Eq)]
pub struct MessageKit {
    capsule: Vec<u8>,
    ciphertext: Vec<u8>,
}

impl MessageKit {
    /// Both parts fit their length-prefixed encodings.
    #[verifier::type_invariant]
    pub open spec fn wf(self) -> bool {
        &&& fits_u32(self.spec_capsule().len() as int)
        &&& fits_u32(self.spec_ciphertext().len() as int)
    }

    pub closed spec fn spec_capsule(self) -> Seq<u8> {
        self.capsule@
    }

    pub closed spec fn spec_ciphertext(self) -> Seq<u8> {
        self.ciphertext@
    }

    /// The two named fields of the payload.
    pub open spec fn spec_fields(self) -> Seq<(u32, FieldVal)> {
        seq![
            (NAME_CAPSULE, FieldVal::Bytes(self.spec_capsule())),
            (NAME_CIPHERTEXT, FieldVal::Bytes(self.spec_ciphertext())),
        ]
    }

    pub open spec fn spec_payload(self) -> Seq<u8> {
        enc_payload(self.spec_fields())
    }

    /// The full wire form of the message kit.
    pub open spec fn spec_bytes(self) -> Seq<u8> {
        enc_envelope(BRAND_MESSAGE_KIT, PROTOCOL_MAJOR, PROTOCOL_MINOR, self.spec_payload())
    }

    /// Encrypts a plaintext under a policy key.  The engine generates a
    /// fresh capsule; whatever capsule came back, the secret counterpart of
    /// the policy key decrypts the ciphertext to the original plaintext.
    pub fn new(policy_encrypting_key: &PublicKey, plaintext: &[u8]) -> (r: MessageKit)
        requires
            plaintext@.len() <= 0x4000_0000,
        ensures
            forall|seed: Seq<u8>|
                seed.len() == 32 && engine::public_key_of(seed) == policy_encrypting_key@
                    ==> engine::umbral_decrypt_original(
                    seed,
                    r.spec_capsule(),
                    r.spec_ciphertext(),
                ) == Some(plaintext@),
    {
        proof {
            use_type_invariant(policy_encrypting_key);
        }
        let pk = policy_encrypting_key.to_compressed_bytes();
        match engine::encrypt_bytes(pk.as_slice(), plaintext) {
            Ok((capsule, ciphertext)) => MessageKit { capsule, ciphertext },
            Err(_) => {
                proof {
                    assert(false);
                }
                MessageKit { capsule: Vec::new(), ciphertext: Vec::new() }
            },
        }
    }

    /// The direct decryption path for the holder of the full secret key.
    /// Succeeds exactly when the engine opens the capsule and the ciphertext
    /// authenticates under the derived key.
    pub fn decrypt(&self, sk: &SecretKey) -> (r: Result<Vec<u8>, Error>)
        ensures
            r matches Ok(v) ==> engine::umbral_decrypt_original(
                sk@,
                self.spec_capsule(),
                self.spec_ciphertext(),
            ) == Some(v@),
            r is Err <==> engine::umbral_decrypt_original(
                sk@,
                self.spec_capsule(),
                self.spec_ciphertext(),
            ) is None,
            r is Err ==> r == Err::<Vec<u8>, Error>(Error::CryptoError),
    {
        let seed_bytes = crate::keys::secret_seed_bytes(sk);
        match engine::decrypt_original_bytes(
            seed_bytes.as_slice(),
            self.capsule.as_slice(),
            self.ciphertext.as_slice(),
        ) {
            Ok(v) => Ok(v),
            Err(_) => Err(Error::CryptoError),
        }
    }

    /// The re-encrypted decryption path: opens the capsule with capsule
    /// fragments produced by proxy nodes.  Fewer fragments than the
    /// policy's threshold are rejected as `InsufficientFragments` before
    /// the engine runs; with enough fragments the call succeeds exactly
    /// when the engine reconstructs a key that opens the ciphertext.
    pub fn decrypt_reencrypted(
        &self,
        sk: &SecretKey,
        policy_encrypting_key: &PublicKey,
        threshold: usize,
        cfrags: &Vec<Vec<u8>>,
    ) -> (r: Result<Vec<u8>, Error>)
        ensures
            cfrags@.len() < threshold ==> r == Err::<Vec<u8>, Error>(Error::InsufficientFragments),
            cfrags@.len() >= threshold ==> {
                &&& (r matches Ok(v) ==> engine::umbral_decrypt_reencrypted(
                    sk@,
                    policy_encrypting_key@,
                    self.spec_capsule(),
                    crate::codec::views_of(cfrags@),
                    self.spec_ciphertext(),
                ) == Some(v@))
                &&& (r is Err <==> engine::umbral_decrypt_reencrypted(
                    sk@,
                    policy_encrypting_key@,
                    self.spec_capsule(),
                    crate::codec::views_of(cfrags@),
                    self.spec_ciphertext(),
                ) is None)
                &&& (r is Err ==> r == Err::<Vec<u8>, Error>(Error::CryptoError))
            },
    {
        if cfrags.len() < threshold {
            return Err(Error::InsufficientFragments);
        }
        let seed_bytes = crate::keys::secret_seed_bytes(sk);
        let pk = policy_encrypting_key.to_compressed_bytes();
        match engine::decrypt_reencrypted_bytes(
            seed_bytes.as_slice(),
            pk.as_slice(),
            self.capsule.as_slice(),
            cfrags,
            self.ciphertext.as_slice(),
        ) {
            Ok(v) => Ok(v),
            Err(_) => Err(Error::CryptoError),
        }
    }

    /// The capsule this message kit was encrypted under, in serialized form.
    pub fn capsule(&self) -> (r: Vec<u8>)
        ensures
            r@ == self.spec_capsule(),
    {
        clone_bytes(&self.capsule)
    }

    /// The symmetric ciphertext.
    pub fn ciphertext(&self) -> (r: Vec<u8>)
        ensures
            r@ == self.spec_ciphertext(),
    {
        clone_bytes(&self.ciphertext)
    }

    /// An owned copy of the message kit.
    pub fn duplicate(&self) -> (r: MessageKit)
        ensures
            r.spec_capsule() == self.spec_capsule(),
            r.spec_ciphertext() == self.spec_ciphertext(),
    {
        proof {
            use_type_invariant(&*self);
        }
        MessageKit { capsule: clone_bytes(&self.capsule), ciphertext: clone_bytes(
            &self.ciphertext,
        ) }
    }

    /// Serializes the message kit; the result is exactly its wire form.
    pub fn to_bytes(&self) -> (r: Vec<u8>)
        ensures
            r@ == self.spec_bytes(),
    {
        proof {
            use_type_invariant(&*self);
        }
        let mut payload: Vec<u8> = Vec::new();
        write_u8(&mut payload, 2);
        write_field_bytes(&mut payload, NAME_CAPSULE, self.capsule.as_slice());
        write_field_bytes(&mut payload, NAME_CIPHERTEXT, self.ciphertext.as_slice());
        proof {
            crate::fields::lemma_enc_fields_unfold2(self.spec_fields());
            assert(payload@ =~= self.spec_payload());
        }
        write_envelope(BRAND_MESSAGE_KIT, &payload)
    }

    /// Parses a message kit from its wire form.  Exactly the encodings of
    /// well-formed kits are accepted; the error distinguishes a foreign or
    /// truncated header, an unsupported version, and a malformed payload.
    pub fn from_bytes(data: &[u8]) -> (r: Result<MessageKit, Error>)
        ensures
            r matches Ok(v) ==> data@ == v.spec_bytes(),
            forall|v: MessageKit| v.wf() && data@ == #[trigger] v.spec_bytes() ==> r is Ok,
            crate::codec::header_error(data@, BRAND_MESSAGE_KIT) matches Some(e) ==> r == Err::<
                MessageKit,
                Error,
            >(e),
            r matches Err(e) ==> (crate::codec::header_error(data@, BRAND_MESSAGE_KIT) == Some(e)
                || (crate::codec::header_error(data@, BRAND_MESSAGE_KIT) is None && e
                == Error::FieldError)),
    {
        let ghost hyp = exists|v: MessageKit| v.wf() && data@ == #[trigger] v.spec_bytes();
        let ghost w: MessageKit = if hyp {
            choose|v: MessageKit| v.wf() && data@ == #[trigger] v.spec_bytes()
        } else {
            arbitrary()
        };
        proof {
            if hyp {
                lemma_peel_envelope(
                    data@,
                    BRAND_MESSAGE_KIT,
                    PROTOCOL_MAJOR,
                    PROTOCOL_MINOR,
                    w.spec_payload(),
                );
                assert(fields_fit(w.spec_fields()));
            }
        }
        let pos0 = match read_envelope(data, BRAND_MESSAGE_KIT) {
            Ok(p) => p,
            Err(e) => {
                proof {
                    assert(!hyp);
                }
                return Err(e);
            },
        };
        let mut fs = match parse_payload(data, pos0) {
            Some(fs) => fs,
            None => {
                proof {
                    assert(!hyp);
                }
                return Err(Error::FieldError);
            },
        };
        let ghost fl = field_views(fs@);
        proof {
            if hyp {
                assert(fl == w.spec_fields());
            }
        }
        if fs.len() != 2 {
            proof {
                assert(!hyp);
            }
            return Err(Error::FieldError);
        }
        let f0 = fs.remove(0);
        let f1 = fs.remove(0);
        proof {
            assert(crate::fields::field_view(f0.1) == fl[0].1);
            assert(crate::fields::field_view(f1.1) == fl[1].1);
        }
        if f0.0 != NAME_CAPSULE || f1.0 != NAME_CIPHERTEXT {
            proof {
                assert(!hyp);
            }
            return Err(Error::FieldError);
        }
        let capsule = match f0.1 {
            ParsedField::Bytes(b) => b,
            _ => {
                proof {
                    assert(!hyp);
                }
                return Err(Error::FieldError);
            },
        };
        let ciphertext = match f1.1 {
            ParsedField::Bytes(b) => b,
            _ => {
                proof {
                    assert(!hyp);
                }
                return Err(Error::FieldError);
            },
        };
        let result = MessageKit { capsule, ciphertext };
        proof {
            assert(result.spec_fields() =~= fl);
            assert(crate::codec::u16_val(data@.subrange(6, 8)) == PROTOCOL_MINOR);
            lemma_envelope_assemble(data@, BRAND_MESSAGE_KIT);
            assert(data@ == result.spec_bytes());
        }
        Ok(result)
    }

    /// Two well-formed message kits with the same wire form agree on both
    /// parts: together with the contracts of `to_bytes` and `from_bytes`,
    /// decoding an encoded kit gives back what was encoded.
    pub proof fn lemma_bytes_injective(a: Self, b: Self)
        requires
            a.wf(),
            b.wf(),
            a.spec_bytes() == b.spec_bytes(),
        ensures
            a.spec_capsule() == b.spec_capsule(),
            a.spec_ciphertext() == b.spec_ciphertext(),
    {
        let s = a.spec_bytes();
        lemma_peel_envelope(s, BRAND_MESSAGE_KIT, PROTOCOL_MAJOR, PROTOCOL_MINOR, a.spec_payload());
        lemma_peel_envelope(s, BRAND_MESSAGE_KIT, PROTOCOL_MAJOR, PROTOCOL_MINOR, b.spec_payload());
        lemma_peel_u8(s, 8, 2, enc_fields(a.spec_fields()));
        lemma_peel_u8(s, 8, 2, enc_fields(b.spec_fields()));
        assert(fields_fit(a.spec_fields()));
        assert(fields_fit(b.spec_fields()));
        lemma_enc_fields_injective(a.spec_fields(), b.spec_fields());
        assert(a.spec_fields()[0] == b.spec_fields()[0]);
        assert(a.spec_fields()[1] == b.spec_fields()[1]);
    }
}

} // verus!
