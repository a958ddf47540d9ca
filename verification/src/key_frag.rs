use vstd::prelude::*;

use crate::codec::{
    enc_envelope, fits_u32, lemma_envelope_assemble, lemma_peel_envelope, lemma_peel_u8,
    read_envelope, write_envelope, write_u8, PROTOCOL_MAJOR, PROTOCOL_MINOR,
};
use crate::engine;
use crate::errors::Error;
use crate::fields::{
    enc_fields, enc_payload, field_views, fields_fit, lemma_enc_fields_injective, parse_payload,
    write_field_bytes, FieldVal, ParsedField,
};
use crate::hrac::HRAC;
use crate::keys::{clone_bytes, PublicKey, SecretKey, Signer};

verus! {

/// The four ASCII bytes "EKFr", as a little-endian word.
pub const BRAND_ENCRYPTED_KEY_FRAG: u32 = 0x72464B45;

/// Field name "caps": the capsule.
pub const NAME_CAPSULE: u32 = 0x73706163;

/// Field name "ciph": the symmetric ciphertext.
pub const NAME_CIPHERTEXT: u32 = 0x68706963;

/// Field name "sign": the publisher's signature.
pub const NAME_SIGNATURE: u32 = 0x6e676973;

/// Field name "kfrg": the key fragment.
pub const NAME_KFRAG: u32 = 0x6772666b;

/// The message the publisher signs for one delegated fragment: the policy
/// identifier followed by the fragment, which binds the fragment to that
/// one policy.
pub open spec fn spec_kfrag_message(hrac: Seq<u8>, kfrag: Seq<u8>) -> Seq<u8> {
    hrac + kfrag
}

/// The plaintext sealed for the recipient: the signature and the fragment,
/// as a two-field payload.
pub open spec fn spec_auth_kfrag(sig: Seq<u8>, kfrag: Seq<u8>) -> Seq<u8> {
    enc_payload(
        seq![(NAME_SIGNATURE, FieldVal::Bytes(sig)), (NAME_KFRAG, FieldVal::Bytes(kfrag))],
    )
}

/// Whether a recovered plaintext carries a key fragment `kf` authorized for
/// policy `hrac` by the holder of the verifying key `vk`.
pub open spec fn spec_authorized(pt: Seq<u8>, vk: Seq<u8>, hrac: Seq<u8>, kf: Seq<u8>) -> bool {
    exists|sig: Seq<u8>|
        pt == #[trigger] spec_auth_kfrag(sig, kf) && sig.len() == 64 && engine::sig_valid(
            sig,
            vk,
            spec_kfrag_message(hrac, kf),
        )
}

/// Whether `e` seals, for the holder of `recipient_pk`, the fragment
/// `kfrag` authorized for policy `hrac` by the holder of `signer_vk`.
pub open spec fn spec_ekfrag_for(
    e: EncryptedKeyFrag,
    signer_vk: Seq<u8>,
    hrac: Seq<u8>,
    recipient_pk: Seq<u8>,
    kfrag: Seq<u8>,
) -> bool {
    exists|sig: Seq<u8>|
        {
            &&& #[trigger] engine::sig_valid(sig, signer_vk, spec_kfrag_message(hrac, kfrag))
            &&& sig.len() == 64
            &&& forall|seed: Seq<u8>|
                seed.len() == 32 && engine::public_key_of(seed) == recipient_pk
                    ==> engine::umbral_decrypt_original(
                    seed,
                    e.spec_capsule(),
                    e.spec_ciphertext(),
                ) == Some(spec_auth_kfrag(sig, kfrag))
        }
}

/// One delegate's key fragment, sealed for its recipient and bound to a
/// policy identifier by the publisher's signature inside the ciphertext.
#[derive(Debug, PartialEq, Eq)]
pub struct EncryptedKeyFrag {
    capsule: Vec<u8>,
    ciphertext: Vec<u8>,
}

impl EncryptedKeyFrag {
    /// Both parts fit their length-prefixed encodings.
    #[verifier::type_invariant]
    pub open spec fn wf(self) -> bool {
        &&& fits_u32(self.spec_capsule().len() as int)
        &&& fits_u32(self.spec_ciphertext().len() as int)
    }

    pub closed spec fn spec_capsule(self) -> Seq<u8> {
        self.capsule@
    }

    pub closed spec fn spec_ciphertext(self) -> Seq<u8> {
        self.ciphertext@
    }

    /// The two named fields of the payload.
    pub open spec fn spec_fields(self) -> Seq<(u32, FieldVal)> {
        seq![
            (NAME_CAPSULE, FieldVal::Bytes(self.spec_capsule())),
            (NAME_CIPHERTEXT, FieldVal::Bytes(self.spec_ciphertext())),
        ]
    }

    pub open spec fn spec_payload(self) -> Seq<u8> {
        enc_payload(self.spec_fields())
    }

    /// The full wire form.
    pub open spec fn spec_bytes(self) -> Seq<u8> {
        enc_envelope(BRAND_ENCRYPTED_KEY_FRAG, PROTOCOL_MAJOR, PROTOCOL_MINOR, self.spec_payload())
    }

    /// Signs a verified key fragment over the policy identifier and seals
    /// both under the recipient's key.  Whatever capsule came back, the
    /// recipient's secret key recovers a signed fragment bound to `hrac`.
    pub fn new(
        signer: &Signer,
        recipient_key: &PublicKey,
        hrac: &HRAC,
        verified_kfrag: &[u8],
    ) -> (r: EncryptedKeyFrag)
        requires
            verified_kfrag@.len() <= 0x1000_0000,
        ensures
            spec_ekfrag_for(
                r,
                signer.spec_verifying_key(),
                hrac@,
                recipient_key@,
                verified_kfrag@,
            ),
            r.spec_capsule().len() <= 1024,
            r.spec_ciphertext().len() == 123 + verified_kfrag@.len(),
    {
        proof {
            use_type_invariant(recipient_key);
            use_type_invariant(hrac);
        }
        let mut message = hrac.to_bytes();
        crate::codec::push_all(&mut message, verified_kfrag);
        let sig = signer.sign(message.as_slice());
        let mut plaintext: Vec<u8> = Vec::new();
        write_u8(&mut plaintext, 2);
        write_field_bytes(&mut plaintext, NAME_SIGNATURE, sig.as_slice());
        write_field_bytes(&mut plaintext, NAME_KFRAG, verified_kfrag);
        proof {
            crate::fields::lemma_enc_fields_unfold2(
                seq![
                    (NAME_SIGNATURE, FieldVal::Bytes(sig@)),
                    (NAME_KFRAG, FieldVal::Bytes(verified_kfrag@)),
                ],
            );
            assert(plaintext@ =~= spec_auth_kfrag(sig@, verified_kfrag@));
            assert(message@ == spec_kfrag_message(hrac@, verified_kfrag@));
            assert(plaintext@.len() == 83 + verified_kfrag@.len());
        }
        let pk = recipient_key.to_compressed_bytes();
        match engine::encrypt_bytes(pk.as_slice(), plaintext.as_slice()) {
            Ok((capsule, ciphertext)) => {
                let r = EncryptedKeyFrag { capsule, ciphertext };
                proof {
                    assert(engine::sig_valid(
                        sig@,
                        signer.spec_verifying_key(),
                        spec_kfrag_message(hrac@, verified_kfrag@),
                    ));
                    assert(spec_ekfrag_for(
                        r,
                        signer.spec_verifying_key(),
                        hrac@,
                        recipient_key@,
                        verified_kfrag@,
                    ));
                }
                r
            },
            Err(_) => {
                proof {
                    assert(false);
                }
                EncryptedKeyFrag { capsule: Vec::new(), ciphertext: Vec::new() }
            },
        }
    }

    /// Opens the sealed fragment with the recipient's secret key and checks
    /// the double binding: success returns a fragment whose embedded
    /// signature verifies under the supplied publisher key over the
    /// supplied policy identifier — a ciphertext replayed under a different
    /// policy context is rejected with `CryptoError`.
    pub fn decrypt(
        &self,
        sk: &SecretKey,
        hrac: &HRAC,
        publisher_verifying_key: &PublicKey,
    ) -> (r: Result<Vec<u8>, Error>)
        ensures
            r matches Ok(kf) ==> (engine::umbral_decrypt_original(
                sk@,
                self.spec_capsule(),
                self.spec_ciphertext(),
            ) matches Some(pt) && spec_authorized(pt, publisher_verifying_key@, hrac@, kf@)),
            forall|sig: Seq<u8>, kf: Seq<u8>|
                {
                    &&& sig.len() == 64
                    &&& fits_u32(kf.len() as int)
                    &&& engine::umbral_decrypt_original(
                        sk@,
                        self.spec_capsule(),
                        self.spec_ciphertext(),
                    ) == Some(#[trigger] spec_auth_kfrag(sig, kf))
                    &&& engine::sig_valid(sig, publisher_verifying_key@, spec_kfrag_message(hrac@, kf))
                } ==> (r matches Ok(v) && v@ == kf),
            r is Err ==> r == Err::<Vec<u8>, Error>(Error::CryptoError),
    {
        let seed_bytes = crate::keys::secret_seed_bytes(sk);
        let pt = match engine::decrypt_original_bytes(
            seed_bytes.as_slice(),
            self.capsule.as_slice(),
            self.ciphertext.as_slice(),
        ) {
            Ok(v) => v,
            Err(_) => {
                return Err(Error::CryptoError);
            },
        };
        proof {
            assert(pt@.subrange(0, pt@.len() as int) =~= pt@);
        }
        let mut fs = match parse_payload(pt.as_slice(), 0) {
            Some(fs) => fs,
            None => {
                return Err(Error::CryptoError);
            },
        };
        let ghost fl = field_views(fs@);
        if fs.len() != 2 {
            return Err(Error::CryptoError);
        }
        let f0 = fs.remove(0);
        let f1 = fs.remove(0);
        proof {
            assert(crate::fields::field_view(f0.1) == fl[0].1);
            assert(crate::fields::field_view(f1.1) == fl[1].1);
        }
        if f0.0 != NAME_SIGNATURE || f1.0 != NAME_KFRAG {
            return Err(Error::CryptoError);
        }
        let sig = match f0.1 {
            ParsedField::Bytes(b) => b,
            _ => {
                return Err(Error::CryptoError);
            },
        };
        let kfrag = match f1.1 {
            ParsedField::Bytes(b) => b,
            _ => {
                return Err(Error::CryptoError);
            },
        };
        if sig.len() != 64 {
            return Err(Error::CryptoError);
        }
        proof {
            use_type_invariant(hrac);
        }
        let mut message = hrac.to_bytes();
        crate::codec::push_all(&mut message, kfrag.as_slice());
        let vk = publisher_verifying_key.to_compressed_bytes();
        let ok = engine::verify_signature_bytes(sig.as_slice(), vk.as_slice(), message.as_slice());
        if !ok {
            return Err(Error::CryptoError);
        }
        proof {
            assert(pt@ == spec_auth_kfrag(sig@, kfrag@)) by {
                assert(fl =~= seq![
                    (NAME_SIGNATURE, FieldVal::Bytes(sig@)),
                    (NAME_KFRAG, FieldVal::Bytes(kfrag@)),
                ]);
            }
            assert(message@ == spec_kfrag_message(hrac@, kfrag@));
            assert(engine::umbral_decrypt_original(
                sk@,
                self.spec_capsule(),
                self.spec_ciphertext(),
            ) == Some(spec_auth_kfrag(sig@, kfrag@)));
            assert(engine::sig_valid(
                sig@,
                publisher_verifying_key@,
                spec_kfrag_message(hrac@, kfrag@),
            ));
            assert(spec_authorized(pt@, publisher_verifying_key@, hrac@, kfrag@));
        }
        Ok(kfrag)
    }

    /// The fragment itself, as an owned value.
    pub fn inner(&self) -> (r: EncryptedKeyFrag)
        ensures
            r.spec_capsule() == self.spec_capsule(),
            r.spec_ciphertext() == self.spec_ciphertext(),
    {
        proof {
            use_type_invariant(&*self);
        }
        EncryptedKeyFrag { capsule: clone_bytes(&self.capsule), ciphertext: clone_bytes(
            &self.ciphertext,
        ) }
    }

    /// An owned copy of the fragment.
    pub fn duplicate(&self) -> (r: EncryptedKeyFrag)
        ensures
            r.spec_capsule() == self.spec_capsule(),
            r.spec_ciphertext() == self.spec_ciphertext(),
    {
        self.inner()
    }

    /// Serializes the fragment; the result is exactly its wire form.
    pub fn to_bytes(&self) -> (r: Vec<u8>)
        ensures
            r@ == self.spec_bytes(),
    {
        proof {
            use_type_invariant(&*self);
        }
        let mut payload: Vec<u8> = Vec::new();
        write_u8(&mut payload, 2);
        write_field_bytes(&mut payload, NAME_CAPSULE, self.capsule.as_slice());
        write_field_bytes(&mut payload, NAME_CIPHERTEXT, self.ciphertext.as_slice());
        proof {
            crate::fields::lemma_enc_fields_unfold2(self.spec_fields());
            assert(payload@ =~= self.spec_payload());
        }
        write_envelope(BRAND_ENCRYPTED_KEY_FRAG, &payload)
    }

    /// Parses a fragment from its wire form.  Exactly the encodings of
    /// well-formed fragments are accepted; the error distinguishes a
    /// foreign or truncated header, an unsupported version, and a malformed
    /// payload.
    pub fn from_bytes(data: &[u8]) -> (r: Result<EncryptedKeyFrag, Error>)
        ensures
            r matches Ok(v) ==> data@ == v.spec_bytes(),
            forall|v: EncryptedKeyFrag| v.wf() && data@ == #[trigger] v.spec_bytes() ==> r is Ok,
            crate::codec::header_error(data@, BRAND_ENCRYPTED_KEY_FRAG) matches Some(e) ==> r
                == Err::<EncryptedKeyFrag, Error>(e),
            r matches Err(e) ==> (crate::codec::header_error(data@, BRAND_ENCRYPTED_KEY_FRAG)
                == Some(e) || (crate::codec::header_error(data@, BRAND_ENCRYPTED_KEY_FRAG) is None
                && e == Error::FieldError)),
    {
        let ghost hyp = exists|v: EncryptedKeyFrag| v.wf() && data@ == #[trigger] v.spec_bytes();
        let ghost w: EncryptedKeyFrag = if hyp {
            choose|v: EncryptedKeyFrag| v.wf() && data@ == #[trigger] v.spec_bytes()
        } else {
            arbitrary()
        };
        proof {
            if hyp {
                lemma_peel_envelope(
                    data@,
                    BRAND_ENCRYPTED_KEY_FRAG,
                    PROTOCOL_MAJOR,
                    PROTOCOL_MINOR,
                    w.spec_payload(),
                );
                assert(fields_fit(w.spec_fields()));
            }
        }
        let pos0 = match read_envelope(data, BRAND_ENCRYPTED_KEY_FRAG) {
            Ok(p) => p,
            Err(e) => {
                proof {
                    assert(!hyp);
                }
                return Err(e);
            },
        };
        let mut fs = match parse_payload(data, pos0) {
            Some(fs) => fs,
            None => {
                proof {
                    assert(!hyp);
                }
                return Err(Error::FieldError);
            },
        };
        let ghost fl = field_views(fs@);
        proof {
            if hyp {
                assert(fl == w.spec_fields());
            }
        }
        if fs.len() != 2 {
            proof {
                assert(!hyp);
            }
            return Err(Error::FieldError);
        }
        let f0 = fs.remove(0);
        let f1 = fs.remove(0);
        proof {
            assert(crate::fields::field_view(f0.1) == fl[0].1);
            assert(crate::fields::field_view(f1.1) == fl[1].1);
        }
        if f0.0 != NAME_CAPSULE || f1.0 != NAME_CIPHERTEXT {
            proof {
                assert(!hyp);
            }
            return Err(Error::FieldError);
        }
        let capsule = match f0.1 {
            ParsedField::Bytes(b) => b,
            _ => {
                proof {
                    assert(!hyp);
                }
                return Err(Error::FieldError);
            },
        };
        let ciphertext = match f1.1 {
            ParsedField::Bytes(b) => b,
            _ => {
                proof {
                    assert(!hyp);
                }
                return Err(Error::FieldError);
            },
        };
        let result = EncryptedKeyFrag { capsule, ciphertext };
        proof {
            assert(result.spec_fields() =~= fl);
            assert(crate::codec::u16_val(data@.subrange(6, 8)) == PROTOCOL_MINOR);
            lemma_envelope_assemble(data@, BRAND_ENCRYPTED_KEY_FRAG);
            assert(data@ == result.spec_bytes());
        }
        Ok(result)
    }

    /// The exact size of the wire form, for compositional size bounds.
    pub proof fn lemma_bytes_len(self)
        ensures
            self.spec_bytes().len() == 27 + self.spec_capsule().len()
                + self.spec_ciphertext().len(),
    {
        crate::fields::lemma_enc_fields_unfold2(self.spec_fields());
    }

    /// Two well-formed fragments with the same wire form agree on both
    /// parts: together with the contracts of `to_bytes` and `from_bytes`,
    /// decoding an encoded fragment gives back what was encoded.
    #[verifier::rlimit(50)]
    pub proof fn lemma_bytes_injective(a: Self, b: Self)
        requires
            a.wf(),
            b.wf(),
            a.spec_bytes() == b.spec_bytes(),
        ensures
            a.spec_capsule() == b.spec_capsule(),
            a.spec_ciphertext() == b.spec_ciphertext(),
    {
        let s = a.spec_bytes();
        lemma_peel_envelope(
            s,
            BRAND_ENCRYPTED_KEY_FRAG,
            PROTOCOL_MAJOR,
            PROTOCOL_MINOR,
            a.spec_payload(),
        );
        lemma_peel_envelope(
            s,
            BRAND_ENCRYPTED_KEY_FRAG,
            PROTOCOL_MAJOR,
            PROTOCOL_MINOR,
            b.spec_payload(),
        );
        lemma_peel_u8(s, 8, 2, enc_fields(a.spec_fields()));
        lemma_peel_u8(s, 8, 2, enc_fields(b.spec_fields()));
        assert(fields_fit(a.spec_fields()));
        assert(fields_fit(b.spec_fields()));
        lemma_enc_fields_injective(a.spec_fields(), b.spec_fields());
        assert(a.spec_fields()[0] == b.spec_fields()[0]);
        assert(a.spec_fields()[1] == b.spec_fields()[1]);
    }
}

} // verus!
