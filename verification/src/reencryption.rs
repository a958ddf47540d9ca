use vstd::prelude::*;

use crate::codec::{
    enc_bytes_seq, enc_envelope, fits_u32, lemma_envelope_assemble, parse_items, read_envelope,
    views_of, write_blob, write_envelope, write_u8, PROTOCOL_MAJOR, PROTOCOL_MINOR,
};
use crate::engine;
use crate::errors::Error;
use crate::fields::{
    enc_payload, field_views, parse_payload, write_field_bytes, FieldVal, ParsedField,
};
use crate::hrac::HRAC;
use crate::key_frag::EncryptedKeyFrag;
use crate::keys::{clone_bytes, PublicKey, Signer};

verus! {

/// The four ASCII bytes "ReRq", as a little-endian word.
pub const BRAND_REENCRYPTION_REQUEST: u32 = 0x71526552;

/// The four ASCII bytes "ReRs", as a little-endian word.
pub const BRAND_REENCRYPTION_RESPONSE: u32 = 0x73526552;

/// Field name "caps": the capsule list.
pub const NAME_CAPSULES: u32 = 0x73706163;

/// Field name "hrac": the policy identifier.
pub const NAME_HRAC: u32 = 0x63617268;

/// Field name "ekfr": the sealed key fragment.
pub const NAME_EKFRAG: u32 = 0x72666b65;

/// Field name "pubk": the publisher's verifying key.
pub const NAME_PUBLISHER_KEY: u32 = 0x6b627570;

/// Field name "bobk": the delegate's verifying key.
pub const NAME_BOB_KEY: u32 = 0x6b626f62;

/// Field name "cfrg": the capsule fragment list.
pub const NAME_CFRAGS: u32 = 0x67726663;

/// Field name "sign": the node's signature.
pub const NAME_SIGNATURE: u32 = 0x6e676973;

/// A list of serialized capsules or fragments fits the wire: a bounded
/// count of bounded items.
pub open spec fn blob_items_wf(items: Seq<Seq<u8>>) -> bool {
    items.len() <= 0x1000 && forall|i: int|
        0 <= i < items.len() ==> (#[trigger] items[i]).len() <= 0xFFFF
}

/// The message a node signs over its response: the capsules it served,
/// then the fragments it produced, both in order.
pub open spec fn spec_response_message(capsules: Seq<Seq<u8>>, cfrags: Seq<Seq<u8>>) -> Seq<u8> {
    enc_bytes_seq(capsules) + enc_bytes_seq(cfrags)
}

/// A request to one proxy node: re-encrypt these capsules with the sealed
/// fragment, in the context of one policy.
#[derive(Debug, PartialEq, Eq)]
pub struct ReencryptionRequest {
    capsules: Vec<Vec<u8>>,
    hrac: HRAC,
    encrypted_kfrag: EncryptedKeyFrag,
    publisher_verifying_key: PublicKey,
    bob_verifying_key: PublicKey,
}

impl ReencryptionRequest {
    /// A request always carries at least one capsule, a 16-byte policy
    /// identifier, valid keys and a bounded fragment.
    #[verifier::type_invariant]
    pub open spec fn wf(self) -> bool {
        &&& self.spec_capsules().len() >= 1
        &&& blob_items_wf(self.spec_capsules())
        &&& self.spec_hrac().len() == 16
        &&& self.spec_encrypted_kfrag().spec_capsule().len()
            + self.spec_encrypted_kfrag().spec_ciphertext().len() <= 0xFF00
        &&& engine::is_public_key(self.spec_publisher_verifying_key())
        &&& self.spec_publisher_verifying_key().len() == 33
        &&& engine::is_public_key(self.spec_bob_verifying_key())
        &&& self.spec_bob_verifying_key().len() == 33
    }

    pub closed spec fn spec_capsules(self) -> Seq<Seq<u8>> {
        views_of(self.capsules@)
    }

    pub closed spec fn spec_hrac(self) -> Seq<u8> {
        self.hrac@
    }

    pub closed spec fn spec_encrypted_kfrag(self) -> EncryptedKeyFrag {
        self.encrypted_kfrag
    }

    pub closed spec fn spec_publisher_verifying_key(self) -> Seq<u8> {
        self.publisher_verifying_key@
    }

    pub closed spec fn spec_bob_verifying_key(self) -> Seq<u8> {
        self.bob_verifying_key@
    }

    /// The five named fields of the payload.
    pub open spec fn spec_fields(self) -> Seq<(u32, FieldVal)> {
        seq![
            (NAME_CAPSULES, FieldVal::Bytes(enc_bytes_seq(self.spec_capsules()))),
            (NAME_HRAC, FieldVal::Bytes(self.spec_hrac())),
            (NAME_EKFRAG, FieldVal::Bytes(self.spec_encrypted_kfrag().spec_bytes())),
            (NAME_PUBLISHER_KEY, FieldVal::Bytes(self.spec_publisher_verifying_key())),
            (NAME_BOB_KEY, FieldVal::Bytes(self.spec_bob_verifying_key())),
        ]
    }

    pub open spec fn spec_payload(self) -> Seq<u8> {
        enc_payload(self.spec_fields())
    }

    /// The full wire form of the request.
    pub open spec fn spec_bytes(self) -> Seq<u8> {
        enc_envelope(
            BRAND_REENCRYPTION_REQUEST,
            PROTOCOL_MAJOR,
            PROTOCOL_MINOR,
            self.spec_payload(),
        )
    }

    /// Creates a request for the given capsules and policy context.
    pub fn new(
        capsules: &Vec<Vec<u8>>,
        hrac: &HRAC,
        encrypted_kfrag: &EncryptedKeyFrag,
        publisher_verifying_key: &PublicKey,
        bob_verifying_key: &PublicKey,
    ) -> (r: ReencryptionRequest)
        requires
            capsules@.len() >= 1,
            capsules@.len() <= 0x1000,
            forall|i: int| 0 <= i < capsules@.len() ==> (#[trigger] capsules@[i])@.len() <= 0xFFFF,
            encrypted_kfrag.spec_capsule().len() + encrypted_kfrag.spec_ciphertext().len()
                <= 0xFF00,
        ensures
            r.spec_capsules() == views_of(capsules@),
            r.spec_hrac() == hrac@,
            r.spec_encrypted_kfrag().spec_capsule() == encrypted_kfrag.spec_capsule(),
            r.spec_encrypted_kfrag().spec_ciphertext() == encrypted_kfrag.spec_ciphertext(),
            r.spec_publisher_verifying_key() == publisher_verifying_key@,
            r.spec_bob_verifying_key() == bob_verifying_key@,
    {
        proof {
            use_type_invariant(hrac);
            use_type_invariant(publisher_verifying_key);
            use_type_invariant(bob_verifying_key);
        }
        let mut copied: Vec<Vec<u8>> = Vec::new();
        let mut k: usize = 0;
        while k < capsules.len()
            invariant
                k <= capsules@.len(),
                copied@.len() == k,
                forall|i: int| 0 <= i < k as int ==> (#[trigger] copied@[i])@ == capsules@[i]@,
            decreases capsules@.len() - k,
        {
            copied.push(clone_bytes(&capsules[k]));
            k = k + 1;
        }
        let r = ReencryptionRequest {
            capsules: copied,
            hrac: hrac.duplicate(),
            encrypted_kfrag: encrypted_kfrag.duplicate(),
            publisher_verifying_key: publisher_verifying_key.duplicate(),
            bob_verifying_key: bob_verifying_key.duplicate(),
        };
        proof {
            assert(views_of(r.capsules@) =~= views_of(capsules@));
        }
        r
    }

    /// The capsules to re-encrypt, in order.
    pub fn capsules(&self) -> (r: Vec<Vec<u8>>)
        ensures
            views_of(r@) == self.spec_capsules(),
    {
        let mut out: Vec<Vec<u8>> = Vec::new();
        let mut k: usize = 0;
        while k < self.capsules.len()
            invariant
                k <= self.capsules@.len(),
                out@.len() == k,
                forall|i: int| 0 <= i < k as int ==> (#[trigger] out@[i])@ == self.capsules@[i]@,
            decreases self.capsules@.len() - k,
        {
            out.push(clone_bytes(&self.capsules[k]));
            k = k + 1;
        }
        proof {
            assert(views_of(out@) =~= self.spec_capsules());
        }
        out
    }

    /// The policy identifier echoed for replay detection.
    pub fn hrac(&self) -> (r: HRAC)
        ensures
            r@ == self.spec_hrac(),
    {
        self.hrac.duplicate()
    }

    /// The sealed key fragment for the serving node.
    pub fn encrypted_kfrag(&self) -> (r: EncryptedKeyFrag)
        ensures
            r.spec_capsule() == self.spec_encrypted_kfrag().spec_capsule(),
            r.spec_ciphertext() == self.spec_encrypted_kfrag().spec_ciphertext(),
    {
        self.encrypted_kfrag.duplicate()
    }

    /// The publisher's verifying key.
    pub fn publisher_verifying_key(&self) -> (r: PublicKey)
        ensures
            r@ == self.spec_publisher_verifying_key(),
    {
        self.publisher_verifying_key.duplicate()
    }

    /// The delegate's verifying key.
    pub fn bob_verifying_key(&self) -> (r: PublicKey)
        ensures
            r@ == self.spec_bob_verifying_key(),
    {
        self.bob_verifying_key.duplicate()
    }

    /// Serializes the request; the result is exactly its wire form.
    pub fn to_bytes(&self) -> (r: Vec<u8>)
        ensures
            r@ == self.spec_bytes(),
    {
        proof {
            use_type_invariant(&*self);
            crate::codec::lemma_enc_bytes_seq_len_bound(self.spec_capsules(), 0xFFFF);
            assert forall|i: int|
                0 <= i < self.capsules@.len() implies fits_u32(
                (#[trigger] self.capsules@[i])@.len() as int,
            ) by {
                assert(self.spec_capsules()[i] == self.capsules@[i]@);
            }
        }
        let blob = write_blob(&self.capsules);
        let frag_bytes = self.encrypted_kfrag.to_bytes();
        proof {
            self.encrypted_kfrag.lemma_bytes_len();
        }
        let mut payload: Vec<u8> = Vec::new();
        write_u8(&mut payload, 5);
        write_field_bytes(&mut payload, NAME_CAPSULES, blob.as_slice());
        write_field_bytes(&mut payload, NAME_HRAC, self.hrac.to_bytes().as_slice());
        write_field_bytes(&mut payload, NAME_EKFRAG, frag_bytes.as_slice());
        write_field_bytes(
            &mut payload,
            NAME_PUBLISHER_KEY,
            self.publisher_verifying_key.to_compressed_bytes().as_slice(),
        );
        write_field_bytes(
            &mut payload,
            NAME_BOB_KEY,
            self.bob_verifying_key.to_compressed_bytes().as_slice(),
        );
        proof {
            crate::fields::lemma_enc_fields_unfold5(self.spec_fields());
            assert(payload@ =~= self.spec_payload());
        }
        write_envelope(BRAND_REENCRYPTION_REQUEST, &payload)
    }

    /// Parses a request from its wire form.  Whatever is accepted is the
    /// exact wire form of the returned request.
    pub fn from_bytes(data: &[u8]) -> (r: Result<ReencryptionRequest, Error>)
        ensures
            r matches Ok(v) ==> data@ == v.spec_bytes(),
            forall|v: ReencryptionRequest| v.wf() && data@ == #[trigger] v.spec_bytes() ==> r is Ok,
            crate::codec::header_error(data@, BRAND_REENCRYPTION_REQUEST) matches Some(e) ==> r
                == Err::<ReencryptionRequest, Error>(e),
            r matches Err(e) ==> (crate::codec::header_error(data@, BRAND_REENCRYPTION_REQUEST)
                == Some(e) || (crate::codec::header_error(data@, BRAND_REENCRYPTION_REQUEST)
                is None && e == Error::FieldError)),
    {
        let ghost hyp = exists|v: ReencryptionRequest|
            v.wf() && data@ == #[trigger] v.spec_bytes();
        let ghost w: ReencryptionRequest = if hyp {
            choose|v: ReencryptionRequest| v.wf() && data@ == #[trigger] v.spec_bytes()
        } else {
            arbitrary()
        };
        proof {
            if hyp {
                crate::codec::lemma_peel_envelope(
                    data@,
                    BRAND_REENCRYPTION_REQUEST,
                    PROTOCOL_MAJOR,
                    PROTOCOL_MINOR,
                    w.spec_payload(),
                );
                crate::codec::lemma_enc_bytes_seq_len_bound(w.spec_capsules(), 0xFFFF);
                w.spec_encrypted_kfrag().lemma_bytes_len();
                assert(crate::fields::fields_fit(w.spec_fields()));
            }
        }
        let pos0 = match read_envelope(data, BRAND_REENCRYPTION_REQUEST) {
            Ok(p) => p,
            Err(e) => {
                proof {
                    assert(!hyp);
                }
                return Err(e);
            },
        };
        let mut fs = match parse_payload(data, pos0) {
            Some(fs) => fs,
            None => {
                proof {
                    assert(!hyp);
                }
                return Err(Error::FieldError);
            },
        };
        let ghost fl = field_views(fs@);
        if fs.len() != 5 {
            proof {
                assert(!hyp);
            }
            return Err(Error::FieldError);
        }
        let f0 = fs.remove(0);
        let f1 = fs.remove(0);
        let f2 = fs.remove(0);
        let f3 = fs.remove(0);
        let f4 = fs.remove(0);
        proof {
            assert(crate::fields::field_view(f0.1) == fl[0].1);
            assert(crate::fields::field_view(f1.1) == fl[1].1);
            assert(crate::fields::field_view(f2.1) == fl[2].1);
            assert(crate::fields::field_view(f3.1) == fl[3].1);
            assert(crate::fields::field_view(f4.1) == fl[4].1);
        }
        if f0.0 != NAME_CAPSULES || f1.0 != NAME_HRAC || f2.0 != NAME_EKFRAG || f3.0
            != NAME_PUBLISHER_KEY || f4.0 != NAME_BOB_KEY {
            proof {
                assert(!hyp);
            }
            return Err(Error::FieldError);
        }
        let blob = match f0.1 {
            ParsedField::Bytes(b) => b,
            _ => {
                proof {
                    assert(!hyp);
                }
                return Err(Error::FieldError);
            },
        };
        proof {
            assert(blob@.subrange(0, blob@.len() as int) =~= blob@);
        }
        let capsules = match parse_items(blob.as_slice()) {
            Some(items) => items,
            None => {
                proof {
                    assert(!hyp);
                }
                return Err(Error::FieldError);
            },
        };
        if capsules.len() < 1 || capsules.len() > 0x1000 {
            proof {
                assert(!hyp);
            }
            return Err(Error::FieldError);
        }
        let mut k: usize = 0;
        while k < capsules.len()
            invariant
                crate::codec::header_error(data@, BRAND_REENCRYPTION_REQUEST) is None,
                k <= capsules@.len(),
                forall|i: int| 0 <= i < k as int ==> (#[trigger] capsules@[i])@.len() <= 0xFFFF,
                hyp == (exists|v: ReencryptionRequest|
                    v.wf() && data@ == #[trigger] v.spec_bytes()),
                hyp ==> w.wf() && views_of(capsules@) == w.spec_capsules(),
            decreases capsules@.len() - k,
        {
            if capsules[k].len() > 0xFFFF {
                proof {
                    if hyp {
                        assert(views_of(capsules@)[k as int] == capsules@[k as int]@);
                        assert(w.spec_capsules()[k as int].len() <= 0xFFFF);
                    }
                }
                proof {
                    assert(!hyp);
                }
                return Err(Error::FieldError);
            }
            k = k + 1;
        }
        let hrac_bytes = match f1.1 {
            ParsedField::Bytes(b) => b,
            _ => {
                proof {
                    assert(!hyp);
                }
                return Err(Error::FieldError);
            },
        };
        let hrac = match HRAC::from_bytes(hrac_bytes.as_slice()) {
            Ok(h) => h,
            Err(_) => {
                proof {
                    assert(!hyp);
                }
                return Err(Error::FieldError);
            },
        };
        let frag_bytes = match f2.1 {
            ParsedField::Bytes(b) => b,
            _ => {
                proof {
                    assert(!hyp);
                }
                return Err(Error::FieldError);
            },
        };
        if frag_bytes.len() > 0xFF1B {
            proof {
                assert(!hyp);
            }
            return Err(Error::FieldError);
        }
        let encrypted_kfrag = match EncryptedKeyFrag::from_bytes(frag_bytes.as_slice()) {
            Ok(f) => f,
            Err(_) => {
                proof {
                    assert(!hyp);
                }
                return Err(Error::FieldError);
            },
        };
        proof {
            encrypted_kfrag.lemma_bytes_len();
        }
        let pvk_bytes = match f3.1 {
            ParsedField::Bytes(b) => b,
            _ => {
                proof {
                    assert(!hyp);
                }
                return Err(Error::FieldError);
            },
        };
        let publisher_verifying_key = match PublicKey::from_compressed_bytes(pvk_bytes.as_slice()) {
            Ok(key) => key,
            Err(_) => {
                proof {
                    assert(!hyp);
                }
                return Err(Error::FieldError);
            },
        };
        let bob_bytes = match f4.1 {
            ParsedField::Bytes(b) => b,
            _ => {
                proof {
                    assert(!hyp);
                }
                return Err(Error::FieldError);
            },
        };
        let bob_verifying_key = match PublicKey::from_compressed_bytes(bob_bytes.as_slice()) {
            Ok(key) => key,
            Err(_) => {
                proof {
                    assert(!hyp);
                }
                return Err(Error::FieldError);
            },
        };
        proof {
            use_type_invariant(&publisher_verifying_key);
            use_type_invariant(&bob_verifying_key);
            use_type_invariant(&hrac);
        }
        let result = ReencryptionRequest {
            capsules,
            hrac,
            encrypted_kfrag,
            publisher_verifying_key,
            bob_verifying_key,
        };
        proof {
            assert(result.spec_fields() =~= fl);
            assert(crate::codec::u16_val(data@.subrange(6, 8)) == PROTOCOL_MINOR);
            lemma_envelope_assemble(data@, BRAND_REENCRYPTION_REQUEST);
            assert(data@ == result.spec_bytes());
        }
        Ok(result)
    }
}

/// A proxy node's signed batch of capsule fragments, aligned positionally
/// with the capsules of the request it answers.
#[derive(Debug, PartialEq, Eq)]
pub struct ReencryptionResponse {
    cfrags: Vec<Vec<u8>>,
    signature: Vec<u8>,
}

impl ReencryptionResponse {
    /// A bounded fragment list and a 64-byte signature.
    #[verifier::type_invariant]
    pub open spec fn wf(self) -> bool {
        &&& blob_items_wf(self.spec_cfrags())
        &&& self.spec_signature().len() == 64
    }

    pub closed spec fn spec_cfrags(self) -> Seq<Seq<u8>> {
        views_of(self.cfrags@)
    }

    pub closed spec fn spec_signature(self) -> Seq<u8> {
        self.signature@
    }

    /// The two named fields of the payload.
    pub open spec fn spec_fields(self) -> Seq<(u32, FieldVal)> {
        seq![
            (NAME_CFRAGS, FieldVal::Bytes(enc_bytes_seq(self.spec_cfrags()))),
            (NAME_SIGNATURE, FieldVal::Bytes(self.spec_signature())),
        ]
    }

    pub open spec fn spec_payload(self) -> Seq<u8> {
        enc_payload(self.spec_fields())
    }

    /// The full wire form of the response.
    pub open spec fn spec_bytes(self) -> Seq<u8> {
        enc_envelope(
            BRAND_REENCRYPTION_RESPONSE,
            PROTOCOL_MAJOR,
            PROTOCOL_MINOR,
            self.spec_payload(),
        )
    }

    /// Signs a batch of verified capsule fragments over the capsules they
    /// answer; the fragment count must equal the capsule count.
    pub fn new(
        signer: &Signer,
        capsules: &Vec<Vec<u8>>,
        verified_capsule_frags: &Vec<Vec<u8>>,
    ) -> (r: ReencryptionResponse)
        requires
            capsules@.len() == verified_capsule_frags@.len(),
            blob_items_wf(views_of(capsules@)),
            blob_items_wf(views_of(verified_capsule_frags@)),
        ensures
            r.spec_cfrags() == views_of(verified_capsule_frags@),
            engine::sig_valid(
                r.spec_signature(),
                signer.spec_verifying_key(),
                spec_response_message(views_of(capsules@), views_of(verified_capsule_frags@)),
            ),
    {
        proof {
            assert forall|i: int|
                0 <= i < capsules@.len() implies fits_u32(
                (#[trigger] capsules@[i])@.len() as int,
            ) by {
                assert(views_of(capsules@)[i] == capsules@[i]@);
            }
            assert forall|i: int|
                0 <= i < verified_capsule_frags@.len() implies fits_u32(
                (#[trigger] verified_capsule_frags@[i])@.len() as int,
            ) by {
                assert(views_of(verified_capsule_frags@)[i] == verified_capsule_frags@[i]@);
            }
        }
        let mut message = write_blob(capsules);
        let frag_blob = write_blob(verified_capsule_frags);
        crate::codec::push_all(&mut message, frag_blob.as_slice());
        let signature = signer.sign(message.as_slice());
        let mut copied: Vec<Vec<u8>> = Vec::new();
        let mut k: usize = 0;
        while k < verified_capsule_frags.len()
            invariant
                k <= verified_capsule_frags@.len(),
                copied@.len() == k,
                forall|i: int|
                    0 <= i < k as int ==> (#[trigger] copied@[i])@ == verified_capsule_frags@[i]@,
            decreases verified_capsule_frags@.len() - k,
        {
            copied.push(clone_bytes(&verified_capsule_frags[k]));
            k = k + 1;
        }
        proof {
            assert(views_of(copied@) =~= views_of(verified_capsule_frags@));
        }
        let r = ReencryptionResponse { cfrags: copied, signature };
        r
    }

    /// Verifies the batch: the node's signature over capsules and
    /// fragments, then every fragment against its positional capsule and
    /// the four keys.  The check is all or nothing: it succeeds and returns
    /// the fragments exactly when the counts match, the signature holds,
    /// and every single fragment verifies; otherwise the whole response is
    /// rejected with `CryptoError`.
    pub fn verify(
        &self,
        capsules: &Vec<Vec<u8>>,
        alice_verifying_key: &PublicKey,
        ursula_verifying_key: &PublicKey,
        policy_encrypting_key: &PublicKey,
        bob_encrypting_key: &PublicKey,
    ) -> (r: Result<Vec<Vec<u8>>, Error>)
        requires
            blob_items_wf(views_of(capsules@)),
        ensures
            r is Ok <==> {
                &&& capsules@.len() == self.spec_cfrags().len()
                &&& engine::sig_valid(
                    self.spec_signature(),
                    ursula_verifying_key@,
                    spec_response_message(views_of(capsules@), self.spec_cfrags()),
                )
                &&& forall|i: int|
                    0 <= i < self.spec_cfrags().len() ==> engine::cfrag_valid(
                        #[trigger] self.spec_cfrags()[i],
                        views_of(capsules@)[i],
                        alice_verifying_key@,
                        policy_encrypting_key@,
                        bob_encrypting_key@,
                    )
            },
            r matches Ok(v) ==> views_of(v@) == self.spec_cfrags(),
            r is Err ==> r == Err::<Vec<Vec<u8>>, Error>(Error::CryptoError),
    {
        proof {
            use_type_invariant(&*self);
        }
        if capsules.len() != self.cfrags.len() {
            return Err(Error::CryptoError);
        }
        proof {
            assert forall|i: int|
                0 <= i < capsules@.len() implies fits_u32(
                (#[trigger] capsules@[i])@.len() as int,
            ) by {
                assert(views_of(capsules@)[i] == capsules@[i]@);
            }
            assert forall|i: int|
                0 <= i < self.cfrags@.len() implies fits_u32(
                (#[trigger] self.cfrags@[i])@.len() as int,
            ) by {
                assert(self.spec_cfrags()[i] == self.cfrags@[i]@);
            }
        }
        let mut message = write_blob(capsules);
        let frag_blob = write_blob(&self.cfrags);
        crate::codec::push_all(&mut message, frag_blob.as_slice());
        proof {
            assert(message@ == spec_response_message(views_of(capsules@), self.spec_cfrags()));
        }
        let vk = ursula_verifying_key.to_compressed_bytes();
        let ok = engine::verify_signature_bytes(
            self.signature.as_slice(),
            vk.as_slice(),
            message.as_slice(),
        );
        if !ok {
            return Err(Error::CryptoError);
        }
        let alice = alice_verifying_key.to_compressed_bytes();
        let policy = policy_encrypting_key.to_compressed_bytes();
        let bob = bob_encrypting_key.to_compressed_bytes();
        let mut out: Vec<Vec<u8>> = Vec::new();
        let mut k: usize = 0;
        while k < self.cfrags.len()
            invariant
                k <= self.cfrags@.len(),
                capsules@.len() == self.cfrags@.len(),
                out@.len() == k,
                alice@ == alice_verifying_key@,
                policy@ == policy_encrypting_key@,
                bob@ == bob_encrypting_key@,
                forall|i: int| 0 <= i < k as int ==> (#[trigger] out@[i])@ == self.spec_cfrags()[i],
                forall|i: int|
                    0 <= i < k as int ==> engine::cfrag_valid(
                        #[trigger] self.spec_cfrags()[i],
                        views_of(capsules@)[i],
                        alice_verifying_key@,
                        policy_encrypting_key@,
                        bob_encrypting_key@,
                    ),
            decreases self.cfrags@.len() - k,
        {
            let valid = engine::verify_cfrag_bytes(
                self.cfrags[k].as_slice(),
                capsules[k].as_slice(),
                alice.as_slice(),
                policy.as_slice(),
                bob.as_slice(),
            );
            proof {
                assert(self.spec_cfrags()[k as int] == self.cfrags@[k as int]@);
                assert(views_of(capsules@)[k as int] == capsules@[k as int]@);
            }
            if !valid {
                return Err(Error::CryptoError);
            }
            out.push(clone_bytes(&self.cfrags[k]));
            k = k + 1;
        }
        proof {
            assert(views_of(out@) =~= self.spec_cfrags());
        }
        Ok(out)
    }

    /// Serializes the response; the result is exactly its wire form.
    pub fn to_bytes(&self) -> (r: Vec<u8>)
        ensures
            r@ == self.spec_bytes(),
    {
        proof {
            use_type_invariant(&*self);
            crate::codec::lemma_enc_bytes_seq_len_bound(self.spec_cfrags(), 0xFFFF);
            assert forall|i: int|
                0 <= i < self.cfrags@.len() implies fits_u32(
                (#[trigger] self.cfrags@[i])@.len() as int,
            ) by {
                assert(self.spec_cfrags()[i] == self.cfrags@[i]@);
            }
        }
        let blob = write_blob(&self.cfrags);
        let mut payload: Vec<u8> = Vec::new();
        write_u8(&mut payload, 2);
        write_field_bytes(&mut payload, NAME_CFRAGS, blob.as_slice());
        write_field_bytes(&mut payload, NAME_SIGNATURE, self.signature.as_slice());
        proof {
            crate::fields::lemma_enc_fields_unfold2(self.spec_fields());
            assert(payload@ =~= self.spec_payload());
        }
        write_envelope(BRAND_REENCRYPTION_RESPONSE, &payload)
    }

    /// Parses a response from its wire form.  Whatever is accepted is the
    /// exact wire form of the returned response.
    pub fn from_bytes(data: &[u8]) -> (r: Result<ReencryptionResponse, Error>)
        ensures
            r matches Ok(v) ==> data@ == v.spec_bytes(),
            forall|v: ReencryptionResponse| v.wf() && data@ == #[trigger] v.spec_bytes() ==> r is Ok,
            crate::codec::header_error(data@, BRAND_REENCRYPTION_RESPONSE) matches Some(e) ==> r
                == Err::<ReencryptionResponse, Error>(e),
            r matches Err(e) ==> (crate::codec::header_error(data@, BRAND_REENCRYPTION_RESPONSE)
                == Some(e) || (crate::codec::header_error(data@, BRAND_REENCRYPTION_RESPONSE)
                is None && e == Error::FieldError)),
    {
        let ghost hyp = exists|v: ReencryptionResponse| v.wf() && data@ == #[trigger] v.spec_bytes();
        let ghost w: ReencryptionResponse = if hyp {
            choose|v: ReencryptionResponse| v.wf() && data@ == #[trigger] v.spec_bytes()
        } else {
            arbitrary()
        };
        proof {
            if hyp {
                crate::codec::lemma_peel_envelope(
                    data@,
                    BRAND_REENCRYPTION_RESPONSE,
                    PROTOCOL_MAJOR,
                    PROTOCOL_MINOR,
                    w.spec_payload(),
                );
                crate::codec::lemma_enc_bytes_seq_len_bound(w.spec_cfrags(), 0xFFFF);
                assert(crate::fields::fields_fit(w.spec_fields()));
            }
        }
        let pos0 = match read_envelope(data, BRAND_REENCRYPTION_RESPONSE) {
            Ok(p) => p,
            Err(e) => {
                proof {
                    assert(!hyp);
                }
                return Err(e);
            },
        };
        let mut fs = match parse_payload(data, pos0) {
            Some(fs) => fs,
            None => {
                proof {
                    assert(!hyp);
                }
                return Err(Error::FieldError);
            },
        };
        let ghost fl = field_views(fs@);
        if fs.len() != 2 {
            proof {
                assert(!hyp);
            }
            return Err(Error::FieldError);
        }
        let f0 = fs.remove(0);
        let f1 = fs.remove(0);
        proof {
            assert(crate::fields::field_view(f0.1) == fl[0].1);
            assert(crate::fields::field_view(f1.1) == fl[1].1);
        }
        if f0.0 != NAME_CFRAGS || f1.0 != NAME_SIGNATURE {
            proof {
                assert(!hyp);
            }
            return Err(Error::FieldError);
        }
        let blob = match f0.1 {
            ParsedField::Bytes(b) => b,
            _ => {
                proof {
                    assert(!hyp);
                }
                return Err(Error::FieldError);
            },
        };
        proof {
            assert(blob@.subrange(0, blob@.len() as int) =~= blob@);
        }
        let cfrags = match parse_items(blob.as_slice()) {
            Some(items) => items,
            None => {
                proof {
                    assert(!hyp);
                }
                return Err(Error::FieldError);
            },
        };
        if cfrags.len() > 0x1000 {
            proof {
                assert(!hyp);
            }
            return Err(Error::FieldError);
        }
        let mut k: usize = 0;
        while k < cfrags.len()
            invariant
                crate::codec::header_error(data@, BRAND_REENCRYPTION_RESPONSE) is None,
                k <= cfrags@.len(),
                forall|i: int| 0 <= i < k as int ==> (#[trigger] cfrags@[i])@.len() <= 0xFFFF,
                hyp == (exists|v: ReencryptionResponse|
                    v.wf() && data@ == #[trigger] v.spec_bytes()),
                hyp ==> w.wf() && views_of(cfrags@) == w.spec_cfrags(),
            decreases cfrags@.len() - k,
        {
            if cfrags[k].len() > 0xFFFF {
                proof {
                    if hyp {
                        assert(views_of(cfrags@)[k as int] == cfrags@[k as int]@);
                        assert(w.spec_cfrags()[k as int].len() <= 0xFFFF);
                    }
                }
                proof {
                    assert(!hyp);
                }
                return Err(Error::FieldError);
            }
            k = k + 1;
        }
        let signature = match f1.1 {
            ParsedField::Bytes(b) => b,
            _ => {
                proof {
                    assert(!hyp);
                }
                return Err(Error::FieldError);
            },
        };
        if signature.len() != 64 {
            proof {
                assert(!hyp);
            }
            return Err(Error::FieldError);
        }
        let result = ReencryptionResponse { cfrags, signature };
        proof {
            assert(result.spec_fields() =~= fl);
            assert(crate::codec::u16_val(data@.subrange(6, 8)) == PROTOCOL_MINOR);
            lemma_envelope_assemble(data@, BRAND_REENCRYPTION_RESPONSE);
            assert(data@ == result.spec_bytes());
        }
        Ok(result)
    }
}

} // verus!
