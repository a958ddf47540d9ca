use vstd::prelude::*;

use crate::address::Address;
use crate::codec::{
    enc_envelope, lemma_envelope_assemble, read_envelope, write_envelope, write_u8,
    PROTOCOL_MAJOR, PROTOCOL_MINOR,
};
use crate::engine;
use crate::errors::Error;
use crate::fields::{
    enc_payload, field_views, parse_payload, write_field_bytes, FieldVal, ParsedField,
};
use crate::key_frag::EncryptedKeyFrag;
use crate::keys::{PublicKey, Signer};

verus! {

/// The four ASCII bytes "Revo", as a little-endian word.
pub const BRAND_REVOCATION_ORDER: u32 = 0x6F766552;

/// Field name "addr": the node ordered to discard its fragment.
pub const NAME_ADDRESS: u32 = 0x72646461;

/// Field name "ekfr": the sealed key fragment being revoked.
pub const NAME_EKFRAG: u32 = 0x72666b65;

/// Field name "sign": the publisher's signature.
pub const NAME_SIGNATURE: u32 = 0x6e676973;

/// The message the publisher signs for a revocation: the node's address
/// followed by the sealed fragment's wire form.
pub open spec fn spec_revocation_message(addr: Seq<u8>, ekfrag: Seq<u8>) -> Seq<u8> {
    addr + ekfrag
}

/// A signed instruction to one node to discard a sealed key fragment.
/// The order performs no deletion itself; the node checks the signature
/// first.
#[derive(Debug, PartialEq, Eq)]
pub struct RevocationOrder {
    ursula_address: Address,
    encrypted_kfrag: EncryptedKeyFrag,
    signature: Vec<u8>,
}

impl RevocationOrder {
    /// A 20-byte address, a bounded fragment, a 64-byte signature.
    #[verifier::type_invariant]
    pub open spec fn wf(self) -> bool {
        &&& self.spec_ursula_address().len() == 20
        &&& self.spec_encrypted_kfrag().spec_capsule().len()
            + self.spec_encrypted_kfrag().spec_ciphertext().len() <= 0xFF00
        &&& self.spec_signature().len() == 64
    }

    pub closed spec fn spec_ursula_address(self) -> Seq<u8> {
        self.ursula_address@
    }

    pub closed spec fn spec_encrypted_kfrag(self) -> EncryptedKeyFrag {
        self.encrypted_kfrag
    }

    pub closed spec fn spec_signature(self) -> Seq<u8> {
        self.signature@
    }

    /// The three named fields of the payload.
    pub open spec fn spec_fields(self) -> Seq<(u32, FieldVal)> {
        seq![
            (NAME_ADDRESS, FieldVal::Bytes(self.spec_ursula_address())),
            (NAME_EKFRAG, FieldVal::Bytes(self.spec_encrypted_kfrag().spec_bytes())),
            (NAME_SIGNATURE, FieldVal::Bytes(self.spec_signature())),
        ]
    }

    pub open spec fn spec_payload(self) -> Seq<u8> {
        enc_payload(self.spec_fields())
    }

    /// The full wire form of the order.
    pub open spec fn spec_bytes(self) -> Seq<u8> {
        enc_envelope(BRAND_REVOCATION_ORDER, PROTOCOL_MAJOR, PROTOCOL_MINOR, self.spec_payload())
    }

    /// Signs a revocation for one node's sealed fragment.  Fails with
    /// `InvalidAddress` exactly when the address is not 20 bytes.
    pub fn new(signer: &Signer, ursula_address: &[u8], encrypted_kfrag: &EncryptedKeyFrag) -> (r:
        Result<RevocationOrder, Error>)
        requires
            encrypted_kfrag.spec_capsule().len() + encrypted_kfrag.spec_ciphertext().len()
                <= 0xFF00,
        ensures
            r is Ok <==> ursula_address@.len() == 20,
            r is Err ==> r == Err::<RevocationOrder, Error>(Error::InvalidAddress),
            r matches Ok(o) ==> {
                &&& o.spec_ursula_address() == ursula_address@
                &&& o.spec_encrypted_kfrag().spec_capsule() == encrypted_kfrag.spec_capsule()
                &&& o.spec_encrypted_kfrag().spec_ciphertext() == encrypted_kfrag.spec_ciphertext()
                &&& engine::sig_valid(
                    o.spec_signature(),
                    signer.spec_verifying_key(),
                    spec_revocation_message(
                        ursula_address@,
                        encrypted_kfrag.spec_bytes(),
                    ),
                )
            },
    {
        let address = match Address::from_slice(ursula_address) {
            Some(a) => a,
            None => {
                return Err(Error::InvalidAddress);
            },
        };
        let mut message = address.as_bytes();
        let frag_bytes = encrypted_kfrag.to_bytes();
        crate::codec::push_all(&mut message, frag_bytes.as_slice());
        let signature = signer.sign(message.as_slice());
        proof {
            assert(message@ == spec_revocation_message(
                ursula_address@,
                encrypted_kfrag.spec_bytes(),
            ));
        }
        Ok(
            RevocationOrder {
                ursula_address: address,
                encrypted_kfrag: encrypted_kfrag.duplicate(),
                signature,
            },
        )
    }

    /// Checks the publisher's signature over this order.  The result is
    /// advisory: the caller filters orders without aborting a batch.
    pub fn verify_signature(&self, alice_verifying_key: &PublicKey) -> (r: bool)
        ensures
            r == engine::sig_valid(
                self.spec_signature(),
                alice_verifying_key@,
                spec_revocation_message(
                    self.spec_ursula_address(),
                    self.spec_encrypted_kfrag().spec_bytes(),
                ),
            ),
    {
        let mut message = self.ursula_address.as_bytes();
        let frag_bytes = self.encrypted_kfrag.to_bytes();
        crate::codec::push_all(&mut message, frag_bytes.as_slice());
        let vk = alice_verifying_key.to_compressed_bytes();
        engine::verify_signature_bytes(self.signature.as_slice(), vk.as_slice(), message.as_slice())
    }

    /// Serializes the order; the result is exactly its wire form.
    pub fn to_bytes(&self) -> (r: Vec<u8>)
        ensures
            r@ == self.spec_bytes(),
    {
        proof {
            use_type_invariant(&*self);
            self.encrypted_kfrag.lemma_bytes_len();
        }
        let frag_bytes = self.encrypted_kfrag.to_bytes();
        let mut payload: Vec<u8> = Vec::new();
        write_u8(&mut payload, 3);
        write_field_bytes(&mut payload, NAME_ADDRESS, self.ursula_address.as_bytes().as_slice());
        write_field_bytes(&mut payload, NAME_EKFRAG, frag_bytes.as_slice());
        write_field_bytes(&mut payload, NAME_SIGNATURE, self.signature.as_slice());
        proof {
            crate::fields::lemma_enc_fields_unfold3(self.spec_fields());
            assert(payload@ =~= self.spec_payload());
        }
        write_envelope(BRAND_REVOCATION_ORDER, &payload)
    }

    /// Parses an order from its wire form.  Whatever is accepted is the
    /// exact wire form of the returned order.
    pub fn from_bytes(data: &[u8]) -> (r: Result<RevocationOrder, Error>)
        ensures
            r matches Ok(v) ==> data@ == v.spec_bytes(),
            forall|v: RevocationOrder| v.wf() && data@ == #[trigger] v.spec_bytes() ==> r is Ok,
            crate::codec::header_error(data@, BRAND_REVOCATION_ORDER) matches Some(e) ==> r
                == Err::<RevocationOrder, Error>(e),
            r matches Err(e) ==> (crate::codec::header_error(data@, BRAND_REVOCATION_ORDER)
                == Some(e) || (crate::codec::header_error(data@, BRAND_REVOCATION_ORDER) is None
                && e == Error::FieldError)),
    {
        let ghost hyp = exists|v: RevocationOrder| v.wf() && data@ == #[trigger] v.spec_bytes();
        let ghost w: RevocationOrder = if hyp {
            choose|v: RevocationOrder| v.wf() && data@ == #[trigger] v.spec_bytes()
        } else {
            arbitrary()
        };
        proof {
            if hyp {
                crate::codec::lemma_peel_envelope(
                    data@,
                    BRAND_REVOCATION_ORDER,
                    PROTOCOL_MAJOR,
                    PROTOCOL_MINOR,
                    w.spec_payload(),
                );
                w.spec_encrypted_kfrag().lemma_bytes_len();
                assert(crate::fields::fields_fit(w.spec_fields()));
            }
        }
        let pos0 = match read_envelope(data, BRAND_REVOCATION_ORDER) {
            Ok(p) => p,
            Err(e) => {
                proof {
                    assert(!hyp);
                }
                return Err(e);
            },
        };
        let mut fs = match parse_payload(data, pos0) {
            Some(fs) => fs,
            None => {
                proof {
                    assert(!hyp);
                }
                return Err(Error::FieldError);
            },
        };
        let ghost fl = field_views(fs@);
        if fs.len() != 3 {
            proof {
                assert(!hyp);
            }
            return Err(Error::FieldError);
        }
        let f0 = fs.remove(0);
        let f1 = fs.remove(0);
        let f2 = fs.remove(0);
        proof {
            assert(crate::fields::field_view(f0.1) == fl[0].1);
            assert(crate::fields::field_view(f1.1) == fl[1].1);
            assert(crate::fields::field_view(f2.1) == fl[2].1);
        }
        if f0.0 != NAME_ADDRESS || f1.0 != NAME_EKFRAG || f2.0 != NAME_SIGNATURE {
            proof {
                assert(!hyp);
            }
            return Err(Error::FieldError);
        }
        let addr_bytes = match f0.1 {
            ParsedField::Bytes(b) => b,
            _ => {
                proof {
                    assert(!hyp);
                }
                return Err(Error::FieldError);
            },
        };
        let ursula_address = match Address::from_slice(addr_bytes.as_slice()) {
            Some(a) => a,
            None => {
                proof {
                    assert(!hyp);
                }
                return Err(Error::FieldError);
            },
        };
        let frag_bytes = match f1.1 {
            ParsedField::Bytes(b) => b,
            _ => {
                proof {
                    assert(!hyp);
                }
                return Err(Error::FieldError);
            },
        };
        if frag_bytes.len() > 0xFF1B {
            proof {
                assert(!hyp);
            }
            return Err(Error::FieldError);
        }
        let encrypted_kfrag = match EncryptedKeyFrag::from_bytes(frag_bytes.as_slice()) {
            Ok(f) => f,
            Err(_) => {
                proof {
                    assert(!hyp);
                }
                return Err(Error::FieldError);
            },
        };
        proof {
            encrypted_kfrag.lemma_bytes_len();
        }
        let signature = match f2.1 {
            ParsedField::Bytes(b) => b,
            _ => {
                proof {
                    assert(!hyp);
                }
                return Err(Error::FieldError);
            },
        };
        if signature.len() != 64 {
            proof {
                assert(!hyp);
            }
            return Err(Error::FieldError);
        }
        proof {
            use_type_invariant(&ursula_address);
        }
        let result = RevocationOrder { ursula_address, encrypted_kfrag, signature };
        proof {
            assert(result.spec_fields() =~= fl);
            assert(crate::codec::u16_val(data@.subrange(6, 8)) == PROTOCOL_MINOR);
            lemma_envelope_assemble(data@, BRAND_REVOCATION_ORDER);
            assert(data@ == result.spec_bytes());
        }
        Ok(result)
    }
}

} // verus!
