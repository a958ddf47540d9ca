use vstd::prelude::*;

use crate::codec::{
    enc_envelope, fits_u32, lemma_envelope_assemble, lemma_peel_envelope, lemma_peel_u8,
    read_envelope, write_envelope, write_u8, PROTOCOL_MAJOR, PROTOCOL_MINOR,
};
use crate::errors::Error;
use crate::fields::{
    enc_fields, enc_payload, field_views, fields_fit, lemma_enc_fields_injective, parse_payload,
    write_field_bytes, write_field_opt_bytes, write_field_u16, write_field_u8, FieldVal,
    ParsedField,
};
use crate::keys::clone_bytes;

verus! {

/// The four ASCII bytes "ThRq", as a little-endian word.
pub const BRAND_THRESHOLD_DECRYPTION_REQUEST: u32 = 0x71526854;

/// The four ASCII bytes "ThRs", as a little-endian word.
pub const BRAND_THRESHOLD_DECRYPTION_RESPONSE: u32 = 0x73526854;

/// Field name "rtid": the ritual identifier.
pub const NAME_RITUAL_ID: u32 = 0x64697472;

/// Field name "ciph": the ciphertext.
pub const NAME_CIPHERTEXT: u32 = 0x68706963;

/// Field name "cond": the conditions blob.
pub const NAME_CONDITIONS: u32 = 0x646e6f63;

/// Field name "ctxt": the context blob.
pub const NAME_CONTEXT: u32 = 0x74787463;

/// Field name "vrnt": the variant tag.
pub const NAME_VARIANT: u32 = 0x746e7276;

/// Field name "shar": the decryption share.
pub const NAME_SHARE: u32 = 0x72616873;

/// A blob of bytes holding decryption conditions for a message.
#[derive(Debug, PartialEq, Eq)]
pub struct Conditions {
    bytes: Vec<u8>,
}

impl View for Conditions {
    type V = Seq<u8>;

    closed spec fn view(&self) -> Seq<u8> {
        self.bytes@
    }
}

impl Conditions {
    /// A conditions blob always fits a length-prefixed field.
    #[verifier::type_invariant]
    pub open spec fn wf(self) -> bool {
        fits_u32(self@.len() as int)
    }

    pub fn new(data: &[u8]) -> (r: Conditions)
        requires
            fits_u32(data@.len() as int),
        ensures
            r@ == data@,
    {
        Conditions { bytes: vstd::slice::slice_to_vec(data) }
    }

    pub fn as_bytes(&self) -> (r: Vec<u8>)
        ensures
            r@ == self@,
    {
        clone_bytes(&self.bytes)
    }

    pub fn duplicate(&self) -> (r: Conditions)
        ensures
            r@ == self@,
    {
        proof {
            use_type_invariant(&*self);
        }
        Conditions { bytes: clone_bytes(&self.bytes) }
    }
}

/// A blob of bytes holding the context a condition evaluation needs.
#[derive(Debug, PartialEq, Eq)]
pub struct Context {
    bytes: Vec<u8>,
}

impl View for Context {
    type V = Seq<u8>;

    closed spec fn view(&self) -> Seq<u8> {
        self.bytes@
    }
}

impl Context {
    /// A context blob always fits a length-prefixed field.
    #[verifier::type_invariant]
    pub open spec fn wf(self) -> bool {
        fits_u32(self@.len() as int)
    }

    pub fn new(data: &[u8]) -> (r: Context)
        requires
            fits_u32(data@.len() as int),
        ensures
            r@ == data@,
    {
        Context { bytes: vstd::slice::slice_to_vec(data) }
    }

    pub fn as_bytes(&self) -> (r: Vec<u8>)
        ensures
            r@ == self@,
    {
        clone_bytes(&self.bytes)
    }

    pub fn duplicate(&self) -> (r: Context)
        ensures
            r@ == self@,
    {
        proof {
            use_type_invariant(&*self);
        }
        Context { bytes: clone_bytes(&self.bytes) }
    }
}

/// The variant of the threshold-decryption ritual to use.
#[allow(non_camel_case_types)]
#[derive(Clone, Copy, PartialEq, Eq, Structural, Debug)]
pub enum FerveoVariant {
    SIMPLE,
    PRECOMPUTED,
}

/// The tag byte a variant is encoded as.
pub open spec fn spec_variant_code(v: FerveoVariant) -> u8 {
    match v {
        FerveoVariant::SIMPLE => 0,
        FerveoVariant::PRECOMPUTED => 1,
    }
}

fn variant_code(v: &FerveoVariant) -> (r: u8)
    ensures
        r == spec_variant_code(*v),
{
    match v {
        FerveoVariant::SIMPLE => 0,
        FerveoVariant::PRECOMPUTED => 1,
    }
}

/// A request for one node's decryption share over a ritual-bound ciphertext.
#[derive(Debug, PartialEq, Eq)]
pub struct ThresholdDecryptionRequest {
    ritual_id: u16,
    ciphertext: Vec<u8>,
    conditions: Option<Conditions>,
    context: Option<Context>,
    variant: FerveoVariant,
}

impl ThresholdDecryptionRequest {
    /// Every held field fits its length-prefixed encoding.
    #[verifier::type_invariant]
    pub open spec fn wf(self) -> bool {
        &&& fits_u32(self.spec_ciphertext().len() as int)
        &&& (self.spec_conditions() matches Some(c) ==> fits_u32(c.len() as int))
        &&& (self.spec_context() matches Some(c) ==> fits_u32(c.len() as int))
    }

    pub closed spec fn spec_ritual_id(self) -> u16 {
        self.ritual_id
    }

    pub closed spec fn spec_ciphertext(self) -> Seq<u8> {
        self.ciphertext@
    }

    pub closed spec fn spec_conditions(self) -> Option<Seq<u8>> {
        match self.conditions {
            Option::None => Option::None,
            Option::Some(c) => Option::Some(c@),
        }
    }

    pub closed spec fn spec_context(self) -> Option<Seq<u8>> {
        match self.context {
            Option::None => Option::None,
            Option::Some(c) => Option::Some(c@),
        }
    }

    pub closed spec fn spec_variant(self) -> FerveoVariant {
        self.variant
    }

    /// The five named fields of the payload.
    pub open spec fn spec_fields(self) -> Seq<(u32, FieldVal)> {
        seq![
            (NAME_RITUAL_ID, FieldVal::U16(self.spec_ritual_id())),
            (NAME_CIPHERTEXT, FieldVal::Bytes(self.spec_ciphertext())),
            (NAME_CONDITIONS, FieldVal::OptBytes(self.spec_conditions())),
            (NAME_CONTEXT, FieldVal::OptBytes(self.spec_context())),
            (NAME_VARIANT, FieldVal::U8(spec_variant_code(self.spec_variant()))),
        ]
    }

    pub open spec fn spec_payload(self) -> Seq<u8> {
        enc_payload(self.spec_fields())
    }

    /// The full wire form of the request.
    pub open spec fn spec_bytes(self) -> Seq<u8> {
        enc_envelope(
            BRAND_THRESHOLD_DECRYPTION_REQUEST,
            PROTOCOL_MAJOR,
            PROTOCOL_MINOR,
            self.spec_payload(),
        )
    }

    /// Creates a new threshold decryption request.
    pub fn new(
        ritual_id: u16,
        ciphertext: &[u8],
        conditions: Option<&Conditions>,
        context: Option<&Context>,
        variant: &FerveoVariant,
    ) -> (r: ThresholdDecryptionRequest)
        requires
            fits_u32(ciphertext@.len() as int),
        ensures
            r.spec_ritual_id() == ritual_id,
            r.spec_ciphertext() == ciphertext@,
            r.spec_conditions() == (match conditions {
                Option::None => Option::<Seq<u8>>::None,
                Option::Some(c) => Option::Some(c@),
            }),
            r.spec_context() == (match context {
                Option::None => Option::<Seq<u8>>::None,
                Option::Some(c) => Option::Some(c@),
            }),
            r.spec_variant() == *variant,
    {
        let conditions = match conditions {
            Option::None => Option::None,
            Option::Some(c) => Option::Some(c.duplicate()),
        };
        let context = match context {
            Option::None => Option::None,
            Option::Some(c) => Option::Some(c.duplicate()),
        };
        proof {
            if let Option::Some(c) = &conditions {
                use_type_invariant(c);
            }
            if let Option::Some(c) = &context {
                use_type_invariant(c);
            }
        }
        ThresholdDecryptionRequest {
            ritual_id,
            ciphertext: vstd::slice::slice_to_vec(ciphertext),
            conditions,
            context,
            variant: *variant,
        }
    }

    /// The ID of the ritual this request is scoped to.
    pub fn ritual_id(&self) -> (r: u16)
        ensures
            r == self.spec_ritual_id(),
    {
        self.ritual_id
    }

    /// The ciphertext to produce a decryption share for.
    pub fn ciphertext(&self) -> (r: Vec<u8>)
        ensures
            r@ == self.spec_ciphertext(),
    {
        clone_bytes(&self.ciphertext)
    }

    /// The conditions bound to this ciphertext, if any.
    pub fn conditions(&self) -> (r: Option<Conditions>)
        ensures
            (match r {
                Option::None => self.spec_conditions() is None,
                Option::Some(c) => self.spec_conditions() == Option::Some(c@),
            }),
    {
        match &self.conditions {
            Option::None => Option::None,
            Option::Some(c) => Option::Some(c.duplicate()),
        }
    }

    /// The context for evaluating the conditions, if any.
    pub fn context(&self) -> (r: Option<Context>)
        ensures
            (match r {
                Option::None => self.spec_context() is None,
                Option::Some(c) => self.spec_context() == Option::Some(c@),
            }),
    {
        match &self.context {
            Option::None => Option::None,
            Option::Some(c) => Option::Some(c.duplicate()),
        }
    }

    /// The ritual variant to use.
    pub fn variant(&self) -> (r: FerveoVariant)
        ensures
            r == self.spec_variant(),
    {
        self.variant
    }

    /// Serializes the request; the result is exactly its wire form.
    pub fn to_bytes(&self) -> (r: Vec<u8>)
        ensures
            r@ == self.spec_bytes(),
    {
        proof {
            use_type_invariant(&*self);
            if let Option::Some(c) = &self.conditions {
                use_type_invariant(c);
            }
            if let Option::Some(c) = &self.context {
                use_type_invariant(c);
            }
        }
        let mut payload: Vec<u8> = Vec::new();
        write_u8(&mut payload, 5);
        write_field_u16(&mut payload, NAME_RITUAL_ID, self.ritual_id);
        write_field_bytes(&mut payload, NAME_CIPHERTEXT, self.ciphertext.as_slice());
        let conditions_ref: Option<&Vec<u8>> = match &self.conditions {
            Option::None => Option::None,
            Option::Some(c) => Option::Some(&c.bytes),
        };
        write_field_opt_bytes(&mut payload, NAME_CONDITIONS, conditions_ref);
        let context_ref: Option<&Vec<u8>> = match &self.context {
            Option::None => Option::None,
            Option::Some(c) => Option::Some(&c.bytes),
        };
        write_field_opt_bytes(&mut payload, NAME_CONTEXT, context_ref);
        write_field_u8(&mut payload, NAME_VARIANT, variant_code(&self.variant));
        proof {
            crate::fields::lemma_enc_fields_unfold5(self.spec_fields());
            assert(payload@ =~= self.spec_payload());
        }
        write_envelope(BRAND_THRESHOLD_DECRYPTION_REQUEST, &payload)
    }

    /// Parses a request from its wire form.  Exactly the encodings of
    /// well-formed requests are accepted; the error distinguishes a foreign
    /// or truncated header, an unsupported version, and a malformed payload.
    pub fn from_bytes(data: &[u8]) -> (r: Result<ThresholdDecryptionRequest, Error>)
        ensures
            r matches Ok(v) ==> data@ == v.spec_bytes(),
            forall|v: ThresholdDecryptionRequest|
                v.wf() && data@ == #[trigger] v.spec_bytes() ==> r is Ok,
            crate::codec::header_error(data@, BRAND_THRESHOLD_DECRYPTION_REQUEST) matches Some(e)
                ==> r == Err::<ThresholdDecryptionRequest, Error>(e),
            r matches Err(e) ==> (crate::codec::header_error(
                data@,
                BRAND_THRESHOLD_DECRYPTION_REQUEST,
            ) == Some(e) || (crate::codec::header_error(
                data@,
                BRAND_THRESHOLD_DECRYPTION_REQUEST,
            ) is None && e == Error::FieldError)),
    {
        let ghost hyp = exists|v: ThresholdDecryptionRequest|
            v.wf() && data@ == #[trigger] v.spec_bytes();
        let ghost w: ThresholdDecryptionRequest = if hyp {
            choose|v: ThresholdDecryptionRequest| v.wf() && data@ == #[trigger] v.spec_bytes()
        } else {
            arbitrary()
        };
        proof {
            if hyp {
                lemma_peel_envelope(
                    data@,
                    BRAND_THRESHOLD_DECRYPTION_REQUEST,
                    PROTOCOL_MAJOR,
                    PROTOCOL_MINOR,
                    w.spec_payload(),
                );
                assert(fields_fit(w.spec_fields()));
            }
        }
        let pos0 = match read_envelope(data, BRAND_THRESHOLD_DECRYPTION_REQUEST) {
            Ok(p) => p,
            Err(e) => {
                proof {
                    assert(!hyp);
                }
                return Err(e);
            },
        };
        let mut fs = match parse_payload(data, pos0) {
            Some(fs) => fs,
            None => {
                proof {
                    assert(!hyp);
                }
                return Err(Error::FieldError);
            },
        };
        let ghost fl = field_views(fs@);
        proof {
            if hyp {
                assert(fl == w.spec_fields());
            }
        }
        if fs.len() != 5 {
            proof {
                assert(!hyp);
            }
            return Err(Error::FieldError);
        }
        let f0 = fs.remove(0);
        let f1 = fs.remove(0);
        let f2 = fs.remove(0);
        let f3 = fs.remove(0);
        let f4 = fs.remove(0);
        proof {
            assert(crate::fields::field_view(f0.1) == fl[0].1);
            assert(crate::fields::field_view(f1.1) == fl[1].1);
            assert(crate::fields::field_view(f2.1) == fl[2].1);
            assert(crate::fields::field_view(f3.1) == fl[3].1);
            assert(crate::fields::field_view(f4.1) == fl[4].1);
        }
        if f0.0 != NAME_RITUAL_ID || f1.0 != NAME_CIPHERTEXT || f2.0 != NAME_CONDITIONS || f3.0
            != NAME_CONTEXT || f4.0 != NAME_VARIANT {
            proof {
                assert(!hyp);
            }
            return Err(Error::FieldError);
        }
        let ritual_id = match f0.1 {
            ParsedField::U16(x) => x,
            _ => {
                proof {
                    assert(!hyp);
                }
                return Err(Error::FieldError);
            },
        };
        let ciphertext = match f1.1 {
            ParsedField::Bytes(b) => b,
            _ => {
                proof {
                    assert(!hyp);
                }
                return Err(Error::FieldError);
            },
        };
        let conditions = match f2.1 {
            ParsedField::OptBytes(o) => o,
            _ => {
                proof {
                    assert(!hyp);
                }
                return Err(Error::FieldError);
            },
        };
        let context = match f3.1 {
            ParsedField::OptBytes(o) => o,
            _ => {
                proof {
                    assert(!hyp);
                }
                return Err(Error::FieldError);
            },
        };
        let vcode = match f4.1 {
            ParsedField::U8(x) => x,
            _ => {
                proof {
                    assert(!hyp);
                }
                return Err(Error::FieldError);
            },
        };
        let variant = if vcode == 0 {
            FerveoVariant::SIMPLE
        } else if vcode == 1 {
            FerveoVariant::PRECOMPUTED
        } else {
            proof {
                assert(!hyp);
            }
            return Err(Error::FieldError);
        };
        let result = ThresholdDecryptionRequest {
            ritual_id,
            ciphertext,
            conditions: match conditions {
                Option::None => Option::None,
                Option::Some(b) => Option::Some(Conditions { bytes: b }),
            },
            context: match context {
                Option::None => Option::None,
                Option::Some(b) => Option::Some(Context { bytes: b }),
            },
            variant,
        };
        proof {
            assert(result.spec_fields() =~= fl);
            assert(crate::codec::u16_val(data@.subrange(6, 8)) == PROTOCOL_MINOR);
            lemma_envelope_assemble(data@, BRAND_THRESHOLD_DECRYPTION_REQUEST);
            assert(data@ == result.spec_bytes());
        }
        Ok(result)
    }

    /// Two well-formed requests with the same wire form agree on every
    /// field: together with the contracts of `to_bytes` and `from_bytes`,
    /// decoding an encoded request gives back what was encoded.
    pub proof fn lemma_bytes_injective(a: Self, b: Self)
        requires
            a.wf(),
            b.wf(),
            a.spec_bytes() == b.spec_bytes(),
        ensures
            a.spec_ritual_id() == b.spec_ritual_id(),
            a.spec_ciphertext() == b.spec_ciphertext(),
            a.spec_conditions() == b.spec_conditions(),
            a.spec_context() == b.spec_context(),
            a.spec_variant() == b.spec_variant(),
    {
        let s = a.spec_bytes();
        lemma_peel_envelope(
            s,
            BRAND_THRESHOLD_DECRYPTION_REQUEST,
            PROTOCOL_MAJOR,
            PROTOCOL_MINOR,
            a.spec_payload(),
        );
        lemma_peel_envelope(
            s,
            BRAND_THRESHOLD_DECRYPTION_REQUEST,
            PROTOCOL_MAJOR,
            PROTOCOL_MINOR,
            b.spec_payload(),
        );
        lemma_peel_u8(s, 8, 5, enc_fields(a.spec_fields()));
        lemma_peel_u8(s, 8, 5, enc_fields(b.spec_fields()));
        assert(fields_fit(a.spec_fields()));
        assert(fields_fit(b.spec_fields()));
        lemma_enc_fields_injective(a.spec_fields(), b.spec_fields());
        assert(a.spec_fields()[0] == b.spec_fields()[0]);
        assert(a.spec_fields()[1] == b.spec_fields()[1]);
        assert(a.spec_fields()[2] == b.spec_fields()[2]);
        assert(a.spec_fields()[3] == b.spec_fields()[3]);
        assert(a.spec_fields()[4] == b.spec_fields()[4]);
        assert(spec_variant_code(a.spec_variant()) == spec_variant_code(b.spec_variant()));
        assert(a.spec_variant() == b.spec_variant());
    }
}

/// One node's decryption share for a threshold-decryption request.
#[derive(Debug, PartialEq, Eq)]
pub struct ThresholdDecryptionResponse {
    decryption_share: Vec<u8>,
}

impl ThresholdDecryptionResponse {
    /// The held share fits its length-prefixed encoding.
    #[verifier::type_invariant]
    pub open spec fn wf(self) -> bool {
        fits_u32(self.spec_decryption_share().len() as int)
    }

    pub closed spec fn spec_decryption_share(self) -> Seq<u8> {
        self.decryption_share@
    }

    /// The single named field of the payload.
    pub open spec fn spec_fields(self) -> Seq<(u32, FieldVal)> {
        seq![(NAME_SHARE, FieldVal::Bytes(self.spec_decryption_share()))]
    }

    pub open spec fn spec_payload(self) -> Seq<u8> {
        enc_payload(self.spec_fields())
    }

    /// The full wire form of the response.
    pub open spec fn spec_bytes(self) -> Seq<u8> {
        enc_envelope(
            BRAND_THRESHOLD_DECRYPTION_RESPONSE,
            PROTOCOL_MAJOR,
            PROTOCOL_MINOR,
            self.spec_payload(),
        )
    }

    /// Creates a new threshold decryption response.
    pub fn new(decryption_share: &[u8]) -> (r: ThresholdDecryptionResponse)
        requires
            fits_u32(decryption_share@.len() as int),
        ensures
            r.spec_decryption_share() == decryption_share@,
    {
        ThresholdDecryptionResponse { decryption_share: vstd::slice::slice_to_vec(
            decryption_share,
        ) }
    }

    /// The decryption share carried by this response.
    pub fn decryption_share(&self) -> (r: Vec<u8>)
        ensures
            r@ == self.spec_decryption_share(),
    {
        clone_bytes(&self.decryption_share)
    }

    /// Serializes the response; the result is exactly its wire form.
    pub fn to_bytes(&self) -> (r: Vec<u8>)
        ensures
            r@ == self.spec_bytes(),
    {
        proof {
            use_type_invariant(&*self);
        }
        let mut payload: Vec<u8> = Vec::new();
        write_u8(&mut payload, 1);
        write_field_bytes(&mut payload, NAME_SHARE, self.decryption_share.as_slice());
        proof {
            crate::fields::lemma_enc_fields_unfold1(self.spec_fields());
            assert(payload@ =~= self.spec_payload());
        }
        write_envelope(BRAND_THRESHOLD_DECRYPTION_RESPONSE, &payload)
    }

    /// Parses a response from its wire form.  Exactly the encodings of
    /// well-formed responses are accepted; the error distinguishes a foreign
    /// or truncated header, an unsupported version, and a malformed payload.
    pub fn from_bytes(data: &[u8]) -> (r: Result<ThresholdDecryptionResponse, Error>)
        ensures
            r matches Ok(v) ==> data@ == v.spec_bytes(),
            forall|v: ThresholdDecryptionResponse|
                v.wf() && data@ == #[trigger] v.spec_bytes() ==> r is Ok,
            crate::codec::header_error(data@, BRAND_THRESHOLD_DECRYPTION_RESPONSE) matches Some(e)
                ==> r == Err::<ThresholdDecryptionResponse, Error>(e),
            r matches Err(e) ==> (crate::codec::header_error(
                data@,
                BRAND_THRESHOLD_DECRYPTION_RESPONSE,
            ) == Some(e) || (crate::codec::header_error(
                data@,
                BRAND_THRESHOLD_DECRYPTION_RESPONSE,
            ) is None && e == Error::FieldError)),
    {
        let ghost hyp = exists|v: ThresholdDecryptionResponse|
            v.wf() && data@ == #[trigger] v.spec_bytes();
        let ghost w: ThresholdDecryptionResponse = if hyp {
            choose|v: ThresholdDecryptionResponse| v.wf() && data@ == #[trigger] v.spec_bytes()
        } else {
            arbitrary()
        };
        proof {
            if hyp {
                lemma_peel_envelope(
                    data@,
                    BRAND_THRESHOLD_DECRYPTION_RESPONSE,
                    PROTOCOL_MAJOR,
                    PROTOCOL_MINOR,
                    w.spec_payload(),
                );
                assert(fields_fit(w.spec_fields()));
            }
        }
        let pos0 = match read_envelope(data, BRAND_THRESHOLD_DECRYPTION_RESPONSE) {
            Ok(p) => p,
            Err(e) => {
                proof {
                    assert(!hyp);
                }
                return Err(e);
            },
        };
        let mut fs = match parse_payload(data, pos0) {
            Some(fs) => fs,
            None => {
                proof {
                    assert(!hyp);
                }
                return Err(Error::FieldError);
            },
        };
        let ghost fl = field_views(fs@);
        proof {
            if hyp {
                assert(fl == w.spec_fields());
            }
        }
        if fs.len() != 1 {
            proof {
                assert(!hyp);
            }
            return Err(Error::FieldError);
        }
        let f0 = fs.remove(0);
        proof {
            assert(crate::fields::field_view(f0.1) == fl[0].1);
        }
        if f0.0 != NAME_SHARE {
            proof {
                assert(!hyp);
            }
            return Err(Error::FieldError);
        }
        let share = match f0.1 {
            ParsedField::Bytes(b) => b,
            _ => {
                proof {
                    assert(!hyp);
                }
                return Err(Error::FieldError);
            },
        };
        let result = ThresholdDecryptionResponse { decryption_share: share };
        proof {
            assert(result.spec_fields() =~= fl);
            assert(crate::codec::u16_val(data@.subrange(6, 8)) == PROTOCOL_MINOR);
            lemma_envelope_assemble(data@, BRAND_THRESHOLD_DECRYPTION_RESPONSE);
            assert(data@ == result.spec_bytes());
        }
        Ok(result)
    }

    /// Two well-formed responses with the same wire form hold the same
    /// share: together with the contracts of `to_bytes` and `from_bytes`,
    /// decoding an encoded response gives back what was encoded.
    pub proof fn lemma_bytes_injective(a: Self, b: Self)
        requires
            a.wf(),
            b.wf(),
            a.spec_bytes() == b.spec_bytes(),
        ensures
            a.spec_decryption_share() == b.spec_decryption_share(),
    {
        let s = a.spec_bytes();
        lemma_peel_envelope(
            s,
            BRAND_THRESHOLD_DECRYPTION_RESPONSE,
            PROTOCOL_MAJOR,
            PROTOCOL_MINOR,
            a.spec_payload(),
        );
        lemma_peel_envelope(
            s,
            BRAND_THRESHOLD_DECRYPTION_RESPONSE,
            PROTOCOL_MAJOR,
            PROTOCOL_MINOR,
            b.spec_payload(),
        );
        lemma_peel_u8(s, 8, 1, enc_fields(a.spec_fields()));
        lemma_peel_u8(s, 8, 1, enc_fields(b.spec_fields()));
        assert(fields_fit(a.spec_fields()));
        assert(fields_fit(b.spec_fields()));
        lemma_enc_fields_injective(a.spec_fields(), b.spec_fields());
        assert(a.spec_fields()[0] == b.spec_fields()[0]);
    }
}

} // verus!
