use vstd::prelude::*;

use crate::address::Address;
use crate::codec::{
    enc_envelope, lemma_envelope_assemble, read_envelope, write_envelope, write_u8,
    PROTOCOL_MAJOR, PROTOCOL_MINOR,
};
use crate::engine;
use crate::errors::Error;
use crate::fields::{
    enc_payload, field_views, parse_payload, write_field_bytes, write_field_opt_bytes,
    write_field_u16, write_field_u32, FieldVal, ParsedField,
};
use crate::keys::{clone_bytes, PublicKey, Signer};

verus! {

/// The four ASCII bytes "NdMd", as a little-endian word.
pub const BRAND_NODE_METADATA: u32 = 0x644D644E;

/// The four ASCII bytes "NdPl", as a little-endian word.
pub const BRAND_NODE_PAYLOAD: u32 = 0x6C50644E;

/// Field name "addr": the node's canonical address.
pub const NAME_ADDRESS: u32 = 0x72646461;

/// Field name "domn": the network domain.
pub const NAME_DOMAIN: u32 = 0x6e6d6f64;

/// Field name "time": the announcement timestamp.
pub const NAME_TIMESTAMP: u32 = 0x656d6974;

/// Field name "vkey": the node's verifying key.
pub const NAME_VERIFYING_KEY: u32 = 0x79656b76;

/// Field name "ekey": the node's encrypting key.
pub const NAME_ENCRYPTING_KEY: u32 = 0x79656b65;

/// Field name "cert": the TLS certificate bytes.
pub const NAME_CERTIFICATE: u32 = 0x74726563;

/// Field name "host": the host name.
pub const NAME_HOST: u32 = 0x74736f68;

/// Field name "port": the port.
pub const NAME_PORT: u32 = 0x74726f70;

/// Field name "evid": the optional legacy identity evidence.
pub const NAME_EVIDENCE: u32 = 0x64697665;

/// Field name "payl": a signed payload.
pub const NAME_PAYLOAD: u32 = 0x6c796170;

/// Field name "sign": a signature.
pub const NAME_SIGNATURE: u32 = 0x6e676973;

/// The unsigned facts one node announces about itself.
#[derive(Debug, PartialEq, Eq)]
pub struct NodeMetadataPayload {
    canonical_address: Address,
    domain: Vec<u8>,
    timestamp_epoch: u32,
    verifying_key: PublicKey,
    encrypting_key: PublicKey,
    certificate_bytes: Vec<u8>,
    host: Vec<u8>,
    port: u16,
    decentralized_identity_evidence: Option<Vec<u8>>,
}

impl NodeMetadataPayload {
    /// A 20-byte address, valid keys, and bounded variable fields.
    #[verifier::type_invariant]
    pub open spec fn wf(self) -> bool {
        &&& self.spec_canonical_address().len() == 20
        &&& self.spec_domain().len() <= 0xFFFF
        &&& engine::is_public_key(self.spec_verifying_key())
        &&& self.spec_verifying_key().len() == 33
        &&& engine::is_public_key(self.spec_encrypting_key())
        &&& self.spec_encrypting_key().len() == 33
        &&& self.spec_certificate_bytes().len() <= 0xFFFF
        &&& self.spec_host().len() <= 0xFFFF
        &&& (self.spec_evidence() matches Some(e) ==> e.len() <= 0xFFFF)
    }

    pub closed spec fn spec_canonical_address(self) -> Seq<u8> {
        self.canonical_address@
    }

    pub closed spec fn spec_domain(self) -> Seq<u8> {
        self.domain@
    }

    pub closed spec fn spec_timestamp_epoch(self) -> u32 {
        self.timestamp_epoch
    }

    pub closed spec fn spec_verifying_key(self) -> Seq<u8> {
        self.verifying_key@
    }

    pub closed spec fn spec_encrypting_key(self) -> Seq<u8> {
        self.encrypting_key@
    }

    pub closed spec fn spec_certificate_bytes(self) -> Seq<u8> {
        self.certificate_bytes@
    }

    pub closed spec fn spec_host(self) -> Seq<u8> {
        self.host@
    }

    pub closed spec fn spec_port(self) -> u16 {
        self.port
    }

    pub closed spec fn spec_evidence(self) -> Option<Seq<u8>> {
        match self.decentralized_identity_evidence {
            Option::None => Option::None,
            Option::Some(e) => Option::Some(e@),
        }
    }

    /// The nine named fields of the payload.
    pub open spec fn spec_fields(self) -> Seq<(u32, FieldVal)> {
        seq![
            (NAME_ADDRESS, FieldVal::Bytes(self.spec_canonical_address())),
            (NAME_DOMAIN, FieldVal::Bytes(self.spec_domain())),
            (NAME_TIMESTAMP, FieldVal::U32(self.spec_timestamp_epoch())),
            (NAME_VERIFYING_KEY, FieldVal::Bytes(self.spec_verifying_key())),
            (NAME_ENCRYPTING_KEY, FieldVal::Bytes(self.spec_encrypting_key())),
            (NAME_CERTIFICATE, FieldVal::Bytes(self.spec_certificate_bytes())),
            (NAME_HOST, FieldVal::Bytes(self.spec_host())),
            (NAME_PORT, FieldVal::U16(self.spec_port())),
            (NAME_EVIDENCE, FieldVal::OptBytes(self.spec_evidence())),
        ]
    }

    pub open spec fn spec_payload(self) -> Seq<u8> {
        enc_payload(self.spec_fields())
    }

    /// The full wire form of the facts record.
    pub open spec fn spec_bytes(self) -> Seq<u8> {
        enc_envelope(BRAND_NODE_PAYLOAD, PROTOCOL_MAJOR, PROTOCOL_MINOR, self.spec_payload())
    }

    /// Records one node's facts.  Fails with `InvalidAddress` exactly when
    /// the address is not 20 bytes.
    pub fn new(
        canonical_address: &[u8],
        domain: &[u8],
        timestamp_epoch: u32,
        verifying_key: &PublicKey,
        encrypting_key: &PublicKey,
        certificate_bytes: &[u8],
        host: &[u8],
        port: u16,
        decentralized_identity_evidence: Option<&Vec<u8>>,
    ) -> (r: Result<NodeMetadataPayload, Error>)
        requires
            domain@.len() <= 0xFFFF,
            certificate_bytes@.len() <= 0xFFFF,
            host@.len() <= 0xFFFF,
            (decentralized_identity_evidence matches Some(e) ==> e@.len() <= 0xFFFF),
        ensures
            r is Ok <==> canonical_address@.len() == 20,
            r is Err ==> r == Err::<NodeMetadataPayload, Error>(Error::InvalidAddress),
            r matches Ok(p) ==> {
                &&& p.spec_canonical_address() == canonical_address@
                &&& p.spec_domain() == domain@
                &&& p.spec_timestamp_epoch() == timestamp_epoch
                &&& p.spec_verifying_key() == verifying_key@
                &&& p.spec_encrypting_key() == encrypting_key@
                &&& p.spec_certificate_bytes() == certificate_bytes@
                &&& p.spec_host() == host@
                &&& p.spec_port() == port
                &&& p.spec_evidence() == (match decentralized_identity_evidence {
                    Option::None => Option::<Seq<u8>>::None,
                    Option::Some(e) => Option::Some(e@),
                })
            },
    {
        let address = match Address::from_slice(canonical_address) {
            Some(a) => a,
            None => {
                return Err(Error::InvalidAddress);
            },
        };
        proof {
            use_type_invariant(verifying_key);
            use_type_invariant(encrypting_key);
        }
        let evidence = match decentralized_identity_evidence {
            Option::None => Option::None,
            Option::Some(e) => Option::Some(clone_bytes(e)),
        };
        Ok(
            NodeMetadataPayload {
                canonical_address: address,
                domain: vstd::slice::slice_to_vec(domain),
                timestamp_epoch,
                verifying_key: verifying_key.duplicate(),
                encrypting_key: encrypting_key.duplicate(),
                certificate_bytes: vstd::slice::slice_to_vec(certificate_bytes),
                host: vstd::slice::slice_to_vec(host),
                port,
                decentralized_identity_evidence: evidence,
            },
        )
    }

    /// The node's canonical 20-byte address.
    pub fn canonical_address(&self) -> (r: Vec<u8>)
        ensures
            r@ == self.spec_canonical_address(),
    {
        self.canonical_address.as_bytes()
    }

    /// The network domain, as UTF-8 bytes.
    pub fn domain(&self) -> (r: Vec<u8>)
        ensures
            r@ == self.spec_domain(),
    {
        clone_bytes(&self.domain)
    }

    /// The announcement timestamp, in epoch seconds.
    pub fn timestamp_epoch(&self) -> (r: u32)
        ensures
            r == self.spec_timestamp_epoch(),
    {
        self.timestamp_epoch
    }

    /// The node's verifying key.
    pub fn verifying_key(&self) -> (r: PublicKey)
        ensures
            r@ == self.spec_verifying_key(),
    {
        self.verifying_key.duplicate()
    }

    /// The node's encrypting key.
    pub fn encrypting_key(&self) -> (r: PublicKey)
        ensures
            r@ == self.spec_encrypting_key(),
    {
        self.encrypting_key.duplicate()
    }

    /// The node's TLS certificate, in serialized form.
    pub fn certificate_bytes(&self) -> (r: Vec<u8>)
        ensures
            r@ == self.spec_certificate_bytes(),
    {
        clone_bytes(&self.certificate_bytes)
    }

    /// The host name, as UTF-8 bytes.
    pub fn host(&self) -> (r: Vec<u8>)
        ensures
            r@ == self.spec_host(),
    {
        clone_bytes(&self.host)
    }

    /// The port.
    pub fn port(&self) -> (r: u16)
        ensures
            r == self.spec_port(),
    {
        self.port
    }

    /// The optional legacy identity evidence.
    pub fn decentralized_identity_evidence(&self) -> (r: Option<Vec<u8>>)
        ensures
            (match r {
                Option::None => self.spec_evidence() is None,
                Option::Some(e) => self.spec_evidence() == Option::Some(e@),
            }),
    {
        match &self.decentralized_identity_evidence {
            Option::None => Option::None,
            Option::Some(e) => Option::Some(clone_bytes(e)),
        }
    }

    /// An owned copy of the record.
    pub fn duplicate(&self) -> (r: NodeMetadataPayload)
        ensures
            r.spec_canonical_address() == self.spec_canonical_address(),
            r.spec_domain() == self.spec_domain(),
            r.spec_timestamp_epoch() == self.spec_timestamp_epoch(),
            r.spec_verifying_key() == self.spec_verifying_key(),
            r.spec_encrypting_key() == self.spec_encrypting_key(),
            r.spec_certificate_bytes() == self.spec_certificate_bytes(),
            r.spec_host() == self.spec_host(),
            r.spec_port() == self.spec_port(),
            r.spec_evidence() == self.spec_evidence(),
    {
        proof {
            use_type_invariant(&*self);
        }
        NodeMetadataPayload {
            canonical_address: self.canonical_address.duplicate(),
            domain: clone_bytes(&self.domain),
            timestamp_epoch: self.timestamp_epoch,
            verifying_key: self.verifying_key.duplicate(),
            encrypting_key: self.encrypting_key.duplicate(),
            certificate_bytes: clone_bytes(&self.certificate_bytes),
            host: clone_bytes(&self.host),
            port: self.port,
            decentralized_identity_evidence: match &self.decentralized_identity_evidence {
                Option::None => Option::None,
                Option::Some(e) => Option::Some(clone_bytes(e)),
            },
        }
    }

    /// Bounds the wire form: every variable field is capped, so the whole
    /// record stays under 400 KiB.
    pub proof fn lemma_bytes_len_bound(self)
        requires
            self.wf(),
        ensures
            self.spec_bytes().len() <= 0x6_0000,
    {
        crate::fields::lemma_enc_fields_unfold9(self.spec_fields());
    }

    /// Serializes the record; the result is exactly its wire form.
    #[verifier::rlimit(100)]
    pub fn to_bytes(&self) -> (r: Vec<u8>)
        ensures
            r@ == self.spec_bytes(),
    {
        proof {
            use_type_invariant(&*self);
        }
        let mut payload: Vec<u8> = Vec::new();
        write_u8(&mut payload, 9);
        write_field_bytes(&mut payload, NAME_ADDRESS, self.canonical_address.as_bytes().as_slice());
        write_field_bytes(&mut payload, NAME_DOMAIN, self.domain.as_slice());
        write_field_u32(&mut payload, NAME_TIMESTAMP, self.timestamp_epoch);
        write_field_bytes(
            &mut payload,
            NAME_VERIFYING_KEY,
            self.verifying_key.to_compressed_bytes().as_slice(),
        );
        write_field_bytes(
            &mut payload,
            NAME_ENCRYPTING_KEY,
            self.encrypting_key.to_compressed_bytes().as_slice(),
        );
        write_field_bytes(&mut payload, NAME_CERTIFICATE, self.certificate_bytes.as_slice());
        write_field_bytes(&mut payload, NAME_HOST, self.host.as_slice());
        write_field_u16(&mut payload, NAME_PORT, self.port);
        let evidence_ref: Option<&Vec<u8>> = match &self.decentralized_identity_evidence {
            Option::None => Option::None,
            Option::Some(e) => Option::Some(e),
        };
        write_field_opt_bytes(&mut payload, NAME_EVIDENCE, evidence_ref);
        proof {
            crate::fields::lemma_enc_fields_unfold9(self.spec_fields());
            assert(payload@ =~= self.spec_payload());
        }
        write_envelope(BRAND_NODE_PAYLOAD, &payload)
    }

    /// Parses a record from its wire form.  Whatever is accepted is the
    /// exact wire form of the returned record.
    pub fn from_bytes(data: &[u8]) -> (r: Result<NodeMetadataPayload, Error>)
        ensures
            r matches Ok(v) ==> data@ == v.spec_bytes(),
            forall|v: NodeMetadataPayload| v.wf() && data@ == #[trigger] v.spec_bytes() ==> r is Ok,
            crate::codec::header_error(data@, BRAND_NODE_PAYLOAD) matches Some(e) ==> r == Err::<
                NodeMetadataPayload,
                Error,
            >(e),
            r matches Err(e) ==> (crate::codec::header_error(data@, BRAND_NODE_PAYLOAD) == Some(
                e,
            ) || (crate::codec::header_error(data@, BRAND_NODE_PAYLOAD) is None && e
                == Error::FieldError)),
    {
        let ghost hyp = exists|v: NodeMetadataPayload| v.wf() && data@ == #[trigger] v.spec_bytes();
        let ghost w: NodeMetadataPayload = if hyp {
            choose|v: NodeMetadataPayload| v.wf() && data@ == #[trigger] v.spec_bytes()
        } else {
            arbitrary()
        };
        proof {
            if hyp {
                crate::codec::lemma_peel_envelope(
                    data@,
                    BRAND_NODE_PAYLOAD,
                    PROTOCOL_MAJOR,
                    PROTOCOL_MINOR,
                    w.spec_payload(),
                );
                assert(crate::fields::fields_fit(w.spec_fields()));
            }
        }
        let pos0 = match read_envelope(data, BRAND_NODE_PAYLOAD) {
            Ok(p) => p,
            Err(e) => {
                proof {
                    assert(!hyp);
                }
                return Err(e);
            },
        };
        let mut fs = match parse_payload(data, pos0) {
            Some(fs) => fs,
            None => {
                proof {
                    assert(!hyp);
                }
                return Err(Error::FieldError);
            },
        };
        let ghost fl = field_views(fs@);
        if fs.len() != 9 {
            proof {
                assert(!hyp);
            }
            return Err(Error::FieldError);
        }
        let f0 = fs.remove(0);
        let f1 = fs.remove(0);
        let f2 = fs.remove(0);
        let f3 = fs.remove(0);
        let f4 = fs.remove(0);
        let f5 = fs.remove(0);
        let f6 = fs.remove(0);
        let f7 = fs.remove(0);
        let f8 = fs.remove(0);
        proof {
            assert(crate::fields::field_view(f0.1) == fl[0].1);
            assert(crate::fields::field_view(f1.1) == fl[1].1);
            assert(crate::fields::field_view(f2.1) == fl[2].1);
            assert(crate::fields::field_view(f3.1) == fl[3].1);
            assert(crate::fields::field_view(f4.1) == fl[4].1);
            assert(crate::fields::field_view(f5.1) == fl[5].1);
            assert(crate::fields::field_view(f6.1) == fl[6].1);
            assert(crate::fields::field_view(f7.1) == fl[7].1);
            assert(crate::fields::field_view(f8.1) == fl[8].1);
        }
        if f0.0 != NAME_ADDRESS || f1.0 != NAME_DOMAIN || f2.0 != NAME_TIMESTAMP || f3.0
            != NAME_VERIFYING_KEY || f4.0 != NAME_ENCRYPTING_KEY || f5.0 != NAME_CERTIFICATE
            || f6.0 != NAME_HOST || f7.0 != NAME_PORT || f8.0 != NAME_EVIDENCE {
            proof {
                assert(!hyp);
            }
            return Err(Error::FieldError);
        }
        let addr_bytes = match f0.1 {
            ParsedField::Bytes(b) => b,
            _ => {
                proof {
                    assert(!hyp);
                }
                return Err(Error::FieldError);
            },
        };
        let canonical_address = match Address::from_slice(addr_bytes.as_slice()) {
            Some(a) => a,
            None => {
                proof {
                    assert(!hyp);
                }
                return Err(Error::FieldError);
            },
        };
        let domain = match f1.1 {
            ParsedField::Bytes(b) => b,
            _ => {
                proof {
                    assert(!hyp);
                }
                return Err(Error::FieldError);
            },
        };
        let timestamp_epoch = match f2.1 {
            ParsedField::U32(x) => x,
            _ => {
                proof {
                    assert(!hyp);
                }
                return Err(Error::FieldError);
            },
        };
        let vk_bytes = match f3.1 {
            ParsedField::Bytes(b) => b,
            _ => {
                proof {
                    assert(!hyp);
                }
                return Err(Error::FieldError);
            },
        };
        let verifying_key = match PublicKey::from_compressed_bytes(vk_bytes.as_slice()) {
            Ok(k) => k,
            Err(_) => {
                proof {
                    assert(!hyp);
                }
                return Err(Error::FieldError);
            },
        };
        let ek_bytes = match f4.1 {
            ParsedField::Bytes(b) => b,
            _ => {
                proof {
                    assert(!hyp);
                }
                return Err(Error::FieldError);
            },
        };
        let encrypting_key = match PublicKey::from_compressed_bytes(ek_bytes.as_slice()) {
            Ok(k) => k,
            Err(_) => {
                proof {
                    assert(!hyp);
                }
                return Err(Error::FieldError);
            },
        };
        let certificate_bytes = match f5.1 {
            ParsedField::Bytes(b) => b,
            _ => {
                proof {
                    assert(!hyp);
                }
                return Err(Error::FieldError);
            },
        };
        let host = match f6.1 {
            ParsedField::Bytes(b) => b,
            _ => {
                proof {
                    assert(!hyp);
                }
                return Err(Error::FieldError);
            },
        };
        let port = match f7.1 {
            ParsedField::U16(x) => x,
            _ => {
                proof {
                    assert(!hyp);
                }
                return Err(Error::FieldError);
            },
        };
        let evidence = match f8.1 {
            ParsedField::OptBytes(o) => o,
            _ => {
                proof {
                    assert(!hyp);
                }
                return Err(Error::FieldError);
            },
        };
        if domain.len() > 0xFFFF || certificate_bytes.len() > 0xFFFF || host.len() > 0xFFFF {
            proof {
                assert(!hyp);
            }
            return Err(Error::FieldError);
        }
        if let Option::Some(e) = &evidence {
            if e.len() > 0xFFFF {
                proof {
                    assert(!hyp);
                }
                return Err(Error::FieldError);
            }
        }
        proof {
            use_type_invariant(&canonical_address);
            use_type_invariant(&verifying_key);
            use_type_invariant(&encrypting_key);
        }
        let result = NodeMetadataPayload {
            canonical_address,
            domain,
            timestamp_epoch,
            verifying_key,
            encrypting_key,
            certificate_bytes,
            host,
            port,
            decentralized_identity_evidence: evidence,
        };
        proof {
            assert(result.spec_fields() =~= fl);
            assert(crate::codec::u16_val(data@.subrange(6, 8)) == PROTOCOL_MINOR);
            lemma_envelope_assemble(data@, BRAND_NODE_PAYLOAD);
            assert(data@ == result.spec_bytes());
        }
        Ok(result)
    }
}

/// A node's self-signed announcement: the facts record plus a signature
/// under the verifying key embedded in the record itself.
#[derive(Debug, PartialEq, Eq)]
pub struct NodeMetadata {
    payload: NodeMetadataPayload,
    signature: Vec<u8>,
}

impl NodeMetadata {
    /// A well-formed record and a 64-byte signature.
    #[verifier::type_invariant]
    pub open spec fn wf(self) -> bool {
        &&& self.spec_node_payload().wf()
        &&& self.spec_signature().len() == 64
    }

    pub closed spec fn spec_node_payload(self) -> NodeMetadataPayload {
        self.payload
    }

    pub closed spec fn spec_signature(self) -> Seq<u8> {
        self.signature@
    }

    /// The two named fields of the announcement.
    pub open spec fn spec_fields(self) -> Seq<(u32, FieldVal)> {
        seq![
            (NAME_PAYLOAD, FieldVal::Bytes(self.spec_node_payload().spec_bytes())),
            (NAME_SIGNATURE, FieldVal::Bytes(self.spec_signature())),
        ]
    }

    pub open spec fn spec_payload(self) -> Seq<u8> {
        enc_payload(self.spec_fields())
    }

    /// The full wire form of the announcement.
    pub open spec fn spec_bytes(self) -> Seq<u8> {
        enc_envelope(BRAND_NODE_METADATA, PROTOCOL_MAJOR, PROTOCOL_MINOR, self.spec_payload())
    }

    /// Signs a facts record.  The signature verifies later exactly when it
    /// is checked against the key the record itself carries — which is the
    /// signer's own key for a self-signed announcement.
    pub fn new(signer: &Signer, payload: &NodeMetadataPayload) -> (r: NodeMetadata)
        ensures
            r.spec_node_payload().spec_bytes() == payload.spec_bytes(),
            r.spec_node_payload().spec_verifying_key() == payload.spec_verifying_key(),
            engine::sig_valid(
                r.spec_signature(),
                signer.spec_verifying_key(),
                payload.spec_bytes(),
            ),
    {
        proof {
            use_type_invariant(payload);
        }
        let payload_bytes = payload.to_bytes();
        let signature = signer.sign(payload_bytes.as_slice());
        let copied = payload.duplicate();
        proof {
            assert(copied.spec_fields() =~= payload.spec_fields());
        }
        NodeMetadata { payload: copied, signature }
    }

    /// Checks the announcement's signature against the verifying key the
    /// record itself carries.  The result is advisory: gossip batches are
    /// filtered, not aborted.
    pub fn verify(&self) -> (r: bool)
        ensures
            r == engine::sig_valid(
                self.spec_signature(),
                self.spec_node_payload().spec_verifying_key(),
                self.spec_node_payload().spec_bytes(),
            ),
    {
        let payload_bytes = self.payload.to_bytes();
        let vk = self.payload.verifying_key();
        let vk_bytes = vk.to_compressed_bytes();
        engine::verify_signature_bytes(
            self.signature.as_slice(),
            vk_bytes.as_slice(),
            payload_bytes.as_slice(),
        )
    }

    /// The signed facts record.
    pub fn payload(&self) -> (r: NodeMetadataPayload)
        ensures
            r.spec_bytes() == self.spec_node_payload().spec_bytes(),
            r.spec_canonical_address() == self.spec_node_payload().spec_canonical_address(),
            r.spec_verifying_key() == self.spec_node_payload().spec_verifying_key(),
    {
        let r = self.payload.duplicate();
        proof {
            assert(r.spec_fields() =~= self.payload.spec_fields());
        }
        r
    }

    /// An owned copy of the announcement.
    pub fn duplicate(&self) -> (r: NodeMetadata)
        ensures
            r.spec_node_payload().spec_bytes() == self.spec_node_payload().spec_bytes(),
            r.spec_node_payload().spec_canonical_address()
                == self.spec_node_payload().spec_canonical_address(),
            r.spec_signature() == self.spec_signature(),
    {
        proof {
            use_type_invariant(&*self);
        }
        let payload = self.payload.duplicate();
        proof {
            assert(payload.spec_fields() =~= self.payload.spec_fields());
        }
        NodeMetadata { payload, signature: clone_bytes(&self.signature) }
    }

    /// Bounds the wire form of a well-formed announcement.
    pub proof fn lemma_bytes_len_bound(self)
        requires
            self.wf(),
        ensures
            self.spec_bytes().len() <= 0x6_0100,
    {
        self.spec_node_payload().lemma_bytes_len_bound();
        crate::fields::lemma_enc_fields_unfold2(self.spec_fields());
    }

    /// Serializes the announcement; the result is exactly its wire form.
    pub fn to_bytes(&self) -> (r: Vec<u8>)
        ensures
            r@ == self.spec_bytes(),
    {
        proof {
            use_type_invariant(&*self);
            self.spec_node_payload().lemma_bytes_len_bound();
        }
        let payload_bytes = self.payload.to_bytes();
        let mut payload: Vec<u8> = Vec::new();
        write_u8(&mut payload, 2);
        write_field_bytes(&mut payload, NAME_PAYLOAD, payload_bytes.as_slice());
        write_field_bytes(&mut payload, NAME_SIGNATURE, self.signature.as_slice());
        proof {
            crate::fields::lemma_enc_fields_unfold2(self.spec_fields());
            assert(payload@ =~= self.spec_payload());
        }
        write_envelope(BRAND_NODE_METADATA, &payload)
    }

    /// Parses an announcement from its wire form.  Whatever is accepted is
    /// the exact wire form of the returned announcement.
    pub fn from_bytes(data: &[u8]) -> (r: Result<NodeMetadata, Error>)
        ensures
            r matches Ok(v) ==> data@ == v.spec_bytes(),
            forall|v: NodeMetadata| v.wf() && data@ == #[trigger] v.spec_bytes() ==> r is Ok,
            crate::codec::header_error(data@, BRAND_NODE_METADATA) matches Some(e) ==> r == Err::<
                NodeMetadata,
                Error,
            >(e),
            r matches Err(e) ==> (crate::codec::header_error(data@, BRAND_NODE_METADATA) == Some(
                e,
            ) || (crate::codec::header_error(data@, BRAND_NODE_METADATA) is None && e
                == Error::FieldError)),
    {
        let ghost hyp = exists|v: NodeMetadata| v.wf() && data@ == #[trigger] v.spec_bytes();
        let ghost w: NodeMetadata = if hyp {
            choose|v: NodeMetadata| v.wf() && data@ == #[trigger] v.spec_bytes()
        } else {
            arbitrary()
        };
        proof {
            if hyp {
                crate::codec::lemma_peel_envelope(
                    data@,
                    BRAND_NODE_METADATA,
                    PROTOCOL_MAJOR,
                    PROTOCOL_MINOR,
                    w.spec_payload(),
                );
                w.spec_node_payload().lemma_bytes_len_bound();
                assert(crate::fields::fields_fit(w.spec_fields()));
            }
        }
        let pos0 = match read_envelope(data, BRAND_NODE_METADATA) {
            Ok(p) => p,
            Err(e) => {
                proof {
                    assert(!hyp);
                }
                return Err(e);
            },
        };
        let mut fs = match parse_payload(data, pos0) {
            Some(fs) => fs,
            None => {
                proof {
                    assert(!hyp);
                }
                return Err(Error::FieldError);
            },
        };
        let ghost fl = field_views(fs@);
        if fs.len() != 2 {
            proof {
                assert(!hyp);
            }
            return Err(Error::FieldError);
        }
        let f0 = fs.remove(0);
        let f1 = fs.remove(0);
        proof {
            assert(crate::fields::field_view(f0.1) == fl[0].1);
            assert(crate::fields::field_view(f1.1) == fl[1].1);
        }
        if f0.0 != NAME_PAYLOAD || f1.0 != NAME_SIGNATURE {
            proof {
                assert(!hyp);
            }
            return Err(Error::FieldError);
        }
        let payload_bytes = match f0.1 {
            ParsedField::Bytes(b) => b,
            _ => {
                proof {
                    assert(!hyp);
                }
                return Err(Error::FieldError);
            },
        };
        let payload = match NodeMetadataPayload::from_bytes(payload_bytes.as_slice()) {
            Ok(p) => p,
            Err(_) => {
                proof {
                    assert(!hyp);
                }
                return Err(Error::FieldError);
            },
        };
        let signature = match f1.1 {
            ParsedField::Bytes(b) => b,
            _ => {
                proof {
                    assert(!hyp);
                }
                return Err(Error::FieldError);
            },
        };
        if signature.len() != 64 {
            proof {
                assert(!hyp);
            }
            return Err(Error::FieldError);
        }
        proof {
            use_type_invariant(&payload);
        }
        let result = NodeMetadata { payload, signature };
        proof {
            assert(result.spec_fields() =~= fl);
            assert(crate::codec::u16_val(data@.subrange(6, 8)) == PROTOCOL_MINOR);
            lemma_envelope_assemble(data@, BRAND_NODE_METADATA);
            assert(data@ == result.spec_bytes());
        }
        Ok(result)
    }
}

} // verus!
