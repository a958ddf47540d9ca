use vstd::prelude::*;

use crate::codec::{
    enc_bytes_seq, enc_envelope, fits_u32, lemma_enc_bytes_seq_len_bound,
    lemma_enc_bytes_seq_push, lemma_envelope_assemble, lemma_peel_envelope, parse_items,
    read_envelope, views_of, write_bytes, write_envelope, write_u8, PROTOCOL_MAJOR,
    PROTOCOL_MINOR,
};
use crate::engine;
use crate::errors::Error;
use crate::fields::{
    enc_payload, field_views, fields_fit, parse_payload, write_field_bytes, write_field_u32,
    FieldVal, ParsedField,
};
use crate::fleet::FleetStateChecksum;
use crate::keys::{clone_bytes, PublicKey, Signer};
use crate::node_metadata::NodeMetadata;

verus! {

/// The four ASCII bytes "MdRq", as a little-endian word.
pub const BRAND_METADATA_REQUEST: u32 = 0x7152644D;

/// The four ASCII bytes "MdRp", as a little-endian word.
pub const BRAND_METADATA_RESPONSE_PAYLOAD: u32 = 0x7052644D;

/// The four ASCII bytes "MdRs", as a little-endian word.
pub const BRAND_METADATA_RESPONSE: u32 = 0x7352644D;

/// Field name "fsum": the fleet state checksum.
pub const NAME_CHECKSUM: u32 = 0x6d757366;

/// Field name "node": the announced nodes.
pub const NAME_NODES: u32 = 0x65646f6e;

/// Field name "time": the response timestamp.
pub const NAME_TIMESTAMP: u32 = 0x656d6974;

/// Field name "payl": the signed response contents.
pub const NAME_PAYLOAD: u32 = 0x6c796170;

/// Field name "sign": the responder's signature.
pub const NAME_SIGNATURE: u32 = 0x6e676973;

/// The announcements carried by a gossip message, as their wire forms.
pub open spec fn spec_node_bytes(nodes: Seq<NodeMetadata>) -> Seq<Seq<u8>> {
    nodes.map_values(|n: NodeMetadata| n.spec_bytes())
}

/// A bounded announcement list of well-formed nodes.
pub open spec fn nodes_wf(nodes: Seq<NodeMetadata>) -> bool {
    nodes.len() <= 0x200 && forall|i: int| 0 <= i < nodes.len() ==> (#[trigger] nodes[i]).wf()
}

/// Bounds on the serialized announcement list.
proof fn lemma_node_blob_bound(nodes: Seq<NodeMetadata>)
    requires
        nodes_wf(nodes),
    ensures
        enc_bytes_seq(spec_node_bytes(nodes)).len() <= 0xC100_0000,
        crate::codec::all_fit_u32(spec_node_bytes(nodes)),
{
    let items = spec_node_bytes(nodes);
    assert forall|i: int| 0 <= i < items.len() implies #[trigger] items[i].len() <= 0x6_0100 by {
        assert(items[i] == nodes[i].spec_bytes());
        nodes[i].lemma_bytes_len_bound();
    }
    lemma_enc_bytes_seq_len_bound(items, 0x6_0100);
    assert(items.len() * (4 + 0x6_0100) <= 0x200 * 0x6_0104) by (nonlinear_arith)
        requires
            items.len() <= 0x200,
    ;
}

/// Copies a list of announcements.
fn duplicate_nodes(nodes: &Vec<NodeMetadata>) -> (r: Vec<NodeMetadata>)
    ensures
        r@.len() == nodes@.len(),
        forall|i: int|
            0 <= i < nodes@.len() ==> (#[trigger] r@[i]).spec_bytes() == nodes@[i].spec_bytes()
                && r@[i].spec_node_payload().spec_canonical_address()
                == nodes@[i].spec_node_payload().spec_canonical_address() && r@[i].wf(),
{
    let mut out: Vec<NodeMetadata> = Vec::new();
    let mut k: usize = 0;
    while k < nodes.len()
        invariant
            k <= nodes@.len(),
            out@.len() == k,
            forall|i: int|
                0 <= i < k as int ==> (#[trigger] out@[i]).spec_bytes() == nodes@[i].spec_bytes()
                    && out@[i].spec_node_payload().spec_canonical_address()
                    == nodes@[i].spec_node_payload().spec_canonical_address() && out@[i].wf(),
        decreases nodes@.len() - k,
    {
        let n = nodes[k].duplicate();
        proof {
            use_type_invariant(&n);
        }
        out.push(n);
        k = k + 1;
    }
    out
}

/// Serializes a list of announcements, each length-prefixed.
fn write_node_blob(nodes: &Vec<NodeMetadata>) -> (r: Vec<u8>)
    requires
        nodes_wf(nodes@),
    ensures
        r@ == enc_bytes_seq(spec_node_bytes(nodes@)),
{
    let mut blob: Vec<u8> = Vec::new();
    let mut k: usize = 0;
    proof {
        assert(nodes@.take(0) =~= Seq::<NodeMetadata>::empty());
        assert(spec_node_bytes(Seq::<NodeMetadata>::empty()) =~= Seq::<Seq<u8>>::empty());
    }
    while k < nodes.len()
        invariant
            k <= nodes@.len(),
            nodes_wf(nodes@),
            blob@ == enc_bytes_seq(spec_node_bytes(nodes@.take(k as int))),
        decreases nodes@.len() - k,
    {
        let node_bytes = nodes[k].to_bytes();
        proof {
            nodes@[k as int].lemma_bytes_len_bound();
        }
        write_bytes(&mut blob, node_bytes.as_slice());
        proof {
            lemma_enc_bytes_seq_push(spec_node_bytes(nodes@.take(k as int)), node_bytes@);
            assert(spec_node_bytes(nodes@.take(k + 1)) =~= spec_node_bytes(
                nodes@.take(k as int),
            ).push(node_bytes@));
        }
        k = k + 1;
    }
    proof {
        assert(nodes@.take(nodes@.len() as int) =~= nodes@);
    }
    blob
}

/// One gossip round's request: the sender's view of the directory, and any
/// nodes it wants to announce.
#[derive(Debug, PartialEq, Eq)]
pub struct MetadataRequest {
    fleet_state_checksum: FleetStateChecksum,
    announce_nodes: Vec<NodeMetadata>,
}

impl MetadataRequest {
    /// The sender's 32-byte checksum and a bounded, well-formed
    /// announcement list.
    #[verifier::type_invariant]
    pub open spec fn wf(self) -> bool {
        &&& self.spec_fleet_state_checksum().len() == 32
        &&& nodes_wf(self.spec_announce_nodes())
    }

    pub closed spec fn spec_fleet_state_checksum(self) -> Seq<u8> {
        self.fleet_state_checksum@
    }

    pub closed spec fn spec_announce_nodes(self) -> Seq<NodeMetadata> {
        self.announce_nodes@
    }

    /// The two named fields of the payload.
    pub open spec fn spec_fields(self) -> Seq<(u32, FieldVal)> {
        seq![
            (NAME_CHECKSUM, FieldVal::Bytes(self.spec_fleet_state_checksum())),
            (NAME_NODES, FieldVal::Bytes(enc_bytes_seq(spec_node_bytes(self.spec_announce_nodes())))),
        ]
    }

    pub open spec fn spec_payload(self) -> Seq<u8> {
        enc_payload(self.spec_fields())
    }

    /// The full wire form of the request.
    pub open spec fn spec_bytes(self) -> Seq<u8> {
        enc_envelope(BRAND_METADATA_REQUEST, PROTOCOL_MAJOR, PROTOCOL_MINOR, self.spec_payload())
    }

    /// Bundles the sender's checksum with the nodes it announces.
    pub fn new(fleet_state_checksum: &FleetStateChecksum, announce_nodes: &Vec<NodeMetadata>) -> (r:
        MetadataRequest)
        requires
            announce_nodes@.len() <= 0x200,
        ensures
            r.spec_fleet_state_checksum() == fleet_state_checksum@,
            r.spec_announce_nodes().len() == announce_nodes@.len(),
            forall|i: int|
                0 <= i < announce_nodes@.len() ==> (#[trigger] r.spec_announce_nodes()[i]).spec_bytes()
                    == announce_nodes@[i].spec_bytes(),
    {
        proof {
            use_type_invariant(fleet_state_checksum);
        }
        let copied = duplicate_nodes(announce_nodes);
        MetadataRequest {
            fleet_state_checksum: fleet_state_checksum.duplicate(),
            announce_nodes: copied,
        }
    }

    /// The sender's directory checksum.
    pub fn fleet_state_checksum(&self) -> (r: FleetStateChecksum)
        ensures
            r@ == self.spec_fleet_state_checksum(),
    {
        self.fleet_state_checksum.duplicate()
    }

    /// The announced nodes.
    pub fn announce_nodes(&self) -> (r: Vec<NodeMetadata>)
        ensures
            r@.len() == self.spec_announce_nodes().len(),
            forall|i: int|
                0 <= i < r@.len() ==> (#[trigger] r@[i]).spec_bytes()
                    == self.spec_announce_nodes()[i].spec_bytes(),
    {
        duplicate_nodes(&self.announce_nodes)
    }

    /// Serializes the request; the result is exactly its wire form.
    pub fn to_bytes(&self) -> (r: Vec<u8>)
        ensures
            r@ == self.spec_bytes(),
    {
        proof {
            use_type_invariant(&*self);
            lemma_node_blob_bound(self.spec_announce_nodes());
        }
        let blob = write_node_blob(&self.announce_nodes);
        let mut payload: Vec<u8> = Vec::new();
        write_u8(&mut payload, 2);
        write_field_bytes(
            &mut payload,
            NAME_CHECKSUM,
            self.fleet_state_checksum.to_bytes().as_slice(),
        );
        write_field_bytes(&mut payload, NAME_NODES, blob.as_slice());
        proof {
            crate::fields::lemma_enc_fields_unfold2(self.spec_fields());
            assert(payload@ =~= self.spec_payload());
        }
        write_envelope(BRAND_METADATA_REQUEST, &payload)
    }

    /// Parses a request from its wire form.  Exactly the encodings of
    /// well-formed requests are accepted.
    pub fn from_bytes(data: &[u8]) -> (r: Result<MetadataRequest, Error>)
        ensures
            r matches Ok(v) ==> data@ == v.spec_bytes(),
            forall|v: MetadataRequest| v.wf() && data@ == #[trigger] v.spec_bytes() ==> r is Ok,
            crate::codec::header_error(data@, BRAND_METADATA_REQUEST) matches Some(e) ==> r
                == Err::<MetadataRequest, Error>(e),
            r matches Err(e) ==> (crate::codec::header_error(data@, BRAND_METADATA_REQUEST)
                == Some(e) || (crate::codec::header_error(data@, BRAND_METADATA_REQUEST) is None
                && e == Error::FieldError)),
    {
        let ghost hyp = exists|v: MetadataRequest| v.wf() && data@ == #[trigger] v.spec_bytes();
        let ghost w: MetadataRequest = if hyp {
            choose|v: MetadataRequest| v.wf() && data@ == #[trigger] v.spec_bytes()
        } else {
            arbitrary()
        };
        proof {
            if hyp {
                lemma_peel_envelope(
                    data@,
                    BRAND_METADATA_REQUEST,
                    PROTOCOL_MAJOR,
                    PROTOCOL_MINOR,
                    w.spec_payload(),
                );
                lemma_node_blob_bound(w.spec_announce_nodes());
                assert(fields_fit(w.spec_fields()));
            }
        }
        let pos0 = match read_envelope(data, BRAND_METADATA_REQUEST) {
            Ok(p) => p,
            Err(e) => {
                proof {
                    assert(!hyp);
                }
                return Err(e);
            },
        };
        let mut fs = match parse_payload(data, pos0) {
            Some(fs) => fs,
            None => {
                proof {
                    assert(!hyp);
                }
                return Err(Error::FieldError);
            },
        };
        let ghost fl = field_views(fs@);
        proof {
            if hyp {
                assert(fl == w.spec_fields());
            }
        }
        if fs.len() != 2 {
            proof {
                assert(!hyp);
            }
            return Err(Error::FieldError);
        }
        let f0 = fs.remove(0);
        let f1 = fs.remove(0);
        proof {
            assert(crate::fields::field_view(f0.1) == fl[0].1);
            assert(crate::fields::field_view(f1.1) == fl[1].1);
        }
        if f0.0 != NAME_CHECKSUM || f1.0 != NAME_NODES {
            proof {
                assert(!hyp);
            }
            return Err(Error::FieldError);
        }
        let checksum_bytes = match f0.1 {
            ParsedField::Bytes(b) => b,
            _ => {
                proof {
                    assert(!hyp);
                }
                return Err(Error::FieldError);
            },
        };
        let fleet_state_checksum = match FleetStateChecksum::from_bytes(checksum_bytes.as_slice()) {
            Ok(c) => c,
            Err(_) => {
                proof {
                    assert(!hyp);
                }
                return Err(Error::FieldError);
            },
        };
        let blob = match f1.1 {
            ParsedField::Bytes(b) => b,
            _ => {
                proof {
                    assert(!hyp);
                }
                return Err(Error::FieldError);
            },
        };
        proof {
            assert(blob@.subrange(0, blob@.len() as int) =~= blob@);
        }
        let items = match parse_items(blob.as_slice()) {
            Some(items) => items,
            None => {
                proof {
                    assert(!hyp);
                }
                return Err(Error::FieldError);
            },
        };
        if items.len() > 0x200 {
            proof {
                assert(!hyp);
            }
            return Err(Error::FieldError);
        }
        let announce_nodes = match parse_node_items(&items, Ghost(data@), Ghost(hyp), Ghost(
            spec_node_bytes(w.spec_announce_nodes()),
        )) {
            Ok(nodes) => nodes,
            Err(_) => {
                proof {
                    assert(!hyp);
                }
                return Err(Error::FieldError);
            },
        };
        proof {
            use_type_invariant(&fleet_state_checksum);
        }
        let result = MetadataRequest { fleet_state_checksum, announce_nodes };
        proof {
            assert(spec_node_bytes(result.spec_announce_nodes()) =~= views_of(items@));
            assert(result.spec_fields() =~= fl);
            assert(crate::codec::u16_val(data@.subrange(6, 8)) == PROTOCOL_MINOR);
            lemma_envelope_assemble(data@, BRAND_METADATA_REQUEST);
            assert(data@ == result.spec_bytes());
        }
        Ok(result)
    }
}

/// Parses each item of a list as an announcement.  When the caller knows
/// the items are the wire forms of well-formed announcements, parsing is
/// owed to succeed.
#[verifier::loop_isolation(false)]
fn parse_node_items(
    items: &Vec<Vec<u8>>,
    Ghost(data): Ghost<Seq<u8>>,
    Ghost(hyp): Ghost<bool>,
    Ghost(expected): Ghost<Seq<Seq<u8>>>,
) -> (r: Result<Vec<NodeMetadata>, Error>)
    requires
        hyp ==> views_of(items@) == expected && (forall|i: int|
            0 <= i < expected.len() ==> exists|n: NodeMetadata|
                (#[trigger] expected[i]) == n.spec_bytes() && n.wf()),
    ensures
        r matches Ok(nodes) ==> {
            &&& nodes@.len() == items@.len()
            &&& forall|i: int|
                0 <= i < nodes@.len() ==> (#[trigger] nodes@[i]).wf()
                    && nodes@[i].spec_bytes() == views_of(items@)[i]
        },
        hyp ==> r is Ok,
{
    let mut nodes: Vec<NodeMetadata> = Vec::new();
    let mut k: usize = 0;
    while k < items.len()
        invariant
            k <= items@.len(),
            nodes@.len() == k,
            forall|i: int|
                0 <= i < k as int ==> (#[trigger] nodes@[i]).wf() && nodes@[i].spec_bytes()
                    == views_of(items@)[i],
        decreases items@.len() - k,
    {
        let node = match NodeMetadata::from_bytes(items[k].as_slice()) {
            Ok(n) => n,
            Err(_) => {
                proof {
                    if hyp {
                        assert(views_of(items@)[k as int] == items@[k as int]@);
                        let n = choose|n: NodeMetadata|
                            (#[trigger] expected[k as int]) == n.spec_bytes() && n.wf();
                        assert(items@[k as int]@ == n.spec_bytes());
                    }
                    assert(!hyp);
                }
                return Err(Error::FieldError);
            },
        };
        proof {
            use_type_invariant(&node);
            assert(views_of(items@)[k as int] == items@[k as int]@);
        }
        nodes.push(node);
        k = k + 1;
    }
    Ok(nodes)
}

/// The unsigned contents of a gossip response: a timestamp and the nodes
/// the responder announces.
#[derive(Debug, PartialEq, Eq)]
pub struct MetadataResponsePayload {
    timestamp_epoch: u32,
    announce_nodes: Vec<NodeMetadata>,
}

impl MetadataResponsePayload {
    /// A bounded, well-formed announcement list.
    #[verifier::type_invariant]
    pub open spec fn wf(self) -> bool {
        nodes_wf(self.spec_announce_nodes())
    }

    pub closed spec fn spec_timestamp_epoch(self) -> u32 {
        self.timestamp_epoch
    }

    pub closed spec fn spec_announce_nodes(self) -> Seq<NodeMetadata> {
        self.announce_nodes@
    }

    /// The two named fields of the payload.
    pub open spec fn spec_fields(self) -> Seq<(u32, FieldVal)> {
        seq![
            (NAME_TIMESTAMP, FieldVal::U32(self.spec_timestamp_epoch())),
            (NAME_NODES, FieldVal::Bytes(enc_bytes_seq(spec_node_bytes(self.spec_announce_nodes())))),
        ]
    }

    pub open spec fn spec_payload(self) -> Seq<u8> {
        enc_payload(self.spec_fields())
    }

    /// The full wire form of the contents, which is also what the
    /// responder signs.
    pub open spec fn spec_bytes(self) -> Seq<u8> {
        enc_envelope(
            BRAND_METADATA_RESPONSE_PAYLOAD,
            PROTOCOL_MAJOR,
            PROTOCOL_MINOR,
            self.spec_payload(),
        )
    }

    /// Bounds the wire form of well-formed contents.
    pub proof fn lemma_bytes_len_bound(self)
        requires
            self.wf(),
        ensures
            self.spec_bytes().len() <= 0xC200_0000,
    {
        lemma_node_blob_bound(self.spec_announce_nodes());
        crate::fields::lemma_enc_fields_unfold2(self.spec_fields());
    }

    /// Bundles a timestamp with the announced nodes.
    pub fn new(timestamp_epoch: u32, announce_nodes: &Vec<NodeMetadata>) -> (r:
        MetadataResponsePayload)
        requires
            announce_nodes@.len() <= 0x200,
        ensures
            r.spec_timestamp_epoch() == timestamp_epoch,
            r.spec_announce_nodes().len() == announce_nodes@.len(),
            forall|i: int|
                0 <= i < announce_nodes@.len() ==> (#[trigger] r.spec_announce_nodes()[i]).spec_bytes()
                    == announce_nodes@[i].spec_bytes(),
    {
        let copied = duplicate_nodes(announce_nodes);
        MetadataResponsePayload { timestamp_epoch, announce_nodes: copied }
    }

    /// The response timestamp, in epoch seconds.
    pub fn timestamp_epoch(&self) -> (r: u32)
        ensures
            r == self.spec_timestamp_epoch(),
    {
        self.timestamp_epoch
    }

    /// The announced nodes.
    pub fn announce_nodes(&self) -> (r: Vec<NodeMetadata>)
        ensures
            r@.len() == self.spec_announce_nodes().len(),
            forall|i: int|
                0 <= i < r@.len() ==> (#[trigger] r@[i]).spec_bytes()
                    == self.spec_announce_nodes()[i].spec_bytes(),
    {
        duplicate_nodes(&self.announce_nodes)
    }

    /// An owned copy of the contents.
    pub fn duplicate(&self) -> (r: MetadataResponsePayload)
        ensures
            r.spec_bytes() == self.spec_bytes(),
            r.spec_timestamp_epoch() == self.spec_timestamp_epoch(),
            r.spec_announce_nodes().len() == self.spec_announce_nodes().len(),
            forall|i: int|
                0 <= i < r.spec_announce_nodes().len()
                    ==> (#[trigger] r.spec_announce_nodes()[i]).spec_bytes()
                    == self.spec_announce_nodes()[i].spec_bytes(),
    {
        proof {
            use_type_invariant(&*self);
        }
        let copied = duplicate_nodes(&self.announce_nodes);
        let r = MetadataResponsePayload {
            timestamp_epoch: self.timestamp_epoch,
            announce_nodes: copied,
        };
        proof {
            assert(spec_node_bytes(r.spec_announce_nodes()) =~= spec_node_bytes(
                self.spec_announce_nodes(),
            ));
            assert(r.spec_fields() =~= self.spec_fields());
        }
        r
    }

    /// Serializes the contents; the result is exactly the wire form.
    pub fn to_bytes(&self) -> (r: Vec<u8>)
        ensures
            r@ == self.spec_bytes(),
    {
        proof {
            use_type_invariant(&*self);
            lemma_node_blob_bound(self.spec_announce_nodes());
        }
        let blob = write_node_blob(&self.announce_nodes);
        let mut payload: Vec<u8> = Vec::new();
        write_u8(&mut payload, 2);
        write_field_u32(&mut payload, NAME_TIMESTAMP, self.timestamp_epoch);
        write_field_bytes(&mut payload, NAME_NODES, blob.as_slice());
        proof {
            crate::fields::lemma_enc_fields_unfold2(self.spec_fields());
            assert(payload@ =~= self.spec_payload());
        }
        write_envelope(BRAND_METADATA_RESPONSE_PAYLOAD, &payload)
    }

    /// Parses the contents from their wire form.  Exactly the encodings of
    /// well-formed contents are accepted.
    pub fn from_bytes(data: &[u8]) -> (r: Result<MetadataResponsePayload, Error>)
        ensures
            r matches Ok(v) ==> data@ == v.spec_bytes(),
            forall|v: MetadataResponsePayload|
                v.wf() && data@ == #[trigger] v.spec_bytes() ==> r is Ok,
            crate::codec::header_error(data@, BRAND_METADATA_RESPONSE_PAYLOAD) matches Some(e)
                ==> r == Err::<MetadataResponsePayload, Error>(e),
            r matches Err(e) ==> (crate::codec::header_error(
                data@,
                BRAND_METADATA_RESPONSE_PAYLOAD,
            ) == Some(e) || (crate::codec::header_error(data@, BRAND_METADATA_RESPONSE_PAYLOAD)
                is None && e == Error::FieldError)),
    {
        let ghost hyp = exists|v: MetadataResponsePayload|
            v.wf() && data@ == #[trigger] v.spec_bytes();
        let ghost w: MetadataResponsePayload = if hyp {
            choose|v: MetadataResponsePayload| v.wf() && data@ == #[trigger] v.spec_bytes()
        } else {
            arbitrary()
        };
        proof {
            if hyp {
                lemma_peel_envelope(
                    data@,
                    BRAND_METADATA_RESPONSE_PAYLOAD,
                    PROTOCOL_MAJOR,
                    PROTOCOL_MINOR,
                    w.spec_payload(),
                );
                lemma_node_blob_bound(w.spec_announce_nodes());
                assert(fields_fit(w.spec_fields()));
            }
        }
        let pos0 = match read_envelope(data, BRAND_METADATA_RESPONSE_PAYLOAD) {
            Ok(p) => p,
            Err(e) => {
                proof {
                    assert(!hyp);
                }
                return Err(e);
            },
        };
        let mut fs = match parse_payload(data, pos0) {
            Some(fs) => fs,
            None => {
                proof {
                    assert(!hyp);
                }
                return Err(Error::FieldError);
            },
        };
        let ghost fl = field_views(fs@);
        proof {
            if hyp {
                assert(fl == w.spec_fields());
            }
        }
        if fs.len() != 2 {
            proof {
                assert(!hyp);
            }
            return Err(Error::FieldError);
        }
        let f0 = fs.remove(0);
        let f1 = fs.remove(0);
        proof {
            assert(crate::fields::field_view(f0.1) == fl[0].1);
            assert(crate::fields::field_view(f1.1) == fl[1].1);
        }
        if f0.0 != NAME_TIMESTAMP || f1.0 != NAME_NODES {
            proof {
                assert(!hyp);
            }
            return Err(Error::FieldError);
        }
        let timestamp_epoch = match f0.1 {
            ParsedField::U32(x) => x,
            _ => {
                proof {
                    assert(!hyp);
                }
                return Err(Error::FieldError);
            },
        };
        let blob = match f1.1 {
            ParsedField::Bytes(b) => b,
            _ => {
                proof {
                    assert(!hyp);
                }
                return Err(Error::FieldError);
            },
        };
        proof {
            assert(blob@.subrange(0, blob@.len() as int) =~= blob@);
        }
        let items = match parse_items(blob.as_slice()) {
            Some(items) => items,
            None => {
                proof {
                    assert(!hyp);
                }
                return Err(Error::FieldError);
            },
        };
        if items.len() > 0x200 {
            proof {
                assert(!hyp);
            }
            return Err(Error::FieldError);
        }
        let announce_nodes = match parse_node_items(&items, Ghost(data@), Ghost(hyp), Ghost(
            spec_node_bytes(w.spec_announce_nodes()),
        )) {
            Ok(nodes) => nodes,
            Err(_) => {
                proof {
                    assert(!hyp);
                }
                return Err(Error::FieldError);
            },
        };
        let result = MetadataResponsePayload { timestamp_epoch, announce_nodes };
        proof {
            assert(spec_node_bytes(result.spec_announce_nodes()) =~= views_of(items@));
            assert(result.spec_fields() =~= fl);
            assert(crate::codec::u16_val(data@.subrange(6, 8)) == PROTOCOL_MINOR);
            lemma_envelope_assemble(data@, BRAND_METADATA_RESPONSE_PAYLOAD);
            assert(data@ == result.spec_bytes());
        }
        Ok(result)
    }
}

/// A signed gossip response: the contents must verify against the
/// requester's chosen key before the announced nodes are trusted.
#[derive(Debug, PartialEq, Eq)]
pub struct MetadataResponse {
    payload: MetadataResponsePayload,
    signature: Vec<u8>,
}

impl MetadataResponse {
    /// Well-formed contents and a 64-byte signature.
    #[verifier::type_invariant]
    pub open spec fn wf(self) -> bool {
        &&& self.spec_response_payload().wf()
        &&& self.spec_signature().len() == 64
    }

    pub closed spec fn spec_response_payload(self) -> MetadataResponsePayload {
        self.payload
    }

    pub closed spec fn spec_signature(self) -> Seq<u8> {
        self.signature@
    }

    /// The two named fields of the message.
    pub open spec fn spec_fields(self) -> Seq<(u32, FieldVal)> {
        seq![
            (NAME_PAYLOAD, FieldVal::Bytes(self.spec_response_payload().spec_bytes())),
            (NAME_SIGNATURE, FieldVal::Bytes(self.spec_signature())),
        ]
    }

    pub open spec fn spec_payload(self) -> Seq<u8> {
        enc_payload(self.spec_fields())
    }

    /// The full wire form of the response.
    pub open spec fn spec_bytes(self) -> Seq<u8> {
        enc_envelope(BRAND_METADATA_RESPONSE, PROTOCOL_MAJOR, PROTOCOL_MINOR, self.spec_payload())
    }

    /// Signs the response contents, over their exact wire form.
    pub fn new(signer: &Signer, response: &MetadataResponsePayload) -> (r: MetadataResponse)
        ensures
            r.spec_response_payload().spec_bytes() == response.spec_bytes(),
            r.spec_response_payload().spec_timestamp_epoch() == response.spec_timestamp_epoch(),
            r.spec_response_payload().spec_announce_nodes().len()
                == response.spec_announce_nodes().len(),
            forall|i: int|
                0 <= i < response.spec_announce_nodes().len()
                    ==> (#[trigger] r.spec_response_payload().spec_announce_nodes()[i]).spec_bytes()
                    == response.spec_announce_nodes()[i].spec_bytes(),
            engine::sig_valid(
                r.spec_signature(),
                signer.spec_verifying_key(),
                response.spec_bytes(),
            ),
    {
        let message = response.to_bytes();
        let signature = signer.sign(message.as_slice());
        let copied = response.duplicate();
        proof {
            use_type_invariant(&copied);
        }
        MetadataResponse { payload: copied, signature }
    }

    /// Checks the responder's signature over the contents' wire form and,
    /// exactly when it holds, releases the contents for the requester to
    /// merge.
    pub fn verify(&self, verifying_pk: &PublicKey) -> (r: Result<MetadataResponsePayload, Error>)
        ensures
            r is Ok <==> engine::sig_valid(
                self.spec_signature(),
                verifying_pk@,
                self.spec_response_payload().spec_bytes(),
            ),
            r matches Ok(p) ==> {
                &&& p.spec_bytes() == self.spec_response_payload().spec_bytes()
                &&& p.spec_timestamp_epoch()
                    == self.spec_response_payload().spec_timestamp_epoch()
                &&& p.spec_announce_nodes().len()
                    == self.spec_response_payload().spec_announce_nodes().len()
                &&& forall|i: int|
                    0 <= i < p.spec_announce_nodes().len()
                        ==> (#[trigger] p.spec_announce_nodes()[i]).spec_bytes()
                        == self.spec_response_payload().spec_announce_nodes()[i].spec_bytes()
            },
            r is Err ==> r == Err::<MetadataResponsePayload, Error>(Error::CryptoError),
    {
        proof {
            use_type_invariant(&*self);
        }
        let message = self.payload.to_bytes();
        let vk = verifying_pk.to_compressed_bytes();
        let ok = engine::verify_signature_bytes(
            self.signature.as_slice(),
            vk.as_slice(),
            message.as_slice(),
        );
        if !ok {
            return Err(Error::CryptoError);
        }
        Ok(self.payload.duplicate())
    }

    /// Serializes the response; the result is exactly its wire form.
    pub fn to_bytes(&self) -> (r: Vec<u8>)
        ensures
            r@ == self.spec_bytes(),
    {
        proof {
            use_type_invariant(&*self);
            self.spec_response_payload().lemma_bytes_len_bound();
        }
        let payload_bytes = self.payload.to_bytes();
        let mut payload: Vec<u8> = Vec::new();
        write_u8(&mut payload, 2);
        write_field_bytes(&mut payload, NAME_PAYLOAD, payload_bytes.as_slice());
        write_field_bytes(&mut payload, NAME_SIGNATURE, self.signature.as_slice());
        proof {
            crate::fields::lemma_enc_fields_unfold2(self.spec_fields());
            assert(payload@ =~= self.spec_payload());
        }
        write_envelope(BRAND_METADATA_RESPONSE, &payload)
    }

    /// Parses a response from its wire form.  Exactly the encodings of
    /// well-formed responses are accepted.
    pub fn from_bytes(data: &[u8]) -> (r: Result<MetadataResponse, Error>)
        ensures
            r matches Ok(v) ==> data@ == v.spec_bytes(),
            forall|v: MetadataResponse| v.wf() && data@ == #[trigger] v.spec_bytes() ==> r is Ok,
            crate::codec::header_error(data@, BRAND_METADATA_RESPONSE) matches Some(e) ==> r
                == Err::<MetadataResponse, Error>(e),
            r matches Err(e) ==> (crate::codec::header_error(data@, BRAND_METADATA_RESPONSE)
                == Some(e) || (crate::codec::header_error(data@, BRAND_METADATA_RESPONSE) is None
                && e == Error::FieldError)),
    {
        let ghost hyp = exists|v: MetadataResponse| v.wf() && data@ == #[trigger] v.spec_bytes();
        let ghost w: MetadataResponse = if hyp {
            choose|v: MetadataResponse| v.wf() && data@ == #[trigger] v.spec_bytes()
        } else {
            arbitrary()
        };
        proof {
            if hyp {
                lemma_peel_envelope(
                    data@,
                    BRAND_METADATA_RESPONSE,
                    PROTOCOL_MAJOR,
                    PROTOCOL_MINOR,
                    w.spec_payload(),
                );
                w.spec_response_payload().lemma_bytes_len_bound();
                assert(fields_fit(w.spec_fields()));
            }
        }
        let pos0 = match read_envelope(data, BRAND_METADATA_RESPONSE) {
            Ok(p) => p,
            Err(e) => {
                proof {
                    assert(!hyp);
                }
                return Err(e);
            },
        };
        let mut fs = match parse_payload(data, pos0) {
            Some(fs) => fs,
            None => {
                proof {
                    assert(!hyp);
                }
                return Err(Error::FieldError);
            },
        };
        let ghost fl = field_views(fs@);
        proof {
            if hyp {
                assert(fl == w.spec_fields());
            }
        }
        if fs.len() != 2 {
            proof {
                assert(!hyp);
            }
            return Err(Error::FieldError);
        }
        let f0 = fs.remove(0);
        let f1 = fs.remove(0);
        proof {
            assert(crate::fields::field_view(f0.1) == fl[0].1);
            assert(crate::fields::field_view(f1.1) == fl[1].1);
        }
        if f0.0 != NAME_PAYLOAD || f1.0 != NAME_SIGNATURE {
            proof {
                assert(!hyp);
            }
            return Err(Error::FieldError);
        }
        let payload_bytes = match f0.1 {
            ParsedField::Bytes(b) => b,
            _ => {
                proof {
                    assert(!hyp);
                }
                return Err(Error::FieldError);
            },
        };
        let payload = match MetadataResponsePayload::from_bytes(payload_bytes.as_slice()) {
            Ok(p) => p,
            Err(_) => {
                proof {
                    assert(!hyp);
                }
                return Err(Error::FieldError);
            },
        };
        let signature = match f1.1 {
            ParsedField::Bytes(b) => b,
            _ => {
                proof {
                    assert(!hyp);
                }
                return Err(Error::FieldError);
            },
        };
        if signature.len() != 64 {
            proof {
                assert(!hyp);
            }
            return Err(Error::FieldError);
        }
        proof {
            use_type_invariant(&payload);
        }
        let result = MetadataResponse { payload, signature };
        proof {
            assert(result.spec_fields() =~= fl);
            assert(crate::codec::u16_val(data@.subrange(6, 8)) == PROTOCOL_MINOR);
            lemma_envelope_assemble(data@, BRAND_METADATA_RESPONSE);
            assert(data@ == result.spec_bytes());
        }
        Ok(result)
    }
}

} // verus!
