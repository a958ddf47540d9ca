use vstd::prelude::*;

use crate::address::Address;
use crate::codec::{
    enc_bytes_seq, enc_envelope, fits_u32, lemma_envelope_assemble, parse_items, read_envelope,
    views_of, write_blob, write_envelope, write_u8, PROTOCOL_MAJOR, PROTOCOL_MINOR,
};
use crate::errors::Error;
use crate::fields::{
    enc_payload, field_views, parse_payload, write_field_bytes, FieldVal, ParsedField,
};
use crate::keys::clone_bytes;
use crate::message_kit::MessageKit;

verus! {

/// The four ASCII bytes "RKit", as a little-endian word.
pub const BRAND_RETRIEVAL_KIT: u32 = 0x74694B52;

/// Field name "caps": the capsule.
pub const NAME_CAPSULE: u32 = 0x73706163;

/// Field name "addr": the queried addresses.
pub const NAME_ADDRESSES: u32 = 0x72646461;

/// The addresses a retrieval already queried, as their 20-byte strings.
pub open spec fn spec_addr_views(s: Seq<Address>) -> Seq<Seq<u8>> {
    s.map_values(|a: Address| a@)
}

/// The queried addresses in strictly ascending order: no address occurs
/// twice, and iteration order is canonical.
pub open spec fn addrs_sorted(s: Seq<Address>) -> bool {
    forall|i: int, j: int|
        0 <= i < j < s.len() ==> crate::address::lex_lt((#[trigger] s[i])@, (#[trigger] s[j])@)
}

/// Whether the list holds an address with these bytes.
pub open spec fn addr_in_list(a: Seq<u8>, list: Seq<Address>) -> bool {
    exists|k: int| 0 <= k < list.len() && (#[trigger] list[k])@ == a
}

/// The addresses of a list, read as base-256 numbers.
pub open spec fn addr_list_nums(s: Seq<Address>) -> Seq<int> {
    s.map_values(|a: Address| crate::address::addr_num(a@))
}

/// A strictly ordered address list holds no duplicates.
pub proof fn lemma_sorted_addrs_distinct(s: Seq<Address>)
    requires
        addrs_sorted(s),
    ensures
        forall|i: int, j: int| 0 <= i < j < s.len() ==> (#[trigger] s[i])@ != (#[trigger] s[j])@,
{
    assert forall|i: int, j: int|
        0 <= i < j < s.len() implies (#[trigger] s[i])@ != (#[trigger] s[j])@ by {
        crate::address::lemma_lex_trichotomy(s[i]@, s[j]@);
    }
}

/// Inserts an address into a strictly sorted list; an address already
/// present is a no-op.  The stored address set gains exactly the new
/// address, stated over address numbers for the set bookkeeping.
fn insert_addr(list: &mut Vec<Address>, addr: Address)
    requires
        addrs_sorted(old(list)@),
        addr@.len() == 20,
        forall|k: int| 0 <= k < old(list)@.len() ==> (#[trigger] old(list)@[k])@.len() == 20,
    ensures
        addrs_sorted(final(list)@),
        forall|k: int| 0 <= k < final(list)@.len() ==> (#[trigger] final(list)@[k])@.len() == 20,
        final(list)@.len() <= old(list)@.len() + 1,
        crate::address::num_in_prefix(
            crate::address::addr_num(addr@),
            addr_list_nums(final(list)@),
            final(list)@.len() as int,
        ),
        forall|k: int| #![trigger addr_list_nums(final(list)@)[k]]
            0 <= k < final(list)@.len() ==> (addr_list_nums(final(list)@)[k]
                == crate::address::addr_num(addr@) || crate::address::num_in_prefix(
                addr_list_nums(final(list)@)[k],
                addr_list_nums(old(list)@),
                old(list)@.len() as int,
            )),
        forall|j: int| #![trigger addr_list_nums(old(list)@)[j]]
            0 <= j < old(list)@.len() ==> crate::address::num_in_prefix(
                addr_list_nums(old(list)@)[j],
                addr_list_nums(final(list)@),
                final(list)@.len() as int,
            ),
{
    let ghost old_seq = list@;
    let ghost an = crate::address::addr_num(addr@);
    let mut i: usize = 0;
    while i < list.len() && crate::address::bytes_lt(
        list[i].bytes_ref().as_slice(),
        addr.bytes_ref().as_slice(),
    )
        invariant
            list@ == old_seq,
            addrs_sorted(list@),
            i <= list@.len(),
            forall|j: int|
                0 <= j < i as int ==> crate::address::lex_lt((#[trigger] list@[j])@, addr@),
        decreases list@.len() - i,
    {
        i = i + 1;
    }
    if i < list.len() && crate::address::bytes_eq(
        list[i].bytes_ref().as_slice(),
        addr.bytes_ref().as_slice(),
    ) {
        proof {
            assert(list@[i as int]@ == addr@);
            assert(addr_list_nums(list@)[i as int] == an);
            assert(crate::address::num_in_prefix(an, addr_list_nums(list@), list@.len() as int));
            assert forall|k: int|
                0 <= k < list@.len() implies (addr_list_nums(list@)[k] == an
                    || crate::address::num_in_prefix(
                    #[trigger] addr_list_nums(list@)[k],
                    addr_list_nums(old_seq),
                    old_seq.len() as int,
                )) by {
                assert(addr_list_nums(list@)[k] == addr_list_nums(old_seq)[k]);
            }
            assert forall|j: int|
                0 <= j < old_seq.len() implies crate::address::num_in_prefix(
                #[trigger] addr_list_nums(old_seq)[j],
                addr_list_nums(list@),
                list@.len() as int,
            ) by {
                assert(addr_list_nums(list@)[j] == addr_list_nums(old_seq)[j]);
            }
        }
        return ;
    }
    let ghost at = i as int;
    list.insert(i, addr);
    proof {
        let s = list@;
        assert(s =~= old_seq.insert(at, addr));
        assert(s[at]@ == addr@);
        assert forall|p: int, q: int| 0 <= p < q < s.len() implies crate::address::lex_lt(
            (#[trigger] s[p])@,
            (#[trigger] s[q])@,
        ) by {
            if at < old_seq.len() {
                crate::address::lemma_lex_trichotomy(old_seq[at]@, addr@);
            }
            if p == at && q > at {
                if q > at + 1 {
                    crate::address::lemma_lex_lt_transitive(addr@, old_seq[at]@, old_seq[q - 1]@);
                }
            }
            if p < at && q > at {
                if q > at + 1 {
                    assert(crate::address::lex_lt(old_seq[p]@, old_seq[q - 1]@));
                }
            }
            if p > at {
                assert(crate::address::lex_lt(old_seq[p - 1]@, old_seq[q - 1]@));
            }
            if q < at {
                assert(crate::address::lex_lt(old_seq[p]@, old_seq[q]@));
            }
        }
        assert(addr_list_nums(s)[at] == an);
        assert(crate::address::num_in_prefix(an, addr_list_nums(s), s.len() as int));
        assert forall|k: int|
            0 <= k < s.len() implies (addr_list_nums(s)[k] == an
                || crate::address::num_in_prefix(
                #[trigger] addr_list_nums(s)[k],
                addr_list_nums(old_seq),
                old_seq.len() as int,
            )) by {
            if k < at {
                assert(s[k] == old_seq[k]);
                assert(addr_list_nums(s)[k] == addr_list_nums(old_seq)[k]);
            } else if k > at {
                assert(s[k] == old_seq[k - 1]);
                assert(addr_list_nums(s)[k] == addr_list_nums(old_seq)[k - 1]);
            }
        }
        assert forall|j: int|
            0 <= j < old_seq.len() implies crate::address::num_in_prefix(
            #[trigger] addr_list_nums(old_seq)[j],
            addr_list_nums(s),
            s.len() as int,
        ) by {
            if j < at {
                assert(s[j] == old_seq[j]);
                assert(addr_list_nums(s)[j] == addr_list_nums(old_seq)[j]);
            } else {
                assert(s[j + 1] == old_seq[j]);
                assert(addr_list_nums(s)[j + 1] == addr_list_nums(old_seq)[j]);
            }
        }
    }
}

/// A retrieval bundle: the capsule to be re-encrypted and the node
/// addresses already queried, so a retry can skip them.
#[derive(Debug, PartialEq, Eq)]
pub struct RetrievalKit {
    capsule: Vec<u8>,
    queried_addresses: Vec<Address>,
}

impl RetrievalKit {
    /// A bounded capsule and a bounded list of 20-byte addresses.
    #[verifier::type_invariant]
    pub open spec fn wf(self) -> bool {
        &&& fits_u32(self.spec_capsule().len() as int)
        &&& self.spec_queried_addresses().len() <= 0x1000
        &&& forall|i: int|
            0 <= i < self.spec_queried_addresses().len()
                ==> (#[trigger] self.spec_queried_addresses()[i])@.len() == 20
        &&& addrs_sorted(self.spec_queried_addresses())
    }

    pub closed spec fn spec_capsule(self) -> Seq<u8> {
        self.capsule@
    }

    pub closed spec fn spec_queried_addresses(self) -> Seq<Address> {
        self.queried_addresses@
    }

    /// The two named fields of the payload.
    pub open spec fn spec_fields(self) -> Seq<(u32, FieldVal)> {
        seq![
            (NAME_CAPSULE, FieldVal::Bytes(self.spec_capsule())),
            (NAME_ADDRESSES, FieldVal::Bytes(enc_bytes_seq(spec_addr_views(self.spec_queried_addresses())))),
        ]
    }

    pub open spec fn spec_payload(self) -> Seq<u8> {
        enc_payload(self.spec_fields())
    }

    /// The full wire form of the kit.
    pub open spec fn spec_bytes(self) -> Seq<u8> {
        enc_envelope(BRAND_RETRIEVAL_KIT, PROTOCOL_MAJOR, PROTOCOL_MINOR, self.spec_payload())
    }

    /// Starts a retrieval from a message kit, with no addresses queried yet.
    pub fn from_message_kit(message_kit: &MessageKit) -> (r: RetrievalKit)
        ensures
            r.spec_capsule() == message_kit.spec_capsule(),
            r.spec_queried_addresses().len() == 0,
    {
        proof {
            use_type_invariant(message_kit);
        }
        RetrievalKit { capsule: message_kit.capsule(), queried_addresses: Vec::new() }
    }

    /// Bundles a capsule with the addresses already queried.  The stored
    /// addresses are the set of input addresses, kept in canonical
    /// ascending order: repeating an input address is a no-op.
    #[verifier::rlimit(100)]
    pub fn new(capsule: &[u8], queried_addresses: &Vec<Address>) -> (r: RetrievalKit)
        requires
            fits_u32(capsule@.len() as int),
            queried_addresses@.len() <= 0x1000,
        ensures
            r.spec_capsule() == capsule@,
            addrs_sorted(r.spec_queried_addresses()),
            r.spec_queried_addresses().len() <= queried_addresses@.len(),
            // every input address is stored
            forall|i: int| #![trigger queried_addresses@[i]]
                0 <= i < queried_addresses@.len() ==> addr_in_list(
                    queried_addresses@[i]@,
                    r.spec_queried_addresses(),
                ),
            // nothing else is stored
            forall|k: int| #![trigger r.spec_queried_addresses()[k]]
                0 <= k < r.spec_queried_addresses().len() ==> addr_in_list(
                    r.spec_queried_addresses()[k]@,
                    queried_addresses@,
                ),
    {
        let ghost aa = addr_list_nums(queried_addresses@);
        let mut copied: Vec<Address> = Vec::new();
        let mut k: usize = 0;
        while k < queried_addresses.len()
            invariant
                k <= queried_addresses@.len(),
                copied@.len() <= k,
                aa == addr_list_nums(queried_addresses@),
                addrs_sorted(copied@),
                forall|i: int| 0 <= i < copied@.len() ==> (#[trigger] copied@[i])@.len() == 20,
                forall|i: int|
                    0 <= i < k as int ==> (#[trigger] queried_addresses@[i])@.len() == 20,
                forall|kk: int| #![trigger addr_list_nums(copied@)[kk]]
                    0 <= kk < copied@.len() ==> crate::address::num_in_prefix(
                        addr_list_nums(copied@)[kk],
                        aa,
                        k as int,
                    ),
                forall|i: int| #![trigger aa[i]]
                    0 <= i < k as int ==> crate::address::num_in_prefix(
                        aa[i],
                        addr_list_nums(copied@),
                        copied@.len() as int,
                    ),
            decreases queried_addresses@.len() - k,
        {
            let entry = &queried_addresses[k];
            proof {
                use_type_invariant(entry);
                assert(aa[k as int] == crate::address::addr_num(entry@));
            }
            let ghost before = copied@;
            insert_addr(&mut copied, entry.duplicate());
            proof {
                let bn = addr_list_nums(before);
                let cn = addr_list_nums(copied@);
                crate::address::lemma_accounting_origin(bn, cn, aa, k as int);
                crate::address::lemma_accounting_presence(bn, cn, aa, k as int);
            }
            k = k + 1;
        }
        let result = RetrievalKit {
            capsule: vstd::slice::slice_to_vec(capsule),
            queried_addresses: copied,
        };
        proof {
            let stored = result.spec_queried_addresses();
            let sn = addr_list_nums(stored);
            let n = queried_addresses@.len() as int;
            assert forall|i: int| #![trigger queried_addresses@[i]]
                0 <= i < n implies addr_in_list(queried_addresses@[i]@, stored) by {
                assert(crate::address::num_in_prefix(aa[i], sn, sn.len() as int));
                let kk = choose|kk: int| 0 <= kk < sn.len() as int && aa[i] == #[trigger] sn[kk];
                assert(crate::address::addr_num(stored[kk]@) == crate::address::addr_num(
                    queried_addresses@[i]@,
                ));
                crate::address::lemma_addr_num_injective(stored[kk]@, queried_addresses@[i]@);
                assert(addr_in_list(queried_addresses@[i]@, stored));
            }
            assert forall|kk: int| #![trigger stored[kk]]
                0 <= kk < stored.len() implies addr_in_list(stored[kk]@, queried_addresses@) by {
                assert(crate::address::num_in_prefix(sn[kk], aa, n));
                let i = choose|i: int| 0 <= i < n && sn[kk] == #[trigger] aa[i];
                assert(crate::address::addr_num(stored[kk]@) == crate::address::addr_num(
                    queried_addresses@[i]@,
                ));
                crate::address::lemma_addr_num_injective(stored[kk]@, queried_addresses@[i]@);
                assert(addr_in_list(stored[kk]@, queried_addresses@));
            }
        }
        result
    }

    /// The capsule to retrieve against.
    pub fn capsule(&self) -> (r: Vec<u8>)
        ensures
            r@ == self.spec_capsule(),
    {
        clone_bytes(&self.capsule)
    }

    /// The addresses already queried.
    pub fn queried_addresses(&self) -> (r: Vec<Address>)
        ensures
            r@.len() == self.spec_queried_addresses().len(),
            forall|i: int|
                0 <= i < r@.len() ==> (#[trigger] r@[i])@ == self.spec_queried_addresses()[i]@,
    {
        let mut out: Vec<Address> = Vec::new();
        let mut k: usize = 0;
        while k < self.queried_addresses.len()
            invariant
                k <= self.queried_addresses@.len(),
                out@.len() == k,
                forall|i: int|
                    0 <= i < k as int ==> (#[trigger] out@[i])@
                        == self.spec_queried_addresses()[i]@,
            decreases self.queried_addresses@.len() - k,
        {
            out.push(self.queried_addresses[k].duplicate());
            k = k + 1;
        }
        out
    }

    /// Serializes the kit; the result is exactly its wire form.
    pub fn to_bytes(&self) -> (r: Vec<u8>)
        ensures
            r@ == self.spec_bytes(),
    {
        proof {
            use_type_invariant(&*self);
            crate::codec::lemma_enc_bytes_seq_len_bound(
                spec_addr_views(self.spec_queried_addresses()),
                20,
            );
        }
        let mut addr_bytes: Vec<Vec<u8>> = Vec::new();
        let mut k: usize = 0;
        while k < self.queried_addresses.len()
            invariant
                k <= self.queried_addresses@.len(),
                addr_bytes@.len() == k,
                forall|i: int|
                    0 <= i < k as int ==> (#[trigger] addr_bytes@[i])@
                        == self.spec_queried_addresses()[i]@,
                forall|i: int|
                    0 <= i < self.spec_queried_addresses().len()
                        ==> (#[trigger] self.spec_queried_addresses()[i])@.len() == 20,
            decreases self.queried_addresses@.len() - k,
        {
            addr_bytes.push(self.queried_addresses[k].as_bytes());
            k = k + 1;
        }
        proof {
            assert(views_of(addr_bytes@) =~= spec_addr_views(self.spec_queried_addresses()));
            assert forall|i: int|
                0 <= i < addr_bytes@.len() implies fits_u32(
                (#[trigger] addr_bytes@[i])@.len() as int,
            ) by {
                assert(addr_bytes@[i]@ == self.spec_queried_addresses()[i]@);
            }
        }
        let blob = write_blob(&addr_bytes);
        let mut payload: Vec<u8> = Vec::new();
        write_u8(&mut payload, 2);
        write_field_bytes(&mut payload, NAME_CAPSULE, self.capsule.as_slice());
        write_field_bytes(&mut payload, NAME_ADDRESSES, blob.as_slice());
        proof {
            crate::fields::lemma_enc_fields_unfold2(self.spec_fields());
            assert(payload@ =~= self.spec_payload());
        }
        write_envelope(BRAND_RETRIEVAL_KIT, &payload)
    }

    /// Parses a kit from its wire form.  Exactly the encodings of
    /// well-formed kits are accepted; the error distinguishes a foreign or
    /// truncated header, an unsupported version, and a malformed payload.
    pub fn from_bytes(data: &[u8]) -> (r: Result<RetrievalKit, Error>)
        ensures
            r matches Ok(v) ==> data@ == v.spec_bytes(),
            forall|v: RetrievalKit| v.wf() && data@ == #[trigger] v.spec_bytes() ==> r is Ok,
            crate::codec::header_error(data@, BRAND_RETRIEVAL_KIT) matches Some(e) ==> r == Err::<
                RetrievalKit,
                Error,
            >(e),
            r matches Err(e) ==> (crate::codec::header_error(data@, BRAND_RETRIEVAL_KIT) == Some(
                e,
            ) || (crate::codec::header_error(data@, BRAND_RETRIEVAL_KIT) is None && e
                == Error::FieldError)),
    {
        let ghost hyp = exists|v: RetrievalKit| v.wf() && data@ == #[trigger] v.spec_bytes();
        let ghost w: RetrievalKit = if hyp {
            choose|v: RetrievalKit| v.wf() && data@ == #[trigger] v.spec_bytes()
        } else {
            arbitrary()
        };
        proof {
            if hyp {
                crate::codec::lemma_peel_envelope(
                    data@,
                    BRAND_RETRIEVAL_KIT,
                    PROTOCOL_MAJOR,
                    PROTOCOL_MINOR,
                    w.spec_payload(),
                );
                crate::codec::lemma_enc_bytes_seq_len_bound(
                    spec_addr_views(w.spec_queried_addresses()),
                    20,
                );
                assert(crate::fields::fields_fit(w.spec_fields()));
            }
        }
        let pos0 = match read_envelope(data, BRAND_RETRIEVAL_KIT) {
            Ok(p) => p,
            Err(e) => {
                proof {
                    assert(!hyp);
                }
                return Err(e);
            },
        };
        let mut fs = match parse_payload(data, pos0) {
            Some(fs) => fs,
            None => {
                proof {
                    assert(!hyp);
                }
                return Err(Error::FieldError);
            },
        };
        let ghost fl = field_views(fs@);
        proof {
            if hyp {
                assert(fl == w.spec_fields());
            }
        }
        if fs.len() != 2 {
            proof {
                assert(!hyp);
            }
            return Err(Error::FieldError);
        }
        let f0 = fs.remove(0);
        let f1 = fs.remove(0);
        proof {
            assert(crate::fields::field_view(f0.1) == fl[0].1);
            assert(crate::fields::field_view(f1.1) == fl[1].1);
        }
        if f0.0 != NAME_CAPSULE || f1.0 != NAME_ADDRESSES {
            proof {
                assert(!hyp);
            }
            return Err(Error::FieldError);
        }
        let capsule = match f0.1 {
            ParsedField::Bytes(b) => b,
            _ => {
                proof {
                    assert(!hyp);
                }
                return Err(Error::FieldError);
            },
        };
        let blob = match f1.1 {
            ParsedField::Bytes(b) => b,
            _ => {
                proof {
                    assert(!hyp);
                }
                return Err(Error::FieldError);
            },
        };
        proof {
            assert(blob@.subrange(0, blob@.len() as int) =~= blob@);
        }
        let items = match parse_items(blob.as_slice()) {
            Some(items) => items,
            None => {
                proof {
                    assert(!hyp);
                }
                return Err(Error::FieldError);
            },
        };
        if items.len() > 0x1000 {
            proof {
                assert(!hyp);
            }
            return Err(Error::FieldError);
        }
        let mut queried_addresses: Vec<Address> = Vec::new();
        let mut k: usize = 0;
        while k < items.len()
            invariant
                crate::codec::header_error(data@, BRAND_RETRIEVAL_KIT) is None,
                k <= items@.len(),
                items@.len() <= 0x1000,
                queried_addresses@.len() == k,
                addrs_sorted(queried_addresses@),
                forall|j: int|
                    0 <= j < k as int ==> (#[trigger] queried_addresses@[j])@
                        == views_of(items@)[j] && queried_addresses@[j]@.len() == 20,
                hyp == (exists|v: RetrievalKit| v.wf() && data@ == #[trigger] v.spec_bytes()),
                hyp ==> w.wf() && data@ == w.spec_bytes() && views_of(items@) == spec_addr_views(
                    w.spec_queried_addresses(),
                ),
            decreases items@.len() - k,
        {
            let a = match Address::from_slice(items[k].as_slice()) {
                Some(a) => a,
                None => {
                    proof {
                        if hyp {
                            assert(views_of(items@)[k as int] == w.spec_queried_addresses()[
                                k as int
                            ]@);
                        }
                        assert(!hyp);
                    }
                    return Err(Error::FieldError);
                },
            };
            if queried_addresses.len() > 0 {
                let last = queried_addresses.len() - 1;
                let ordered = crate::address::bytes_lt(
                    queried_addresses[last].bytes_ref().as_slice(),
                    a.bytes_ref().as_slice(),
                );
                if !ordered {
                    proof {
                        if hyp {
                            assert(views_of(items@)[k as int] == spec_addr_views(
                                w.spec_queried_addresses(),
                            )[k as int]);
                            assert(views_of(items@)[last as int] == spec_addr_views(
                                w.spec_queried_addresses(),
                            )[last as int]);
                            assert(crate::address::lex_lt(
                                w.spec_queried_addresses()[last as int]@,
                                w.spec_queried_addresses()[k as int]@,
                            ));
                        }
                        assert(!hyp);
                    }
                    return Err(Error::FieldError);
                }
            }
            let ghost before = queried_addresses@;
            queried_addresses.push(a);
            proof {
                let cur = queried_addresses@;
                assert forall|p: int, q: int|
                    0 <= p < q < cur.len() implies crate::address::lex_lt(
                    (#[trigger] cur[p])@,
                    (#[trigger] cur[q])@,
                ) by {
                    if q == cur.len() - 1 && p < q - 1 {
                        crate::address::lemma_lex_lt_transitive(
                            cur[p]@,
                            cur[q - 1]@,
                            cur[q]@,
                        );
                    }
                }
            }
            k = k + 1;
        }
        let result = RetrievalKit { capsule, queried_addresses };
        proof {
            assert(spec_addr_views(result.spec_queried_addresses()) =~= views_of(items@));
            assert(result.spec_fields() =~= fl);
            assert(crate::codec::u16_val(data@.subrange(6, 8)) == PROTOCOL_MINOR);
            lemma_envelope_assemble(data@, BRAND_RETRIEVAL_KIT);
            assert(data@ == result.spec_bytes());
        }
        Ok(result)
    }
}

} // verus!
