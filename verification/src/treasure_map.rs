use vstd::prelude::*;

use crate::address::{bytes_eq, bytes_lt, lemma_lex_trichotomy, lex_lt, Address};
use crate::codec::{
    enc_bytes_seq, enc_envelope, fits_u32, lemma_envelope_assemble, lemma_peel_envelope,
    lemma_peel_u8, read_envelope, write_bytes, write_envelope, write_u8,
    lemma_enc_bytes_seq_len_bound, lemma_enc_bytes_seq_push, parse_items, push_all, views_of,
    PROTOCOL_MAJOR, PROTOCOL_MINOR,
};
use crate::engine;
use crate::errors::Error;
use crate::fields::{
    enc_fields, enc_payload, field_views, fields_fit, lemma_enc_fields_injective, parse_payload,
    write_field_bytes, write_field_u8, FieldVal, ParsedField,
};
use crate::hrac::HRAC;
use crate::key_frag::{spec_ekfrag_for, EncryptedKeyFrag};
use crate::keys::{PublicKey, SecretKey, Signer};

verus! {

/// The four ASCII bytes "TMap", as a little-endian word.
pub const BRAND_TREASURE_MAP: u32 = 0x70614D54;

/// The four ASCII bytes "ETMp", as a little-endian word.
pub const BRAND_ENCRYPTED_TREASURE_MAP: u32 = 0x704D5445;

/// Field name "hrac": the policy identifier.
pub const NAME_HRAC: u32 = 0x63617268;

/// Field name "polk": the policy encrypting key.
pub const NAME_POLICY_KEY: u32 = 0x6b6c6f70;

/// Field name "pubk": the publisher's verifying key.
pub const NAME_PUBLISHER_KEY: u32 = 0x6b627570;

/// Field name "thrs": the threshold.
pub const NAME_THRESHOLD: u32 = 0x73726874;

/// Field name "dest": the destinations.
pub const NAME_DESTINATIONS: u32 = 0x74736564;

/// Field name "caps": the capsule of the encrypted form.
pub const NAME_CAPSULE: u32 = 0x73706163;

/// Field name "ciph": the ciphertext of the encrypted form.
pub const NAME_CIPHERTEXT: u32 = 0x68706963;

/// Field name "sign": the publisher's signature over the serialized map.
pub const NAME_SIGNATURE: u32 = 0x6e676973;

/// Field name "tmap": the serialized map inside the encrypted form.
pub const NAME_TMAP: u32 = 0x70616d74;

/// The destinations are strictly ascending by address, which keys them by
/// unique address and fixes the canonical iteration order.
pub open spec fn dests_sorted(s: Seq<(Address, EncryptedKeyFrag)>) -> bool {
    forall|i: int, j: int| 0 <= i < j < s.len() ==> lex_lt(#[trigger] s[i].0@, #[trigger] s[j].0@)
}

/// One destination on the wire: the address and the fragment's wire form,
/// as a two-item list.
pub open spec fn spec_dest_item(d: (Address, EncryptedKeyFrag)) -> Seq<u8> {
    enc_bytes_seq(seq![d.0@, d.1.spec_bytes()])
}

pub open spec fn spec_dest_items(s: Seq<(Address, EncryptedKeyFrag)>) -> Seq<Seq<u8>> {
    s.map_values(|d: (Address, EncryptedKeyFrag)| spec_dest_item(d))
}

/// Every destination is well formed and small enough for the wire:
/// a 20-byte address and a fragment whose two parts total at most 65280
/// bytes.
pub open spec fn dests_wf(s: Seq<(Address, EncryptedKeyFrag)>) -> bool {
    forall|k: int|
        0 <= k < s.len() ==> (#[trigger] s[k]).0@.len() == 20 && s[k].1.spec_capsule().len()
            + s[k].1.spec_ciphertext().len() <= 0xFF00
}


/// The destinations' addresses, read as base-256 numbers.
pub open spec fn dest_nums(s: Seq<(Address, EncryptedKeyFrag)>) -> Seq<int> {
    s.map_values(|d: (Address, EncryptedKeyFrag)| crate::address::addr_num(d.0@))
}

/// The assigned addresses, read as base-256 numbers.
pub open spec fn assigned_nums(s: Seq<(Address, (PublicKey, Vec<u8>))>) -> Seq<int> {
    s.map_values(|a: (Address, (PublicKey, Vec<u8>))| crate::address::addr_num(a.0@))
}

/// Whether a destination carries a fragment sealed for one of the assigned
/// entries with its address.
pub open spec fn dest_from_assigned(
    d: (Address, EncryptedKeyFrag),
    assigned: Seq<(Address, (PublicKey, Vec<u8>))>,
    signer_vk: Seq<u8>,
    hrac: Seq<u8>,
) -> bool {
    exists|ii: int|
        0 <= ii < assigned.len() && d.0@ == (#[trigger] assigned[ii]).0@ && spec_ekfrag_for(
            d.1,
            signer_vk,
            hrac,
            assigned[ii].1.0@,
            assigned[ii].1.1@,
        )
}

/// Whether some destination carries the given address.
pub open spec fn addr_has_dest(a: Seq<u8>, dests: Seq<(Address, EncryptedKeyFrag)>) -> bool {
    exists|k: int| 0 <= k < dests.len() && (#[trigger] dests[k]).0@ == a
}

/// A policy manifest: which proxy node holds which sealed key fragment, and
/// how many fragments suffice to decrypt.
#[derive(Debug, PartialEq, Eq)]
pub struct TreasureMap {
    hrac: HRAC,
    policy_encrypting_key: PublicKey,
    publisher_verifying_key: PublicKey,
    destinations: Vec<(Address, EncryptedKeyFrag)>,
    threshold: u8,
}

impl TreasureMap {
    /// The manifest invariant: valid keys and identifier, destinations
    /// sorted by unique address, and a threshold no larger than the number
    /// of destinations.  The size caps keep the whole map within one
    /// sealed message.
    #[verifier::type_invariant]
    pub open spec fn wf(self) -> bool {
        &&& self.spec_hrac().len() == 16
        &&& engine::is_public_key(self.spec_policy_encrypting_key())
        &&& engine::is_public_key(self.spec_publisher_verifying_key())
        &&& self.spec_policy_encrypting_key().len() == 33
        &&& self.spec_publisher_verifying_key().len() == 33
        &&& dests_sorted(self.spec_destinations())
        &&& dests_wf(self.spec_destinations())
        &&& self.spec_destinations().len() <= 0x2000
        &&& self.spec_threshold() as int <= self.spec_destinations().len()
    }

    pub closed spec fn spec_hrac(self) -> Seq<u8> {
        self.hrac@
    }

    pub closed spec fn spec_policy_encrypting_key(self) -> Seq<u8> {
        self.policy_encrypting_key@
    }

    pub closed spec fn spec_publisher_verifying_key(self) -> Seq<u8> {
        self.publisher_verifying_key@
    }

    pub closed spec fn spec_destinations(self) -> Seq<(Address, EncryptedKeyFrag)> {
        self.destinations@
    }

    pub closed spec fn spec_threshold(self) -> u8 {
        self.threshold
    }

    /// The five named fields of the payload.
    pub open spec fn spec_fields(self) -> Seq<(u32, FieldVal)> {
        seq![
            (NAME_HRAC, FieldVal::Bytes(self.spec_hrac())),
            (NAME_POLICY_KEY, FieldVal::Bytes(self.spec_policy_encrypting_key())),
            (NAME_PUBLISHER_KEY, FieldVal::Bytes(self.spec_publisher_verifying_key())),
            (NAME_THRESHOLD, FieldVal::U8(self.spec_threshold())),
            (NAME_DESTINATIONS, FieldVal::Bytes(enc_bytes_seq(spec_dest_items(self.spec_destinations())))),
        ]
    }

    pub open spec fn spec_payload(self) -> Seq<u8> {
        enc_payload(self.spec_fields())
    }

    /// The full wire form of the manifest.
    pub open spec fn spec_bytes(self) -> Seq<u8> {
        enc_envelope(BRAND_TREASURE_MAP, PROTOCOL_MAJOR, PROTOCOL_MINOR, self.spec_payload())
    }

    /// Bounds on the wire form that follow from the invariant.
    pub proof fn lemma_bytes_len_bound(self)
        requires
            self.wf(),
        ensures
            self.spec_bytes().len() <= 0x2400_0000,
            fits_u32(enc_bytes_seq(spec_dest_items(self.spec_destinations())).len() as int),
            crate::codec::all_fit_u32(spec_dest_items(self.spec_destinations())),
    {
        let items = spec_dest_items(self.spec_destinations());
        assert forall|i: int| 0 <= i < items.len() implies #[trigger] items[i].len() <= 0x1_0028 by {
            let d = self.spec_destinations()[i];
            assert(items[i] == spec_dest_item(d));
            d.1.lemma_bytes_len();
            crate::codec::lemma_enc_bytes_seq_push(seq![d.0@], d.1.spec_bytes());
            assert(seq![d.0@].push(d.1.spec_bytes()) =~= seq![d.0@, d.1.spec_bytes()]);
            assert(enc_bytes_seq(seq![d.0@]) == crate::codec::enc_bytes(d.0@)
                + enc_bytes_seq(Seq::<Seq<u8>>::empty())) by {
                assert(seq![d.0@].drop_first() =~= Seq::<Seq<u8>>::empty());
            }
        }
        lemma_enc_bytes_seq_len_bound(items, 0x1_0028);
        assert(items.len() * (4 + 0x1_0028) <= 0x2000 * 0x1_002c) by (nonlinear_arith)
            requires
                items.len() <= 0x2000,
        ;
        crate::fields::lemma_enc_fields_unfold5(self.spec_fields());
    }

    /// Builds a manifest: seals one key fragment per distinct assigned
    /// address and records it in address order, later assignments to the
    /// same address replacing earlier ones.  Fails with `PolicyError`
    /// exactly when the threshold exceeds the number of destinations, so
    /// with distinct addresses success is owed whenever the threshold does
    /// not exceed the number of assignments.
    #[verifier::rlimit(100)]
    pub fn new(
        signer: &Signer,
        hrac: &HRAC,
        policy_encrypting_key: &PublicKey,
        assigned_kfrags: &Vec<(Address, (PublicKey, Vec<u8>))>,
        threshold: u8,
    ) -> (r: Result<TreasureMap, Error>)
        requires
            assigned_kfrags@.len() <= 0x2000,
            forall|i: int|
                0 <= i < assigned_kfrags@.len() ==> (#[trigger] assigned_kfrags@[i]).1.1@.len()
                    <= 0x8000,
        ensures
            r is Err ==> r == Err::<TreasureMap, Error>(Error::PolicyError),
            threshold as int > assigned_kfrags@.len() ==> r is Err,
            (forall|a: int, b: int|
                0 <= a < b < assigned_kfrags@.len() ==> (#[trigger] assigned_kfrags@[a]).0@ != (
                #[trigger] assigned_kfrags@[b]).0@) ==> (r is Ok <==> threshold as int
                <= assigned_kfrags@.len()),
            r matches Ok(tm) ==> {
                &&& tm.spec_hrac() == hrac@
                &&& tm.spec_policy_encrypting_key() == policy_encrypting_key@
                &&& tm.spec_publisher_verifying_key() == signer.spec_verifying_key()
                &&& tm.spec_threshold() == threshold
                &&& dests_sorted(tm.spec_destinations())
                &&& threshold as int <= tm.spec_destinations().len()
                &&& tm.spec_destinations().len() <= assigned_kfrags@.len()
                // every destination seals a fragment assigned to its address
                &&& forall|k: int| #![trigger tm.spec_destinations()[k]]
                    0 <= k < tm.spec_destinations().len() ==> dest_from_assigned(
                        tm.spec_destinations()[k],
                        assigned_kfrags@,
                        signer.spec_verifying_key(),
                        hrac@,
                    )
                // every assigned address has a destination
                &&& forall|ii: int| #![trigger assigned_kfrags@[ii]]
                    0 <= ii < assigned_kfrags@.len() ==> addr_has_dest(
                        assigned_kfrags@[ii].0@,
                        tm.spec_destinations(),
                    )
                // with distinct addresses, one destination per assignment
                &&& (forall|a: int, b: int|
                    0 <= a < b < assigned_kfrags@.len() ==> (#[trigger] assigned_kfrags@[a]).0@
                        != (#[trigger] assigned_kfrags@[b]).0@)
                    ==> tm.spec_destinations().len() == assigned_kfrags@.len()
            },
    {
        if (threshold as usize) > assigned_kfrags.len() {
            return Err(Error::PolicyError);
        }
        proof {
            use_type_invariant(hrac);
            use_type_invariant(policy_encrypting_key);
        }
        let ghost vkk = signer.spec_verifying_key();
        let ghost hh = hrac@;
        let ghost p: spec_fn((Address, EncryptedKeyFrag)) -> bool = |d: (
            Address,
            EncryptedKeyFrag,
        )|
            {
                &&& d.1.spec_capsule().len() + d.1.spec_ciphertext().len() <= 0xFF00
                &&& dest_from_assigned(d, assigned_kfrags@, vkk, hh)
            };
        let ghost aa = assigned_nums(assigned_kfrags@);
        let mut destinations: Vec<(Address, EncryptedKeyFrag)> = Vec::new();
        let mut i: usize = 0;
        while i < assigned_kfrags.len()
            invariant
                i <= assigned_kfrags@.len(),
                assigned_kfrags@.len() <= 0x2000,
                forall|ii: int|
                    0 <= ii < assigned_kfrags@.len() ==> (#[trigger] assigned_kfrags@[ii]).1.1@.len()
                        <= 0x8000,
                hrac@.len() == 16,
                vkk == signer.spec_verifying_key(),
                hh == hrac@,
                aa == assigned_nums(assigned_kfrags@),
                p == (|d: (Address, EncryptedKeyFrag)|
                    {
                        &&& d.1.spec_capsule().len() + d.1.spec_ciphertext().len() <= 0xFF00
                        &&& dest_from_assigned(d, assigned_kfrags@, vkk, hh)
                    }),
                dests_sorted(destinations@),
                destinations@.len() <= i,
                forall|k: int|
                    0 <= k < destinations@.len() ==> (#[trigger] destinations@[k]).0@.len() == 20,
                forall|k: int| 0 <= k < destinations@.len() ==> p(#[trigger] destinations@[k]),
                forall|ii: int|
                    0 <= ii < i as int ==> (#[trigger] assigned_kfrags@[ii]).0@.len() == 20,
                forall|k: int| #![trigger dest_nums(destinations@)[k]]
                    0 <= k < destinations@.len() ==> crate::address::num_in_prefix(
                        dest_nums(destinations@)[k],
                        aa,
                        i as int,
                    ),
                forall|ii: int| #![trigger aa[ii]]
                    0 <= ii < i as int ==> crate::address::num_in_prefix(
                        aa[ii],
                        dest_nums(destinations@),
                        destinations@.len() as int,
                    ),
                (forall|a: int, b: int|
                    0 <= a < b < i as int ==> #[trigger] aa[a] != #[trigger] aa[b])
                    ==> destinations@.len() == i as int,
            decreases assigned_kfrags@.len() - i,
        {
            let entry = &assigned_kfrags[i];
            let addr = entry.0.duplicate();
            let recipient = &entry.1.0;
            let kfrag = &entry.1.1;
            let ekf = crate::key_frag::EncryptedKeyFrag::new(
                signer,
                recipient,
                hrac,
                kfrag.as_slice(),
            );
            proof {
                use_type_invariant(&entry.0);
                assert(p((addr, ekf))) by {
                    assert(addr@ == (#[trigger] assigned_kfrags@[i as int]).0@ && spec_ekfrag_for(
                        ekf,
                        vkk,
                        hh,
                        assigned_kfrags@[i as int].1.0@,
                        assigned_kfrags@[i as int].1.1@,
                    ));
                    assert(dest_from_assigned((addr, ekf), assigned_kfrags@, vkk, hh));
                }
                assert(aa[i as int] == crate::address::addr_num(addr@));
            }
            let ghost before = destinations@;
            insert_dest(&mut destinations, addr, ekf, Ghost(p));
            proof {
                let bn = dest_nums(before);
                let cn = dest_nums(destinations@);
                crate::address::lemma_accounting_origin(bn, cn, aa, i as int);
                crate::address::lemma_accounting_presence(bn, cn, aa, i as int);
                crate::address::lemma_accounting_count(bn, cn, aa, i as int);
            }
            i = i + 1;
        }
        let ghost n = assigned_kfrags@.len() as int;
        let ghost dn = dest_nums(destinations@);
        let ghost seq_distinct = forall|a: int, b: int|
            0 <= a < b < n ==> (#[trigger] assigned_kfrags@[a]).0@ != (
            #[trigger] assigned_kfrags@[b]).0@;
        proof {
            if seq_distinct {
                assert forall|a: int, b: int|
                    0 <= a < b < n implies #[trigger] aa[a] != #[trigger] aa[b] by {
                    if aa[a] == aa[b] {
                        crate::address::lemma_addr_num_injective(
                            assigned_kfrags@[a].0@,
                            assigned_kfrags@[b].0@,
                        );
                    }
                }
                assert(destinations@.len() == n);
            }
        }
        if (threshold as usize) > destinations.len() {
            proof {
                if seq_distinct {
                    assert(threshold as int > n);
                }
            }
            return Err(Error::PolicyError);
        }
        let publisher_verifying_key = signer.verifying_key();
        proof {
            use_type_invariant(&publisher_verifying_key);
            assert(dests_wf(destinations@)) by {
                assert forall|k: int|
                    0 <= k < destinations@.len() implies (#[trigger] destinations@[k]).0@.len()
                        == 20 && destinations@[k].1.spec_capsule().len()
                        + destinations@[k].1.spec_ciphertext().len() <= 0xFF00 by {
                    assert(p(destinations@[k]));
                }
            }
        }
        let result = TreasureMap {
            hrac: hrac.duplicate(),
            policy_encrypting_key: policy_encrypting_key.duplicate(),
            publisher_verifying_key,
            destinations,
            threshold,
        };
        proof {
            let dests = result.spec_destinations();
            assert forall|k: int| #![trigger dests[k]]
                0 <= k < dests.len() implies dest_from_assigned(
                dests[k],
                assigned_kfrags@,
                signer.spec_verifying_key(),
                hrac@,
            ) by {
                assert(p(dests[k]));
            }
            if seq_distinct {
                assert(dests.len() == assigned_kfrags@.len());
            }
            assert forall|ii: int| #![trigger assigned_kfrags@[ii]]
                0 <= ii < n implies addr_has_dest(assigned_kfrags@[ii].0@, dests) by {
                assert(crate::address::num_in_prefix(aa[ii], dn, dn.len() as int));
                let k = choose|k: int| 0 <= k < dn.len() as int && aa[ii] == #[trigger] dn[k];
                assert(crate::address::addr_num(dests[k].0@) == crate::address::addr_num(
                    assigned_kfrags@[ii].0@,
                ));
                crate::address::lemma_addr_num_injective(dests[k].0@, assigned_kfrags@[ii].0@);
                assert(dests[k].0@ == assigned_kfrags@[ii].0@);
                assert(addr_has_dest(assigned_kfrags@[ii].0@, dests));
            }
        }
        Ok(result)
    }

    /// The destinations, in ascending address order.
    pub fn destinations(&self) -> (r: Vec<(Address, EncryptedKeyFrag)>)
        ensures
            r@.len() == self.spec_destinations().len(),
            forall|k: int|
                0 <= k < r@.len() ==> (#[trigger] r@[k]).0@ == self.spec_destinations()[k].0@
                    && r@[k].1.spec_capsule() == self.spec_destinations()[k].1.spec_capsule()
                    && r@[k].1.spec_ciphertext() == self.spec_destinations()[k].1.spec_ciphertext(),
            dests_sorted(self.spec_destinations()),
    {
        proof {
            use_type_invariant(&*self);
        }
        let mut out: Vec<(Address, EncryptedKeyFrag)> = Vec::new();
        let mut k: usize = 0;
        while k < self.destinations.len()
            invariant
                k <= self.spec_destinations().len(),
                out@.len() == k,
                forall|j: int|
                    0 <= j < k as int ==> (#[trigger] out@[j]).0@ == self.spec_destinations()[j].0@
                        && out@[j].1.spec_capsule() == self.spec_destinations()[j].1.spec_capsule()
                        && out@[j].1.spec_ciphertext()
                        == self.spec_destinations()[j].1.spec_ciphertext(),
            decreases self.spec_destinations().len() - k,
        {
            let d = &self.destinations[k];
            out.push((d.0.duplicate(), d.1.duplicate()));
            k = k + 1;
        }
        out
    }

    /// The policy identifier.
    pub fn hrac(&self) -> (r: HRAC)
        ensures
            r@ == self.spec_hrac(),
    {
        self.hrac.duplicate()
    }

    /// The threshold: how many fragments suffice.
    pub fn threshold(&self) -> (r: u8)
        ensures
            r == self.spec_threshold(),
    {
        self.threshold
    }

    /// The policy encrypting key.
    pub fn policy_encrypting_key(&self) -> (r: PublicKey)
        ensures
            r@ == self.spec_policy_encrypting_key(),
    {
        self.policy_encrypting_key.duplicate()
    }

    /// The publisher's verifying key.
    pub fn publisher_verifying_key(&self) -> (r: PublicKey)
        ensures
            r@ == self.spec_publisher_verifying_key(),
    {
        self.publisher_verifying_key.duplicate()
    }

    /// Serializes the manifest; the result is exactly its wire form.
    pub fn to_bytes(&self) -> (r: Vec<u8>)
        ensures
            r@ == self.spec_bytes(),
    {
        proof {
            use_type_invariant(&*self);
            self.lemma_bytes_len_bound();
        }
        let mut blob: Vec<u8> = Vec::new();
        let mut k: usize = 0;
        proof {
            assert(self.spec_destinations().take(0) =~= Seq::<(Address, EncryptedKeyFrag)>::empty());
            assert(spec_dest_items(Seq::<(Address, EncryptedKeyFrag)>::empty())
                =~= Seq::<Seq<u8>>::empty());
        }
        while k < self.destinations.len()
            invariant
                k <= self.spec_destinations().len(),
                dests_wf(self.spec_destinations()),
                blob@ == enc_bytes_seq(spec_dest_items(self.spec_destinations().take(k as int))),
            decreases self.spec_destinations().len() - k,
        {
            let d = &self.destinations[k];
            let frag_bytes = d.1.to_bytes();
            proof {
                d.1.lemma_bytes_len();
            }
            let mut item: Vec<u8> = Vec::new();
            crate::codec::write_bytes(&mut item, d.0.bytes_ref().as_slice());
            crate::codec::write_bytes(&mut item, frag_bytes.as_slice());
            proof {
                let dd = self.spec_destinations()[k as int];
                let pairseq = seq![dd.0@, dd.1.spec_bytes()];
                assert(pairseq[0] == dd.0@);
                assert(pairseq.drop_first() =~= seq![dd.1.spec_bytes()]);
                assert(seq![dd.1.spec_bytes()][0] == dd.1.spec_bytes());
                assert(seq![dd.1.spec_bytes()].drop_first() =~= Seq::<Seq<u8>>::empty());
                assert(enc_bytes_seq(Seq::<Seq<u8>>::empty()) == Seq::<u8>::empty());
                assert(enc_bytes_seq(seq![dd.1.spec_bytes()]) == crate::codec::enc_bytes(
                    dd.1.spec_bytes(),
                ) + Seq::<u8>::empty());
                assert(enc_bytes_seq(pairseq) == crate::codec::enc_bytes(dd.0@) + (
                crate::codec::enc_bytes(dd.1.spec_bytes()) + Seq::<u8>::empty()));
                assert(item@ =~= spec_dest_item(dd));
                lemma_enc_bytes_seq_push(
                    spec_dest_items(self.spec_destinations().take(k as int)),
                    item@,
                );
                assert(spec_dest_items(self.spec_destinations().take(k + 1)) =~= spec_dest_items(
                    self.spec_destinations().take(k as int),
                ).push(item@));
            }
            crate::codec::write_bytes(&mut blob, item.as_slice());
            k = k + 1;
        }
        proof {
            assert(self.spec_destinations().take(self.spec_destinations().len() as int)
                =~= self.spec_destinations());
        }
        let mut payload: Vec<u8> = Vec::new();
        write_u8(&mut payload, 5);
        write_field_bytes(&mut payload, NAME_HRAC, self.hrac.to_bytes().as_slice());
        write_field_bytes(
            &mut payload,
            NAME_POLICY_KEY,
            self.policy_encrypting_key.to_compressed_bytes().as_slice(),
        );
        write_field_bytes(
            &mut payload,
            NAME_PUBLISHER_KEY,
            self.publisher_verifying_key.to_compressed_bytes().as_slice(),
        );
        write_field_u8(&mut payload, NAME_THRESHOLD, self.threshold);
        write_field_bytes(&mut payload, NAME_DESTINATIONS, blob.as_slice());
        proof {
            crate::fields::lemma_enc_fields_unfold5(self.spec_fields());
            assert(payload@ =~= self.spec_payload());
        }
        write_envelope(BRAND_TREASURE_MAP, &payload)
    }

    /// Parses a manifest from its wire form.  Whatever is accepted is the
    /// exact wire form of the returned manifest; the error distinguishes a
    /// foreign or truncated header, an unsupported version, and a malformed
    /// payload.
    #[verifier::rlimit(100)]
    pub fn from_bytes(data: &[u8]) -> (r: Result<TreasureMap, Error>)
        ensures
            r matches Ok(v) ==> data@ == v.spec_bytes(),
            forall|v: TreasureMap| v.wf() && data@ == #[trigger] v.spec_bytes() ==> r is Ok,
            crate::codec::header_error(data@, BRAND_TREASURE_MAP) matches Some(e) ==> r == Err::<
                TreasureMap,
                Error,
            >(e),
            r matches Err(e) ==> (crate::codec::header_error(data@, BRAND_TREASURE_MAP) == Some(e)
                || (crate::codec::header_error(data@, BRAND_TREASURE_MAP) is None && e
                == Error::FieldError)),
    {
        let ghost hyp = exists|v: TreasureMap| v.wf() && data@ == #[trigger] v.spec_bytes();
        let ghost w: TreasureMap = if hyp {
            choose|v: TreasureMap| v.wf() && data@ == #[trigger] v.spec_bytes()
        } else {
            arbitrary()
        };
        proof {
            if hyp {
                crate::codec::lemma_peel_envelope(
                    data@,
                    BRAND_TREASURE_MAP,
                    PROTOCOL_MAJOR,
                    PROTOCOL_MINOR,
                    w.spec_payload(),
                );
                w.lemma_bytes_len_bound();
                assert(crate::fields::fields_fit(w.spec_fields()));
            }
        }
        let pos0 = match read_envelope(data, BRAND_TREASURE_MAP) {
            Ok(p) => p,
            Err(e) => {
                proof {
                    assert(!hyp);
                }
                return Err(e);
            },
        };
        let mut fs = match parse_payload(data, pos0) {
            Some(fs) => fs,
            None => {
                proof {
                    assert(!hyp);
                }
                return Err(Error::FieldError);
            },
        };
        let ghost fl = field_views(fs@);
        if fs.len() != 5 {
            proof {
                assert(!hyp);
            }
            return Err(Error::FieldError);
        }
        let f0 = fs.remove(0);
        let f1 = fs.remove(0);
        let f2 = fs.remove(0);
        let f3 = fs.remove(0);
        let f4 = fs.remove(0);
        proof {
            assert(crate::fields::field_view(f0.1) == fl[0].1);
            assert(crate::fields::field_view(f1.1) == fl[1].1);
            assert(crate::fields::field_view(f2.1) == fl[2].1);
            assert(crate::fields::field_view(f3.1) == fl[3].1);
            assert(crate::fields::field_view(f4.1) == fl[4].1);
        }
        if f0.0 != NAME_HRAC || f1.0 != NAME_POLICY_KEY || f2.0 != NAME_PUBLISHER_KEY || f3.0
            != NAME_THRESHOLD || f4.0 != NAME_DESTINATIONS {
            proof {
                assert(!hyp);
            }
            return Err(Error::FieldError);
        }
        let hrac_bytes = match f0.1 {
            ParsedField::Bytes(b) => b,
            _ => {
                proof {
                    assert(!hyp);
                }
                return Err(Error::FieldError);
            },
        };
        let hrac = match HRAC::from_bytes(hrac_bytes.as_slice()) {
            Ok(h) => h,
            Err(_) => {
                proof {
                    assert(!hyp);
                }
                return Err(Error::FieldError);
            },
        };
        let pek_bytes = match f1.1 {
            ParsedField::Bytes(b) => b,
            _ => {
                proof {
                    assert(!hyp);
                }
                return Err(Error::FieldError);
            },
        };
        let policy_encrypting_key = match PublicKey::from_compressed_bytes(pek_bytes.as_slice()) {
            Ok(k) => k,
            Err(_) => {
                proof {
                    assert(!hyp);
                }
                return Err(Error::FieldError);
            },
        };
        let pvk_bytes = match f2.1 {
            ParsedField::Bytes(b) => b,
            _ => {
                proof {
                    assert(!hyp);
                }
                return Err(Error::FieldError);
            },
        };
        let publisher_verifying_key = match PublicKey::from_compressed_bytes(pvk_bytes.as_slice()) {
            Ok(k) => k,
            Err(_) => {
                proof {
                    assert(!hyp);
                }
                return Err(Error::FieldError);
            },
        };
        let threshold = match f3.1 {
            ParsedField::U8(x) => x,
            _ => {
                proof {
                    assert(!hyp);
                }
                return Err(Error::FieldError);
            },
        };
        let blob = match f4.1 {
            ParsedField::Bytes(b) => b,
            _ => {
                proof {
                    assert(!hyp);
                }
                return Err(Error::FieldError);
            },
        };
        proof {
            assert(blob@.subrange(0, blob@.len() as int) =~= blob@);
        }
        let items = match parse_items(blob.as_slice()) {
            Some(items) => items,
            None => {
                proof {
                    assert(!hyp);
                }
                return Err(Error::FieldError);
            },
        };
        if items.len() > 0x2000 {
            proof {
                assert(!hyp);
            }
            return Err(Error::FieldError);
        }
        let mut destinations: Vec<(Address, EncryptedKeyFrag)> = Vec::new();
        let mut k: usize = 0;
        while k < items.len()
            invariant
                crate::codec::header_error(data@, BRAND_TREASURE_MAP) is None,
                items@.len() <= 0x2000,
                hrac@.len() == 16,
                k <= items@.len(),
                destinations@.len() == k,
                hyp == (exists|v: TreasureMap| v.wf() && data@ == #[trigger] v.spec_bytes()),
                hyp ==> w.wf() && views_of(items@) == spec_dest_items(w.spec_destinations()),
                hyp ==> forall|j: int|
                    0 <= j < k as int ==> (#[trigger] destinations@[j]).0@
                        == w.spec_destinations()[j].0@,
                dests_sorted(destinations@),
                dests_wf(destinations@),
                forall|j: int|
                    0 <= j < k as int ==> views_of(items@)[j] == spec_dest_item(
                        #[trigger] destinations@[j],
                    ),
            decreases items@.len() - k,
        {
            let item = &items[k];
            proof {
                assert(item@.subrange(0, item@.len() as int) =~= item@);
                if hyp {
                    let d = w.spec_destinations()[k as int];
                    assert(views_of(items@)[k as int] == spec_dest_item(d));
                    assert(views_of(items@)[k as int] == item@);
                    d.1.lemma_bytes_len();
                    assert(seq![d.0@, d.1.spec_bytes()][0] == d.0@);
                    assert(seq![d.0@, d.1.spec_bytes()].drop_first() =~= seq![d.1.spec_bytes()]);
                    assert(crate::codec::all_fit_u32(seq![d.0@, d.1.spec_bytes()]));
                }
            }
            let mut sub = match parse_items(item.as_slice()) {
                Some(sub) => sub,
                None => {
                    proof {
                    assert(!hyp);
                }
                return Err(Error::FieldError);
                },
            };
            let ghost sub_views = views_of(sub@);
            if sub.len() != 2 {
                proof {
                    assert(!hyp);
                }
                return Err(Error::FieldError);
            }
            let addr_bytes = sub.remove(0);
            let frag_bytes = sub.remove(0);
            proof {
                assert(sub_views =~= seq![addr_bytes@, frag_bytes@]);
                if hyp {
                    let d = w.spec_destinations()[k as int];
                    assert(addr_bytes@ == d.0@);
                    assert(frag_bytes@ == d.1.spec_bytes());
                    d.1.lemma_bytes_len();
                }
            }
            let addr = match Address::from_slice(addr_bytes.as_slice()) {
                Some(a) => a,
                None => {
                    proof {
                    assert(!hyp);
                }
                return Err(Error::FieldError);
                },
            };
            if frag_bytes.len() > 0xFF1B {
                proof {
                    assert(!hyp);
                }
                return Err(Error::FieldError);
            }
            let frag = match EncryptedKeyFrag::from_bytes(frag_bytes.as_slice()) {
                Ok(f) => f,
                Err(_) => {
                    proof {
                    assert(!hyp);
                }
                return Err(Error::FieldError);
                },
            };
            proof {
                frag.lemma_bytes_len();
            }
            if destinations.len() > 0 {
                let last = destinations.len() - 1;
                let ordered = bytes_lt(
                    destinations[last].0.bytes_ref().as_slice(),
                    addr.bytes_ref().as_slice(),
                );
                if !ordered {
                    proof {
                        if hyp {
                            assert(lex_lt(
                                w.spec_destinations()[last as int].0@,
                                w.spec_destinations()[k as int].0@,
                            ));
                        }
                        assert(!hyp);
                    }
                    return Err(Error::FieldError);
                }
            }
            let ghost before = destinations@;
            destinations.push((addr, frag));
            proof {
                let cur = destinations@;
                if hyp {
                    assert(cur[k as int].0@ == w.spec_destinations()[k as int].0@);
                }
                assert forall|p: int, q: int| 0 <= p < q < cur.len() implies lex_lt(
                    (#[trigger] cur[p]).0@,
                    (#[trigger] cur[q]).0@,
                ) by {
                    if q == cur.len() - 1 && p < q - 1 {
                        crate::address::lemma_lex_lt_transitive(
                            cur[p].0@,
                            cur[q - 1].0@,
                            cur[q].0@,
                        );
                    }
                }
                assert(views_of(items@)[k as int] == spec_dest_item(cur[k as int])) by {
                    assert(seq![addr_bytes@, frag_bytes@].drop_first() =~= seq![frag_bytes@]);
                    assert(seq![frag_bytes@].drop_first() =~= Seq::<Seq<u8>>::empty());
                    assert(item@ == enc_bytes_seq(seq![addr_bytes@, frag_bytes@]));
                }
            }
            k = k + 1;
        }
        if (threshold as usize) > destinations.len() {
            proof {
                assert(!hyp);
            }
            return Err(Error::FieldError);
        }
        proof {
            use_type_invariant(&policy_encrypting_key);
            use_type_invariant(&publisher_verifying_key);
            use_type_invariant(&hrac);
        }
        let result = TreasureMap {
            hrac,
            policy_encrypting_key,
            publisher_verifying_key,
            destinations,
            threshold,
        };
        proof {
            assert(spec_dest_items(result.spec_destinations()) =~= views_of(items@));
            assert(result.spec_fields() =~= fl);
            assert(crate::codec::u16_val(data@.subrange(6, 8)) == PROTOCOL_MINOR);
            lemma_envelope_assemble(data@, BRAND_TREASURE_MAP);
            assert(data@ == result.spec_bytes());
        }
        Ok(result)
    }

    /// Signs the serialized manifest for one delegate and seals both under
    /// the delegate's key.
    pub fn encrypt(&self, signer: &Signer, recipient_key: &PublicKey) -> (r: EncryptedTreasureMap)
        ensures
            r.spec_sealed_for(signer.spec_verifying_key(), recipient_key@, self.spec_bytes()),
    {
        proof {
            use_type_invariant(&*self);
            use_type_invariant(recipient_key);
            self.lemma_bytes_len_bound();
        }
        let tm_bytes = self.to_bytes();
        let sig = signer.sign(tm_bytes.as_slice());
        let mut plaintext: Vec<u8> = Vec::new();
        write_u8(&mut plaintext, 2);
        write_field_bytes(&mut plaintext, NAME_SIGNATURE, sig.as_slice());
        write_field_bytes(&mut plaintext, NAME_TMAP, tm_bytes.as_slice());
        proof {
            crate::fields::lemma_enc_fields_unfold2(
                seq![
                    (NAME_SIGNATURE, FieldVal::Bytes(sig@)),
                    (NAME_TMAP, FieldVal::Bytes(tm_bytes@)),
                ],
            );
            assert(plaintext@ =~= spec_auth_tmap(sig@, tm_bytes@));
            assert(plaintext@.len() == 83 + tm_bytes@.len());
        }
        let pk = recipient_key.to_compressed_bytes();
        match engine::encrypt_bytes(pk.as_slice(), plaintext.as_slice()) {
            Ok((capsule, ciphertext)) => {
                let r = EncryptedTreasureMap { capsule, ciphertext };
                proof {
                    assert(engine::sig_valid(
                        sig@,
                        signer.spec_verifying_key(),
                        self.spec_bytes(),
                    ));
                    assert(r.spec_sealed_for(
                        signer.spec_verifying_key(),
                        recipient_key@,
                        self.spec_bytes(),
                    ));
                }
                r
            },
            Err(_) => {
                proof {
                    assert(false);
                }
                EncryptedTreasureMap { capsule: Vec::new(), ciphertext: Vec::new() }
            },
        }
    }
}

/// Inserts a destination into an address-sorted list, replacing the entry
/// with the same address if one exists.  Every entry keeps satisfying the
/// caller's predicate, and the stored address set gains exactly the new
/// address, stated over address numbers for the set bookkeeping.
fn insert_dest(
    dests: &mut Vec<(Address, EncryptedKeyFrag)>,
    addr: Address,
    ekf: EncryptedKeyFrag,
    Ghost(p): Ghost<spec_fn((Address, EncryptedKeyFrag)) -> bool>,
)
    requires
        dests_sorted(old(dests)@),
        addr@.len() == 20,
        forall|k: int| 0 <= k < old(dests)@.len() ==> (#[trigger] old(dests)@[k]).0@.len() == 20,
        forall|k: int| 0 <= k < old(dests)@.len() ==> p(#[trigger] old(dests)@[k]),
        p((addr, ekf)),
    ensures
        dests_sorted(final(dests)@),
        forall|k: int| 0 <= k < final(dests)@.len() ==> (#[trigger] final(dests)@[k]).0@.len()
            == 20,
        forall|k: int| 0 <= k < final(dests)@.len() ==> p(#[trigger] final(dests)@[k]),
        final(dests)@.len() == old(dests)@.len() + (if crate::address::num_in_prefix(
            crate::address::addr_num(addr@),
            dest_nums(old(dests)@),
            old(dests)@.len() as int,
        ) {
            0int
        } else {
            1int
        }),
        crate::address::num_in_prefix(
            crate::address::addr_num(addr@),
            dest_nums(final(dests)@),
            final(dests)@.len() as int,
        ),
        forall|k: int| #![trigger dest_nums(final(dests)@)[k]]
            0 <= k < final(dests)@.len() ==> (dest_nums(final(dests)@)[k]
                == crate::address::addr_num(addr@) || crate::address::num_in_prefix(
                dest_nums(final(dests)@)[k],
                dest_nums(old(dests)@),
                old(dests)@.len() as int,
            )),
        forall|j: int| #![trigger dest_nums(old(dests)@)[j]]
            0 <= j < old(dests)@.len() ==> crate::address::num_in_prefix(
                dest_nums(old(dests)@)[j],
                dest_nums(final(dests)@),
                final(dests)@.len() as int,
            ),
{
    let ghost old_seq = dests@;
    let mut i: usize = 0;
    while i < dests.len() && bytes_lt(dests[i].0.bytes_ref().as_slice(), addr.bytes_ref().as_slice())
        invariant
            dests@ == old_seq,
            dests_sorted(dests@),
            i <= dests@.len(),
            forall|j: int| 0 <= j < i as int ==> lex_lt((#[trigger] dests@[j]).0@, addr@),
        decreases dests@.len() - i,
    {
        i = i + 1;
    }
    let ghost an = crate::address::addr_num(addr@);
    if i < dests.len() && bytes_eq(dests[i].0.bytes_ref().as_slice(), addr.bytes_ref().as_slice()) {
        dests.remove(i);
        dests.insert(i, (addr, ekf));
        proof {
            let s = dests@;
            assert(s =~= old_seq.update(i as int, (addr, ekf)));
            assert(s[i as int] == (addr, ekf));
            assert(old_seq[i as int].0@ == addr@);
            assert(dest_nums(old_seq)[i as int] == an);
            assert(crate::address::num_in_prefix(an, dest_nums(old_seq), old_seq.len() as int));
            assert forall|p2: int, q: int| 0 <= p2 < q < s.len() implies lex_lt(
                (#[trigger] s[p2]).0@,
                (#[trigger] s[q]).0@,
            ) by {
                assert(lex_lt(old_seq[p2].0@, old_seq[q].0@));
            }
            assert(dest_nums(s)[i as int] == an);
            assert(crate::address::num_in_prefix(an, dest_nums(s), s.len() as int));
            assert forall|k: int|
                0 <= k < s.len() implies (dest_nums(s)[k] == an || crate::address::num_in_prefix(
                #[trigger] dest_nums(s)[k],
                dest_nums(old_seq),
                old_seq.len() as int,
            )) by {
                if k != i as int {
                    assert(s[k] == old_seq[k]);
                    assert(dest_nums(s)[k] == dest_nums(old_seq)[k]);
                }
            }
            assert forall|j: int|
                0 <= j < old_seq.len() implies crate::address::num_in_prefix(
                #[trigger] dest_nums(old_seq)[j],
                dest_nums(s),
                s.len() as int,
            ) by {
                if j == i as int {
                    assert(dest_nums(old_seq)[j] == an && dest_nums(s)[i as int] == an);
                } else {
                    assert(s[j] == old_seq[j]);
                    assert(dest_nums(s)[j] == dest_nums(old_seq)[j]);
                }
            }
        }
    } else {
        dests.insert(i, (addr, ekf));
        proof {
            let s = dests@;
            assert(s =~= old_seq.insert(i as int, (addr, ekf)));
            assert(s[i as int] == (addr, ekf));
            assert forall|p2: int, q: int| 0 <= p2 < q < s.len() implies lex_lt(
                (#[trigger] s[p2]).0@,
                (#[trigger] s[q]).0@,
            ) by {
                if (i as int) < old_seq.len() {
                    lemma_lex_trichotomy(old_seq[i as int].0@, addr@);
                }
                if p2 < i as int && q > i as int {
                    assert(lex_lt(old_seq[p2].0@, addr@));
                    if q > i as int + 1 {
                        assert(lex_lt(old_seq[i as int].0@, old_seq[q - 1].0@));
                    }
                }
                if p2 == i as int && q > i as int {
                    if q > i as int + 1 {
                        crate::address::lemma_lex_lt_transitive(
                            addr@,
                            old_seq[i as int].0@,
                            old_seq[q - 1].0@,
                        );
                    }
                }
                if q == i as int {
                    assert(lex_lt(old_seq[p2].0@, addr@));
                }
                if p2 < i as int && q < i as int {
                    assert(lex_lt(old_seq[p2].0@, old_seq[q].0@));
                }
                if p2 > i as int {
                    assert(lex_lt(old_seq[p2 - 1].0@, old_seq[q - 1].0@));
                }
            }
            assert(!(exists|j: int|
                0 <= j < old_seq.len() && (#[trigger] old_seq[j]).0@ == addr@)) by {
                if exists|j: int| 0 <= j < old_seq.len() && (#[trigger] old_seq[j]).0@ == addr@ {
                    let j = choose|j: int|
                        0 <= j < old_seq.len() && (#[trigger] old_seq[j]).0@ == addr@;
                    if j < i as int {
                        lemma_lex_trichotomy(old_seq[j].0@, addr@);
                    } else if (i as int) < old_seq.len() {
                        if j > i as int {
                            assert(lex_lt(old_seq[i as int].0@, old_seq[j].0@));
                        }
                        lemma_lex_trichotomy(old_seq[i as int].0@, addr@);
                    }
                }
            }
            assert(!crate::address::num_in_prefix(
                an,
                dest_nums(old_seq),
                old_seq.len() as int,
            )) by {
                if crate::address::num_in_prefix(an, dest_nums(old_seq), old_seq.len() as int) {
                    let j = choose|j: int|
                        0 <= j < old_seq.len() as int && an == #[trigger] dest_nums(old_seq)[j];
                    assert(crate::address::addr_num(old_seq[j].0@) == an);
                    crate::address::lemma_addr_num_injective(old_seq[j].0@, addr@);
                    assert(old_seq[j].0@ == addr@);
                }
            }
            assert(dest_nums(s)[i as int] == an);
            assert(crate::address::num_in_prefix(an, dest_nums(s), s.len() as int));
            assert forall|k: int|
                0 <= k < s.len() implies (dest_nums(s)[k] == an || crate::address::num_in_prefix(
                #[trigger] dest_nums(s)[k],
                dest_nums(old_seq),
                old_seq.len() as int,
            )) by {
                if k < i as int {
                    assert(s[k] == old_seq[k]);
                    assert(dest_nums(s)[k] == dest_nums(old_seq)[k]);
                } else if k > i as int {
                    assert(s[k] == old_seq[k - 1]);
                    assert(dest_nums(s)[k] == dest_nums(old_seq)[k - 1]);
                }
            }
            assert forall|j: int|
                0 <= j < old_seq.len() implies crate::address::num_in_prefix(
                #[trigger] dest_nums(old_seq)[j],
                dest_nums(s),
                s.len() as int,
            ) by {
                if j < i as int {
                    assert(s[j] == old_seq[j]);
                    assert(dest_nums(s)[j] == dest_nums(old_seq)[j]);
                } else {
                    assert(s[j + 1] == old_seq[j]);
                    assert(dest_nums(s)[j + 1] == dest_nums(old_seq)[j]);
                }
            }
        }
    }
}


/// The plaintext sealed for one delegate: the publisher's signature and the
/// serialized manifest, as a two-field payload.
pub open spec fn spec_auth_tmap(sig: Seq<u8>, tmap: Seq<u8>) -> Seq<u8> {
    enc_payload(seq![(NAME_SIGNATURE, FieldVal::Bytes(sig)), (NAME_TMAP, FieldVal::Bytes(tmap))])
}

/// Whether a recovered plaintext carries a serialized manifest signed by the
/// holder of the verifying key `vk`.
pub open spec fn spec_signed_tmap(pt: Seq<u8>, vk: Seq<u8>, tmap: Seq<u8>) -> bool {
    exists|sig: Seq<u8>|
        pt == #[trigger] spec_auth_tmap(sig, tmap) && sig.len() == 64 && engine::sig_valid(
            sig,
            vk,
            tmap,
        )
}

/// A treasure map sealed for one delegate, bound to the publisher by a
/// signature inside the ciphertext.
#[derive(Debug, PartialEq, Eq)]
pub struct EncryptedTreasureMap {
    capsule: Vec<u8>,
    ciphertext: Vec<u8>,
}

impl EncryptedTreasureMap {
    /// Both parts fit their length-prefixed encodings.
    #[verifier::type_invariant]
    pub open spec fn wf(self) -> bool {
        &&& fits_u32(self.spec_capsule().len() as int)
        &&& fits_u32(self.spec_ciphertext().len() as int)
    }

    pub closed spec fn spec_capsule(self) -> Seq<u8> {
        self.capsule@
    }

    pub closed spec fn spec_ciphertext(self) -> Seq<u8> {
        self.ciphertext@
    }

    /// Whether this sealed map carries `tmap`, signed under `signer_vk`,
    /// for the holder of `recipient_pk`.
    pub open spec fn spec_sealed_for(
        self,
        signer_vk: Seq<u8>,
        recipient_pk: Seq<u8>,
        tmap: Seq<u8>,
    ) -> bool {
        exists|sig: Seq<u8>|
            {
                &&& #[trigger] engine::sig_valid(sig, signer_vk, tmap)
                &&& sig.len() == 64
                &&& forall|seed: Seq<u8>|
                    seed.len() == 32 && engine::public_key_of(seed) == recipient_pk
                        ==> engine::umbral_decrypt_original(
                        seed,
                        self.spec_capsule(),
                        self.spec_ciphertext(),
                    ) == Some(spec_auth_tmap(sig, tmap))
            }
    }

    /// The two named fields of the payload.
    pub open spec fn spec_fields(self) -> Seq<(u32, FieldVal)> {
        seq![
            (NAME_CAPSULE, FieldVal::Bytes(self.spec_capsule())),
            (NAME_CIPHERTEXT, FieldVal::Bytes(self.spec_ciphertext())),
        ]
    }

    pub open spec fn spec_payload(self) -> Seq<u8> {
        enc_payload(self.spec_fields())
    }

    /// The full wire form.
    pub open spec fn spec_bytes(self) -> Seq<u8> {
        enc_envelope(
            BRAND_ENCRYPTED_TREASURE_MAP,
            PROTOCOL_MAJOR,
            PROTOCOL_MINOR,
            self.spec_payload(),
        )
    }

    /// Opens the sealed map with the delegate's secret key, checks the
    /// publisher's signature over the recovered manifest, and parses it.
    /// Success returns a manifest whose wire form was signed under the
    /// supplied publisher key, and is owed whenever the ciphertext carries
    /// a well-formed manifest signed under that key; every failure is a
    /// `CryptoError`.
    pub fn decrypt(&self, sk: &SecretKey, publisher_verifying_key: &PublicKey) -> (r: Result<
        TreasureMap,
        Error,
    >)
        ensures
            r matches Ok(tm) ==> (engine::umbral_decrypt_original(
                sk@,
                self.spec_capsule(),
                self.spec_ciphertext(),
            ) matches Some(pt) && spec_signed_tmap(pt, publisher_verifying_key@, tm.spec_bytes())),
            forall|sig: Seq<u8>, tm: TreasureMap|
                {
                    &&& sig.len() == 64
                    &&& tm.wf()
                    &&& engine::umbral_decrypt_original(
                        sk@,
                        self.spec_capsule(),
                        self.spec_ciphertext(),
                    ) == Some(#[trigger] spec_auth_tmap(sig, tm.spec_bytes()))
                    &&& engine::sig_valid(sig, publisher_verifying_key@, tm.spec_bytes())
                } ==> r is Ok,
            r is Err ==> r == Err::<TreasureMap, Error>(Error::CryptoError),
    {
        let ghost hyp = exists|sig: Seq<u8>, tm: TreasureMap|
            {
                &&& sig.len() == 64
                &&& tm.wf()
                &&& engine::umbral_decrypt_original(
                    sk@,
                    self.spec_capsule(),
                    self.spec_ciphertext(),
                ) == Some(#[trigger] spec_auth_tmap(sig, tm.spec_bytes()))
                &&& engine::sig_valid(sig, publisher_verifying_key@, tm.spec_bytes())
            };
        let ghost (wsig, wtm): (Seq<u8>, TreasureMap) = if hyp {
            choose|sig: Seq<u8>, tm: TreasureMap|
                {
                    &&& sig.len() == 64
                    &&& tm.wf()
                    &&& engine::umbral_decrypt_original(
                        sk@,
                        self.spec_capsule(),
                        self.spec_ciphertext(),
                    ) == Some(#[trigger] spec_auth_tmap(sig, tm.spec_bytes()))
                    &&& engine::sig_valid(sig, publisher_verifying_key@, tm.spec_bytes())
                }
        } else {
            (arbitrary(), arbitrary())
        };
        proof {
            if hyp {
                wtm.lemma_bytes_len_bound();
            }
        }
        let seed_bytes = crate::keys::secret_seed_bytes(sk);
        let pt = match engine::decrypt_original_bytes(
            seed_bytes.as_slice(),
            self.capsule.as_slice(),
            self.ciphertext.as_slice(),
        ) {
            Ok(v) => v,
            Err(_) => {
                proof {
                    assert(!hyp);
                }
                return Err(Error::CryptoError);
            },
        };
        proof {
            assert(pt@.subrange(0, pt@.len() as int) =~= pt@);
        }
        let mut fs = match parse_payload(pt.as_slice(), 0) {
            Some(fs) => fs,
            None => {
                proof {
                    assert(!hyp);
                }
                return Err(Error::CryptoError);
            },
        };
        let ghost fl = field_views(fs@);
        if fs.len() != 2 {
            proof {
                assert(!hyp);
            }
            return Err(Error::CryptoError);
        }
        let f0 = fs.remove(0);
        let f1 = fs.remove(0);
        proof {
            assert(crate::fields::field_view(f0.1) == fl[0].1);
            assert(crate::fields::field_view(f1.1) == fl[1].1);
        }
        if f0.0 != NAME_SIGNATURE || f1.0 != NAME_TMAP {
            proof {
                assert(!hyp);
            }
            return Err(Error::CryptoError);
        }
        let sig = match f0.1 {
            ParsedField::Bytes(b) => b,
            _ => {
                proof {
                    assert(!hyp);
                }
                return Err(Error::CryptoError);
            },
        };
        let tm_bytes = match f1.1 {
            ParsedField::Bytes(b) => b,
            _ => {
                proof {
                    assert(!hyp);
                }
                return Err(Error::CryptoError);
            },
        };
        if sig.len() != 64 {
            proof {
                assert(!hyp);
            }
            return Err(Error::CryptoError);
        }
        let vk = publisher_verifying_key.to_compressed_bytes();
        let ok = engine::verify_signature_bytes(sig.as_slice(), vk.as_slice(), tm_bytes.as_slice());
        if !ok {
            proof {
                assert(!hyp);
            }
            return Err(Error::CryptoError);
        }
        let tm = match TreasureMap::from_bytes(tm_bytes.as_slice()) {
            Ok(tm) => tm,
            Err(_) => {
                return Err(Error::CryptoError);
            },
        };
        proof {
            assert(pt@ == spec_auth_tmap(sig@, tm_bytes@)) by {
                assert(fl =~= seq![
                    (NAME_SIGNATURE, FieldVal::Bytes(sig@)),
                    (NAME_TMAP, FieldVal::Bytes(tm_bytes@)),
                ]);
            }
            assert(tm_bytes@ == tm.spec_bytes());
            assert(spec_signed_tmap(pt@, publisher_verifying_key@, tm.spec_bytes()));
        }
        Ok(tm)
    }

    /// Serializes the sealed map; the result is exactly its wire form.
    pub fn to_bytes(&self) -> (r: Vec<u8>)
        ensures
            r@ == self.spec_bytes(),
    {
        proof {
            use_type_invariant(&*self);
        }
        let mut payload: Vec<u8> = Vec::new();
        write_u8(&mut payload, 2);
        write_field_bytes(&mut payload, NAME_CAPSULE, self.capsule.as_slice());
        write_field_bytes(&mut payload, NAME_CIPHERTEXT, self.ciphertext.as_slice());
        proof {
            crate::fields::lemma_enc_fields_unfold2(self.spec_fields());
            assert(payload@ =~= self.spec_payload());
        }
        write_envelope(BRAND_ENCRYPTED_TREASURE_MAP, &payload)
    }

    /// Parses a sealed map from its wire form.  Exactly the encodings of
    /// well-formed sealed maps are accepted.
    pub fn from_bytes(data: &[u8]) -> (r: Result<EncryptedTreasureMap, Error>)
        ensures
            r matches Ok(v) ==> data@ == v.spec_bytes(),
            forall|v: EncryptedTreasureMap|
                v.wf() && data@ == #[trigger] v.spec_bytes() ==> r is Ok,
            crate::codec::header_error(data@, BRAND_ENCRYPTED_TREASURE_MAP) matches Some(e) ==> r
                == Err::<EncryptedTreasureMap, Error>(e),
            r matches Err(e) ==> (crate::codec::header_error(data@, BRAND_ENCRYPTED_TREASURE_MAP)
                == Some(e) || (crate::codec::header_error(data@, BRAND_ENCRYPTED_TREASURE_MAP)
                is None && e == Error::FieldError)),
    {
        let ghost hyp = exists|v: EncryptedTreasureMap|
            v.wf() && data@ == #[trigger] v.spec_bytes();
        let ghost w: EncryptedTreasureMap = if hyp {
            choose|v: EncryptedTreasureMap| v.wf() && data@ == #[trigger] v.spec_bytes()
        } else {
            arbitrary()
        };
        proof {
            if hyp {
                lemma_peel_envelope(
                    data@,
                    BRAND_ENCRYPTED_TREASURE_MAP,
                    PROTOCOL_MAJOR,
                    PROTOCOL_MINOR,
                    w.spec_payload(),
                );
                assert(fields_fit(w.spec_fields()));
            }
        }
        let pos0 = match read_envelope(data, BRAND_ENCRYPTED_TREASURE_MAP) {
            Ok(p) => p,
            Err(e) => {
                proof {
                    assert(!hyp);
                }
                return Err(e);
            },
        };
        let mut fs = match parse_payload(data, pos0) {
            Some(fs) => fs,
            None => {
                proof {
                    assert(!hyp);
                }
                return Err(Error::FieldError);
            },
        };
        let ghost fl = field_views(fs@);
        proof {
            if hyp {
                assert(fl == w.spec_fields());
            }
        }
        if fs.len() != 2 {
            proof {
                assert(!hyp);
            }
            return Err(Error::FieldError);
        }
        let f0 = fs.remove(0);
        let f1 = fs.remove(0);
        proof {
            assert(crate::fields::field_view(f0.1) == fl[0].1);
            assert(crate::fields::field_view(f1.1) == fl[1].1);
        }
        if f0.0 != NAME_CAPSULE || f1.0 != NAME_CIPHERTEXT {
            proof {
                assert(!hyp);
            }
            return Err(Error::FieldError);
        }
        let capsule = match f0.1 {
            ParsedField::Bytes(b) => b,
            _ => {
                proof {
                    assert(!hyp);
                }
                return Err(Error::FieldError);
            },
        };
        let ciphertext = match f1.1 {
            ParsedField::Bytes(b) => b,
            _ => {
                proof {
                    assert(!hyp);
                }
                return Err(Error::FieldError);
            },
        };
        let result = EncryptedTreasureMap { capsule, ciphertext };
        proof {
            assert(result.spec_fields() =~= fl);
            assert(crate::codec::u16_val(data@.subrange(6, 8)) == PROTOCOL_MINOR);
            lemma_envelope_assemble(data@, BRAND_ENCRYPTED_TREASURE_MAP);
            assert(data@ == result.spec_bytes());
        }
        Ok(result)
    }
}

} // verus!
