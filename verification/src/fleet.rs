use vstd::prelude::*;

use crate::address::{bytes_lt, lemma_lex_total_ordering, lemma_lex_trichotomy, lex_leq_fn,
    lex_lt};
use crate::codec::views_of;
use crate::engine;
use crate::errors::Error;
use crate::keys::clone_bytes;
use crate::node_metadata::NodeMetadata;

verus! {

/// The canonicalization key of one announcement: the node's address, then
/// its full wire form.  Sorting by this key orders nodes by address, with
/// the serialized record breaking ties, so the digest input depends only on
/// which announcements are present.
pub open spec fn spec_node_key(n: NodeMetadata) -> Seq<u8> {
    n.spec_node_payload().spec_canonical_address() + n.spec_bytes()
}

/// All byte strings of a list, laid end to end.
pub open spec fn cat_all(s: Seq<Seq<u8>>) -> Seq<u8>
    decreases s.len(),
{
    if s.len() == 0 {
        Seq::<u8>::empty()
    } else {
        s[0] + cat_all(s.drop_first())
    }
}

pub proof fn lemma_cat_all_push(s: Seq<Seq<u8>>, x: Seq<u8>)
    ensures
        cat_all(s.push(x)) == cat_all(s) + x,
    decreases s.len(),
{
    if s.len() == 0 {
        assert(s.push(x).len() == 1);
        assert(s.push(x)[0] == x);
        assert(s.push(x).drop_first() =~= Seq::<Seq<u8>>::empty());
        assert(cat_all(Seq::<Seq<u8>>::empty()) == Seq::<u8>::empty());
        assert(x + Seq::<u8>::empty() =~= Seq::<u8>::empty() + x);
        assert(cat_all(s) == Seq::<u8>::empty());
    } else {
        assert(s.push(x).drop_first() =~= s.drop_first().push(x));
        lemma_cat_all_push(s.drop_first(), x);
        assert(s.push(x)[0] == s[0]);
        assert(cat_all(s.push(x)) == s[0] + (cat_all(s.drop_first()) + x));
        crate::codec::lemma_concat_assoc(s[0], cat_all(s.drop_first()), x);
    }
}

/// The canonical digest of a multiset of keys: sort, lay end to end, hash.
pub open spec fn spec_checksum_keys(keys: Seq<Seq<u8>>) -> Seq<u8> {
    engine::keccak_digest(cat_all(keys.sort_by(lex_leq_fn())))
}

/// The keys of an optional self-record and a list of peers, in input order.
pub open spec fn spec_node_keys(this: Option<NodeMetadata>, others: Seq<NodeMetadata>) -> Seq<
    Seq<u8>,
> {
    (match this {
        Option::None => Seq::<Seq<u8>>::empty(),
        Option::Some(n) => seq![spec_node_key(n)],
    }) + others.map_values(|n: NodeMetadata| spec_node_key(n))
}

/// Two inputs holding the same announcements, in any order, digest to the
/// same checksum: the checksum depends only on the multiset of keys.
pub proof fn lemma_checksum_order_independent(k1: Seq<Seq<u8>>, k2: Seq<Seq<u8>>)
    requires
        k1.to_multiset() == k2.to_multiset(),
    ensures
        spec_checksum_keys(k1) == spec_checksum_keys(k2),
{
    lemma_lex_total_ordering();
    k1.lemma_sort_by_ensures(lex_leq_fn());
    k2.lemma_sort_by_ensures(lex_leq_fn());
    vstd::seq_lib::lemma_sorted_unique(
        k1.sort_by(lex_leq_fn()),
        k2.sort_by(lex_leq_fn()),
        lex_leq_fn(),
    );
}

proof fn lemma_seq_insert_multiset(s: Seq<Seq<u8>>, i: int, x: Seq<u8>)
    requires
        0 <= i <= s.len(),
    ensures
        s.insert(i, x).to_multiset() =~= s.to_multiset().insert(x),
{
    broadcast use vstd::seq_lib::group_to_multiset_ensures;

    assert(s.insert(i, x) =~= s.take(i) + seq![x] + s.skip(i));
    assert(s =~= s.take(i) + s.skip(i));
    vstd::seq_lib::lemma_multiset_commutative(s.take(i) + seq![x], s.skip(i));
    vstd::seq_lib::lemma_multiset_commutative(s.take(i), seq![x]);
    vstd::seq_lib::lemma_multiset_commutative(s.take(i), s.skip(i));
    assert(seq![x].to_multiset() =~= Seq::<Seq<u8>>::empty().to_multiset().insert(x)) by {
        assert(seq![x] =~= Seq::<Seq<u8>>::empty().push(x));
    }
}

/// Inserts a key into a sorted list, keeping it sorted.
fn insert_key(out: &mut Vec<Vec<u8>>, key: Vec<u8>)
    requires
        vstd::relations::sorted_by(views_of(old(out)@), lex_leq_fn()),
    ensures
        vstd::relations::sorted_by(views_of(final(out)@), lex_leq_fn()),
        views_of(final(out)@).to_multiset() =~= views_of(old(out)@).to_multiset().insert(key@),
{
    let ghost old_views = views_of(out@);
    let mut i: usize = 0;
    while i < out.len() && bytes_lt(out[i].as_slice(), key.as_slice())
        invariant
            views_of(out@) == old_views,
            vstd::relations::sorted_by(old_views, lex_leq_fn()),
            i <= out@.len(),
            forall|j: int| 0 <= j < i as int ==> lex_lt(#[trigger] old_views[j], key@),
        decreases out@.len() - i,
    {
        i = i + 1;
    }
    let ghost kview = key@;
    out.insert(i, key);
    proof {
        let s = views_of(out@);
        assert(s =~= old_views.insert(i as int, kview));
        let leq = lex_leq_fn();
        assert forall|p: int, q: int| 0 <= p < q < s.len() implies #[trigger] leq(s[p], s[q]) by {
            if (i as int) < old_views.len() {
                lemma_lex_trichotomy(old_views[i as int], kview);
            }
            if p < i as int && q == i as int {
                assert(lex_lt(old_views[p], kview));
            }
            if p == i as int && q > i as int {
                lemma_lex_trichotomy(old_views[i as int], kview);
                assert(leq(old_views[i as int], old_views[q - 1]));
                if kview != old_views[i as int] && old_views[i as int] != old_views[q - 1] {
                    crate::address::lemma_lex_lt_transitive(
                        kview,
                        old_views[i as int],
                        old_views[q - 1],
                    );
                }
            }
            if p < i as int && q > i as int {
                assert(leq(old_views[p], old_views[q - 1]));
            }
            if p > i as int {
                assert(leq(old_views[p - 1], old_views[q - 1]));
            }
            if q < i as int {
                assert(leq(old_views[p], old_views[q]));
            }
        }
        lemma_seq_insert_multiset(old_views, i as int, kview);
    }
}

/// A 32-byte digest of the whole node directory, independent of the order
/// announcements arrived in.
#[derive(Debug, PartialEq, Eq)]
pub struct FleetStateChecksum {
    checksum: Vec<u8>,
}

impl View for FleetStateChecksum {
    type V = Seq<u8>;

    closed spec fn view(&self) -> Seq<u8> {
        self.checksum@
    }
}

impl FleetStateChecksum {
    /// A checksum is exactly 32 bytes.
    #[verifier::type_invariant]
    pub open spec fn wf(self) -> bool {
        self@.len() == 32
    }

    /// Digests the directory: an optional self-record plus the peer list,
    /// canonicalized by sorting the node keys, so any arrival order of the
    /// same announcements yields the same checksum.
    pub fn from_nodes(this_node: Option<&NodeMetadata>, other_nodes: &Vec<NodeMetadata>) -> (r:
        FleetStateChecksum)
        ensures
            r@ == spec_checksum_keys(
                spec_node_keys(
                    match this_node {
                        Option::None => Option::None,
                        Option::Some(n) => Option::Some(*n),
                    },
                    other_nodes@,
                ),
            ),
    {
        let ghost all_keys = spec_node_keys(
            match this_node {
                Option::None => Option::None,
                Option::Some(n) => Option::Some(*n),
            },
            other_nodes@,
        );
        let mut keys: Vec<Vec<u8>> = Vec::new();
        proof {
            assert(other_nodes@.take(0) =~= Seq::<NodeMetadata>::empty());
            assert(Seq::<NodeMetadata>::empty().map_values(|n: NodeMetadata| spec_node_key(n))
                =~= Seq::<Seq<u8>>::empty());
        }
        match this_node {
            Option::None => {
                proof {
                    assert(views_of(keys@) =~= spec_node_keys(
                        Option::<NodeMetadata>::None,
                        other_nodes@.take(0),
                    ));
                }
            },
            Option::Some(n) => {
                let mut key = n.payload().canonical_address();
                let node_bytes = n.to_bytes();
                crate::codec::push_all(&mut key, node_bytes.as_slice());
                proof {
                    assert(key@ == spec_node_key(*n));
                }
                keys.push(key);
                proof {
                    assert(views_of(keys@) =~= spec_node_keys(
                        Option::Some(*n),
                        other_nodes@.take(0),
                    ));
                }
            },
        }
        let mut k: usize = 0;
        while k < other_nodes.len()
            invariant
                k <= other_nodes@.len(),
                views_of(keys@) =~= spec_node_keys(
                    match this_node {
                        Option::None => Option::<NodeMetadata>::None,
                        Option::Some(n) => Option::Some(*n),
                    },
                    other_nodes@.take(k as int),
                ),
            decreases other_nodes@.len() - k,
        {
            let n = &other_nodes[k];
            let mut key = n.payload().canonical_address();
            let node_bytes = n.to_bytes();
            crate::codec::push_all(&mut key, node_bytes.as_slice());
            proof {
                assert(key@ == spec_node_key(other_nodes@[k as int]));
            }
            let ghost kv = views_of(keys@);
            keys.push(key);
            proof {
                assert(views_of(keys@) =~= kv.push(key@));
                assert(other_nodes@.take(k + 1) =~= other_nodes@.take(k as int).push(
                    other_nodes@[k as int],
                ));
                assert(other_nodes@.take(k + 1).map_values(|n: NodeMetadata| spec_node_key(n))
                    =~= other_nodes@.take(k as int).map_values(
                    |n: NodeMetadata| spec_node_key(n),
                ).push(spec_node_key(other_nodes@[k as int])));
                assert(spec_node_keys(
                    match this_node {
                        Option::None => Option::<NodeMetadata>::None,
                        Option::Some(n) => Option::Some(*n),
                    },
                    other_nodes@.take(k + 1),
                ) =~= kv.push(spec_node_key(other_nodes@[k as int])));
                assert(views_of(keys@) =~= spec_node_keys(
                    match this_node {
                        Option::None => Option::<NodeMetadata>::None,
                        Option::Some(n) => Option::Some(*n),
                    },
                    other_nodes@.take(k + 1),
                ));
            }
            k = k + 1;
        }
        proof {
            assert(other_nodes@.take(other_nodes@.len() as int) =~= other_nodes@);
            assert(views_of(keys@) =~= all_keys);
        }
        let mut sorted: Vec<Vec<u8>> = Vec::new();
        let mut j: usize = 0;
        proof {
            broadcast use vstd::seq_lib::group_to_multiset_ensures;

            assert(views_of(sorted@) =~= Seq::<Seq<u8>>::empty());
            assert(views_of(keys@).take(0) =~= Seq::<Seq<u8>>::empty());
        }
        while j < keys.len()
            invariant
                j <= keys@.len(),
                views_of(keys@) == all_keys,
                vstd::relations::sorted_by(views_of(sorted@), lex_leq_fn()),
                views_of(sorted@).to_multiset() =~= views_of(keys@).take(j as int).to_multiset(),
            decreases keys@.len() - j,
        {
            let key = clone_bytes(&keys[j]);
            insert_key(&mut sorted, key);
            proof {
                broadcast use vstd::seq_lib::group_to_multiset_ensures;

                assert(views_of(keys@).take(j + 1) =~= views_of(keys@).take(j as int).push(
                    keys@[j as int]@,
                ));
            }
            j = j + 1;
        }
        proof {
            assert(views_of(keys@).take(keys@.len() as int) =~= views_of(keys@));
        }
        let mut stream: Vec<u8> = Vec::new();
        let mut t: usize = 0;
        proof {
            assert(views_of(sorted@).take(0) =~= Seq::<Seq<u8>>::empty());
            assert(cat_all(Seq::<Seq<u8>>::empty()) == Seq::<u8>::empty());
        }
        while t < sorted.len()
            invariant
                t <= sorted@.len(),
                stream@ == cat_all(views_of(sorted@).take(t as int)),
            decreases sorted@.len() - t,
        {
            crate::codec::push_all(&mut stream, sorted[t].as_slice());
            proof {
                lemma_cat_all_push(views_of(sorted@).take(t as int), sorted@[t as int]@);
                assert(views_of(sorted@).take(t + 1) =~= views_of(sorted@).take(t as int).push(
                    sorted@[t as int]@,
                ));
            }
            t = t + 1;
        }
        proof {
            assert(views_of(sorted@).take(sorted@.len() as int) =~= views_of(sorted@));
            lemma_lex_total_ordering();
            all_keys.lemma_sort_by_ensures(lex_leq_fn());
            vstd::seq_lib::lemma_sorted_unique(
                views_of(sorted@),
                all_keys.sort_by(lex_leq_fn()),
                lex_leq_fn(),
            );
        }
        let digest = engine::digest32(stream.as_slice());
        FleetStateChecksum { checksum: digest }
    }

    /// Digests the directory; the historical constructor name for
    /// `from_nodes`, with the same contract.
    pub fn new(this_node: Option<&NodeMetadata>, other_nodes: &Vec<NodeMetadata>) -> (r:
        FleetStateChecksum)
        ensures
            r@ == spec_checksum_keys(
                spec_node_keys(
                    match this_node {
                        Option::None => Option::None,
                        Option::Some(n) => Option::Some(*n),
                    },
                    other_nodes@,
                ),
            ),
    {
        FleetStateChecksum::from_nodes(this_node, other_nodes)
    }

    /// Restores a checksum from its raw 32 bytes; any other length is a
    /// `FormatError`.
    pub fn from_bytes(data: &[u8]) -> (r: Result<FleetStateChecksum, Error>)
        ensures
            r is Ok <==> data@.len() == 32,
            r matches Ok(c) ==> c@ == data@,
            r is Err ==> r == Err::<FleetStateChecksum, Error>(Error::FormatError),
    {
        if data.len() == 32 {
            Ok(FleetStateChecksum { checksum: vstd::slice::slice_to_vec(data) })
        } else {
            Err(Error::FormatError)
        }
    }

    /// The raw 32 bytes of the checksum.
    pub fn to_bytes(&self) -> (r: Vec<u8>)
        ensures
            r@ == self@,
    {
        clone_bytes(&self.checksum)
    }

    /// An owned copy of the checksum.
    pub fn duplicate(&self) -> (r: FleetStateChecksum)
        ensures
            r@ == self@,
    {
        proof {
            use_type_invariant(&*self);
        }
        FleetStateChecksum { checksum: clone_bytes(&self.checksum) }
    }
}

} // verus!
