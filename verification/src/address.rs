use vstd::prelude::*;

use crate::keys::clone_bytes;

verus! {

/// A fixed 20-byte node or account identifier.
#[derive(Debug, PartialEq, Eq)]
pub struct Address {
    bytes: Vec<u8>,
}

impl View for Address {
    type V = Seq<u8>;

    closed spec fn view(&self) -> Seq<u8> {
        self.bytes@
    }
}

impl Address {
    /// An address is exactly 20 bytes.
    #[verifier::type_invariant]
    pub open spec fn wf(self) -> bool {
        self@.len() == 20
    }

    /// The validated factory: any length other than 20 is rejected.
    pub fn from_slice(data: &[u8]) -> (r: Option<Address>)
        ensures
            r is Some <==> data@.len() == 20,
            r matches Some(a) ==> a@ == data@,
    {
        if data.len() == 20 {
            Option::Some(Address { bytes: vstd::slice::slice_to_vec(data) })
        } else {
            Option::None
        }
    }

    /// The raw bytes of the address.
    pub fn as_bytes(&self) -> (r: Vec<u8>)
        ensures
            r@ == self@,
    {
        clone_bytes(&self.bytes)
    }

    pub(crate) fn bytes_ref(&self) -> (r: &Vec<u8>)
        ensures
            r@ == self@,
    {
        &self.bytes
    }

    /// An owned copy of the address.
    pub fn duplicate(&self) -> (r: Address)
        ensures
            r@ == self@,
    {
        proof {
            use_type_invariant(&*self);
        }
        Address { bytes: clone_bytes(&self.bytes) }
    }
}

// ---------------------------------------------------------------------------
// Lexicographic order on byte strings: the canonical order for addresses and
// for checksum inputs.
// ---------------------------------------------------------------------------

/// Strict lexicographic order on byte strings; a proper prefix comes first.
pub open spec fn lex_lt(a: Seq<u8>, b: Seq<u8>) -> bool
    decreases a.len(),
{
    if b.len() == 0 {
        false
    } else if a.len() == 0 {
        true
    } else if a[0] < b[0] {
        true
    } else if a[0] > b[0] {
        false
    } else {
        lex_lt(a.drop_first(), b.drop_first())
    }
}

pub open spec fn lex_leq(a: Seq<u8>, b: Seq<u8>) -> bool {
    lex_lt(a, b) || a == b
}

/// The order as a function value, for sorting specifications.
pub open spec fn lex_leq_fn() -> spec_fn(Seq<u8>, Seq<u8>) -> bool {
    |a: Seq<u8>, b: Seq<u8>| lex_leq(a, b)
}

pub proof fn lemma_lex_irreflexive(a: Seq<u8>)
    ensures
        !lex_lt(a, a),
    decreases a.len(),
{
    if a.len() > 0 {
        lemma_lex_irreflexive(a.drop_first());
    }
}

/// Exactly one of `lex_lt(a, b)`, `lex_lt(b, a)`, `a == b` holds.
pub proof fn lemma_lex_trichotomy(a: Seq<u8>, b: Seq<u8>)
    ensures
        lex_lt(a, b) || lex_lt(b, a) || a == b,
        lex_lt(a, b) ==> !lex_lt(b, a) && a != b,
        lex_lt(b, a) ==> !lex_lt(a, b) && a != b,
    decreases a.len(),
{
    lemma_lex_irreflexive(a);
    lemma_lex_irreflexive(b);
    if a.len() == 0 || b.len() == 0 {
        if a.len() == 0 && b.len() == 0 {
            assert(a =~= b);
        }
    } else if a[0] == b[0] {
        lemma_lex_trichotomy(a.drop_first(), b.drop_first());
        if a.drop_first() == b.drop_first() {
            assert forall|i: int| 0 <= i < a.len() implies a[i] == b[i] by {
                if i > 0 {
                    assert(a[i] == a.drop_first()[i - 1]);
                    assert(b[i] == b.drop_first()[i - 1]);
                }
            }
            assert(a =~= b);
        }
        if a == b {
            assert(a.drop_first() =~= b.drop_first());
        }
    }
}

pub proof fn lemma_lex_lt_transitive(a: Seq<u8>, b: Seq<u8>, c: Seq<u8>)
    requires
        lex_lt(a, b),
        lex_lt(b, c),
    ensures
        lex_lt(a, c),
    decreases a.len(),
{
    if a.len() == 0 {
    } else if b.len() == 0 {
    } else if c.len() == 0 {
    } else {
        if a[0] == b[0] && b[0] == c[0] {
            lemma_lex_lt_transitive(a.drop_first(), b.drop_first(), c.drop_first());
        }
    }
}

/// `lex_leq` is a total ordering, fit for canonical sorting.
pub proof fn lemma_lex_total_ordering()
    ensures
        vstd::relations::total_ordering(lex_leq_fn()),
{
    let leq = lex_leq_fn();
    assert forall|a: Seq<u8>| #[trigger] leq(a, a) by {}
    assert forall|a: Seq<u8>, b: Seq<u8>| #[trigger] leq(a, b) && #[trigger] leq(b, a) implies a
        == b by {
        lemma_lex_trichotomy(a, b);
    }
    assert forall|a: Seq<u8>, b: Seq<u8>, c: Seq<u8>|
        #[trigger] leq(a, b) && #[trigger] leq(b, c) implies leq(a, c) by {
        if a != b && b != c {
            lemma_lex_lt_transitive(a, b, c);
        }
    }
    assert forall|a: Seq<u8>, b: Seq<u8>| #[trigger] leq(a, b) || #[trigger] leq(b, a) by {
        lemma_lex_trichotomy(a, b);
    }
}

/// One step of walking two byte strings with a common prefix.
pub proof fn lemma_lex_lt_step(a: Seq<u8>, b: Seq<u8>, i: int)
    requires
        0 <= i < a.len(),
        0 <= i < b.len(),
        a[i] == b[i],
    ensures
        lex_lt(a.skip(i), b.skip(i)) == lex_lt(a.skip(i + 1), b.skip(i + 1)),
{
    assert(a.skip(i).len() > 0);
    assert(b.skip(i).len() > 0);
    assert(a.skip(i)[0] == a[i]);
    assert(b.skip(i)[0] == b[i]);
    assert(a.skip(i).drop_first() =~= a.skip(i + 1));
    assert(b.skip(i).drop_first() =~= b.skip(i + 1));
}

/// Compares two byte strings in lexicographic order.
pub fn bytes_lt(a: &[u8], b: &[u8]) -> (r: bool)
    ensures
        r == lex_lt(a@, b@),
{
    let mut i: usize = 0;
    proof {
        assert(a@.skip(0) =~= a@);
        assert(b@.skip(0) =~= b@);
    }
    while i < a.len() && i < b.len()
        invariant
            i <= a@.len(),
            i <= b@.len(),
            lex_lt(a@, b@) == lex_lt(a@.skip(i as int), b@.skip(i as int)),
        decreases a@.len() - i,
    {
        let x = a[i];
        let y = b[i];
        if x < y {
            proof {
                assert(a@.skip(i as int)[0] == x);
                assert(b@.skip(i as int)[0] == y);
            }
            return true;
        }
        if x > y {
            proof {
                assert(a@.skip(i as int)[0] == x);
                assert(b@.skip(i as int)[0] == y);
            }
            return false;
        }
        proof {
            lemma_lex_lt_step(a@, b@, i as int);
        }
        i = i + 1;
    }
    if i >= a.len() {
        proof {
            assert(a@.skip(i as int).len() == 0);
        }
        return a.len() < b.len();
    }
    proof {
        assert(b@.skip(i as int).len() == 0);
        assert(a@.skip(i as int).len() > 0);
    }
    false
}

/// Compares two byte strings for equality.
pub fn bytes_eq(a: &[u8], b: &[u8]) -> (r: bool)
    ensures
        r == (a@ == b@),
{
    if a.len() != b.len() {
        return false;
    }
    let mut i: usize = 0;
    while i < a.len()
        invariant
            a@.len() == b@.len(),
            i <= a@.len(),
            a@.take(i as int) == b@.take(i as int),
        decreases a@.len() - i,
    {
        if a[i] != b[i] {
            proof {
                assert(a@[i as int] != b@[i as int]);
            }
            return false;
        }
        proof {
            assert(a@.take(i + 1) =~= a@.take(i as int).push(a@[i as int]));
            assert(b@.take(i + 1) =~= b@.take(i as int).push(b@[i as int]));
        }
        i = i + 1;
    }
    proof {
        assert(a@.take(a@.len() as int) =~= a@);
        assert(b@.take(b@.len() as int) =~= b@);
    }
    true
}

/// A byte string read as a base-256 number, most significant byte first.
/// Two equal-length strings with the same number are equal, which lets the
/// set bookkeeping below compare addresses as plain integers.
pub open spec fn addr_num(s: Seq<u8>) -> int
    decreases s.len(),
{
    if s.len() == 0 {
        0int
    } else {
        addr_num(s.drop_last()) * 256 + s.last()
    }
}

pub proof fn lemma_addr_num_nonneg(s: Seq<u8>)
    ensures
        addr_num(s) >= 0,
    decreases s.len(),
{
    if s.len() > 0 {
        lemma_addr_num_nonneg(s.drop_last());
        assert(addr_num(s.drop_last()) * 256 >= 0) by (nonlinear_arith)
            requires
                addr_num(s.drop_last()) >= 0,
        ;
    }
}

/// Equal-length byte strings with the same number are equal.
pub proof fn lemma_addr_num_injective(a: Seq<u8>, b: Seq<u8>)
    requires
        a.len() == b.len(),
        addr_num(a) == addr_num(b),
    ensures
        a == b,
    decreases a.len(),
{
    if a.len() == 0 {
        assert(a =~= b);
    } else {
        let pa = addr_num(a.drop_last());
        let pb = addr_num(b.drop_last());
        lemma_addr_num_nonneg(a.drop_last());
        lemma_addr_num_nonneg(b.drop_last());
        assert(pa == pb && a.last() == b.last()) by (nonlinear_arith)
            requires
                pa >= 0,
                pb >= 0,
                0 <= a.last() < 256,
                0 <= b.last() < 256,
                pa * 256 + a.last() == pb * 256 + b.last(),
        ;
        lemma_addr_num_injective(a.drop_last(), b.drop_last());
        assert(a =~= a.drop_last().push(a.last()));
        assert(b =~= b.drop_last().push(b.last()));
    }
}

/// Whether `x` occurs among the first `n` entries of `s`.
pub open spec fn num_in_prefix(x: int, s: Seq<int>, n: int) -> bool {
    exists|i: int| 0 <= i < n && x == #[trigger] s[i]
}

/// Set-insertion bookkeeping, first direction: if every current entry is
/// the newly inserted `inputs[n]` or one of the old entries, and every old
/// entry came from the first `n` inputs, then every current entry comes
/// from the first `n + 1`.
#[verifier::spinoff_prover]
pub proof fn lemma_accounting_origin(before: Seq<int>, cur: Seq<int>, inputs: Seq<int>, n: int)
    requires
        0 <= n < inputs.len(),
        forall|k: int| #![trigger cur[k]]
            0 <= k < cur.len() ==> (cur[k] == inputs[n] || num_in_prefix(
                cur[k],
                before,
                before.len() as int,
            )),
        forall|k: int| #![trigger before[k]]
            0 <= k < before.len() ==> num_in_prefix(before[k], inputs, n),
    ensures
        forall|k: int| #![trigger cur[k]]
            0 <= k < cur.len() ==> num_in_prefix(cur[k], inputs, n + 1),
{
    assert forall|k: int| #![trigger cur[k]]
        0 <= k < cur.len() implies num_in_prefix(cur[k], inputs, n + 1) by {
        if cur[k] == inputs[n] {
            assert(num_in_prefix(cur[k], inputs, n + 1));
        } else {
            let j = choose|j: int| 0 <= j < before.len() as int && cur[k] == #[trigger] before[j];
            let i = choose|i: int| 0 <= i < n && before[j] == #[trigger] inputs[i];
            assert(cur[k] == inputs[i]);
            assert(num_in_prefix(cur[k], inputs, n + 1));
        }
    }
}

/// Set-insertion bookkeeping, second direction: if the newly inserted
/// `inputs[n]` is present, every old entry is still present, and the first
/// `n` inputs were present before, then the first `n + 1` inputs are
/// present now.
#[verifier::spinoff_prover]
pub proof fn lemma_accounting_presence(before: Seq<int>, cur: Seq<int>, inputs: Seq<int>, n: int)
    requires
        0 <= n < inputs.len(),
        num_in_prefix(inputs[n], cur, cur.len() as int),
        forall|j: int| #![trigger before[j]]
            0 <= j < before.len() ==> num_in_prefix(before[j], cur, cur.len() as int),
        forall|i: int| #![trigger inputs[i]]
            0 <= i < n ==> num_in_prefix(inputs[i], before, before.len() as int),
    ensures
        forall|i: int| #![trigger inputs[i]]
            0 <= i < n + 1 ==> num_in_prefix(inputs[i], cur, cur.len() as int),
{
    assert forall|i: int| #![trigger inputs[i]]
        0 <= i < n + 1 implies num_in_prefix(inputs[i], cur, cur.len() as int) by {
        if i == n {
            assert(num_in_prefix(inputs[n], cur, cur.len() as int));
        } else {
            let j = choose|j: int|
                0 <= j < before.len() as int && inputs[i] == #[trigger] before[j];
            let k1 = choose|k1: int| 0 <= k1 < cur.len() as int && before[j] == #[trigger] cur[k1];
            assert(inputs[i] == cur[k1]);
            assert(num_in_prefix(inputs[i], cur, cur.len() as int));
        }
    }
}

/// Set-insertion bookkeeping, count: the insertion grows the set by one
/// exactly when the new input was absent, so with pairwise-distinct inputs
/// the count tracks how many were inserted.
#[verifier::spinoff_prover]
pub proof fn lemma_accounting_count(before: Seq<int>, cur: Seq<int>, inputs: Seq<int>, n: int)
    requires
        0 <= n < inputs.len(),
        cur.len() == before.len() + (if num_in_prefix(inputs[n], before, before.len() as int) {
            0int
        } else {
            1int
        }),
        forall|k: int| #![trigger before[k]]
            0 <= k < before.len() ==> num_in_prefix(before[k], inputs, n),
        (forall|i: int, j: int|
            0 <= i < j < n ==> #[trigger] inputs[i] != #[trigger] inputs[j]) ==> before.len()
            == n,
    ensures
        (forall|i: int, j: int|
            0 <= i < j < n + 1 ==> #[trigger] inputs[i] != #[trigger] inputs[j]) ==> cur.len()
            == n + 1,
{
    if forall|i: int, j: int|
        0 <= i < j < n + 1 ==> #[trigger] inputs[i] != #[trigger] inputs[j] {
        assert(before.len() == n);
        assert(!num_in_prefix(inputs[n], before, before.len() as int)) by {
            if num_in_prefix(inputs[n], before, before.len() as int) {
                let j = choose|j: int|
                    0 <= j < before.len() as int && inputs[n] == #[trigger] before[j];
                let i = choose|i: int| 0 <= i < n && before[j] == #[trigger] inputs[i];
                assert(inputs[i] == inputs[n]);
            }
        }
        assert(cur.len() == n + 1);
    }
}

} // verus!
