use vstd::prelude::*;

verus! {

// ---------------------------------------------------------------------------
// Specification-level encodings.
//
// Every protocol object is serialized as
//     brand(4 bytes) || major(u16 LE) || minor(u16 LE) || payload
// and a payload is a count-prefixed sequence of named fields.  The spec
// functions below define the byte strings; the executable writers and readers
// are proved exact against them.
// ---------------------------------------------------------------------------

/// The largest length a length-prefixed byte string can carry.
pub open spec fn fits_u32(n: int) -> bool {
    n <= 0xFFFF_FFFF
}

pub open spec fn enc_u8(x: u8) -> Seq<u8> {
    seq![x]
}

pub open spec fn lo8_of_u16(x: u16) -> u8 {
    (x & 0xff) as u8
}

pub open spec fn hi8_of_u16(x: u16) -> u8 {
    ((x >> 8) & 0xff) as u8
}

/// Little-endian encoding of a 16-bit value.
pub open spec fn enc_u16(x: u16) -> Seq<u8> {
    seq![lo8_of_u16(x), hi8_of_u16(x)]
}

/// The 16-bit value held by a 2-byte little-endian string.
pub open spec fn u16_val(s: Seq<u8>) -> u16
    recommends
        s.len() == 2,
{
    (s[0] as u16) | ((s[1] as u16) << 8)
}

pub open spec fn byte_of_u32(x: u32, i: int) -> u8
    recommends
        0 <= i < 4,
{
    ((x >> (8 * i)) & 0xff) as u8
}

/// Little-endian encoding of a 32-bit value.
pub open spec fn enc_u32(x: u32) -> Seq<u8> {
    seq![byte_of_u32(x, 0), byte_of_u32(x, 1), byte_of_u32(x, 2), byte_of_u32(x, 3)]
}

/// The 32-bit value held by a 4-byte little-endian string.
pub open spec fn u32_val(s: Seq<u8>) -> u32
    recommends
        s.len() == 4,
{
    (s[0] as u32) | ((s[1] as u32) << 8) | ((s[2] as u32) << 16) | ((s[3] as u32) << 24)
}

/// A length-prefixed byte string.
pub open spec fn enc_bytes(b: Seq<u8>) -> Seq<u8>
    recommends
        fits_u32(b.len() as int),
{
    enc_u32(b.len() as u32) + b
}

/// A sequence of length-prefixed byte strings, laid end to end.
pub open spec fn enc_bytes_seq(items: Seq<Seq<u8>>) -> Seq<u8>
    decreases items.len(),
{
    if items.len() == 0 {
        Seq::<u8>::empty()
    } else {
        enc_bytes(items[0]) + enc_bytes_seq(items.drop_first())
    }
}

pub open spec fn all_fit_u32(items: Seq<Seq<u8>>) -> bool {
    forall|i: int| 0 <= i < items.len() ==> fits_u32(#[trigger] items[i].len() as int)
}

// ---------------------------------------------------------------------------
// Inversion and reconstruction lemmas for the scalar encodings.
// ---------------------------------------------------------------------------

pub proof fn lemma_u16_inversion(x: u16)
    ensures
        u16_val(enc_u16(x)) == x,
{
    assert((((x & 0xff) as u8) as u16) | (((((x >> 8) & 0xff) as u8) as u16) << 8) == x)
        by (bit_vector);
}

pub proof fn lemma_u16_reconstruction(s: Seq<u8>)
    requires
        s.len() == 2,
    ensures
        enc_u16(u16_val(s)) == s,
{
    let a = s[0];
    let b = s[1];
    assert((((a as u16) | ((b as u16) << 8)) & 0xff) as u8 == a) by (bit_vector);
    assert(((((a as u16) | ((b as u16) << 8)) >> 8) & 0xff) as u8 == b) by (bit_vector);
    assert(enc_u16(u16_val(s)) =~= s);
}

pub proof fn lemma_u32_inversion(x: u32)
    ensures
        u32_val(enc_u32(x)) == x,
{
    assert((((x & 0xff) as u8) as u32) | (((((x >> 8) & 0xff) as u8) as u32) << 8) | (((((x >> 16)
        & 0xff) as u8) as u32) << 16) | (((((x >> 24) & 0xff) as u8) as u32) << 24) == x)
        by (bit_vector);
    assert(byte_of_u32(x, 0) == ((x >> 0) & 0xff) as u8);
    assert((x >> 0) == x) by (bit_vector);
}

pub proof fn lemma_u32_reconstruction(s: Seq<u8>)
    requires
        s.len() == 4,
    ensures
        enc_u32(u32_val(s)) == s,
{
    let a = s[0];
    let b = s[1];
    let c = s[2];
    let d = s[3];
    let v = u32_val(s);
    assert(v == (a as u32) | ((b as u32) << 8) | ((c as u32) << 16) | ((d as u32) << 24));
    assert({
        let v = (a as u32) | ((b as u32) << 8) | ((c as u32) << 16) | ((d as u32) << 24);
        ((v >> 0) & 0xff) as u8 == a && ((v >> 8) & 0xff) as u8 == b && ((v >> 16) & 0xff) as u8
            == c && ((v >> 24) & 0xff) as u8 == d
    }) by (bit_vector);
    assert(enc_u32(u32_val(s)) =~= s);
}

// ---------------------------------------------------------------------------
// Peeling lemmas: read one field's encoding off the front of a suffix.
// ---------------------------------------------------------------------------

/// If the suffix of `data` at `pos` is `a + rest`, then `a` sits at `pos`
/// and `rest` is the suffix after it.
pub proof fn lemma_concat_peel(data: Seq<u8>, pos: int, a: Seq<u8>, rest: Seq<u8>)
    requires
        0 <= pos <= data.len(),
        data.subrange(pos, data.len() as int) == a + rest,
    ensures
        pos + a.len() <= data.len(),
        data.subrange(pos, pos + a.len()) == a,
        data.subrange(pos + a.len(), data.len() as int) == rest,
{
    let suf = data.subrange(pos, data.len() as int);
    assert(suf.len() == a.len() + rest.len());
    assert forall|i: int| 0 <= i < a.len() implies data.subrange(pos, pos + a.len())[i] == a[i] by {
        assert(suf[i] == a[i]);
        assert(suf[i] == data[pos + i]);
    }
    assert(data.subrange(pos, pos + a.len()) =~= a);
    assert forall|i: int|
        0 <= i < rest.len() implies data.subrange(pos + a.len(), data.len() as int)[i] == rest[i] by {
        assert(suf[a.len() + i] == rest[i]);
        assert(suf[a.len() + i] == data[pos + a.len() + i]);
    }
    assert(data.subrange(pos + a.len(), data.len() as int) =~= rest);
}

pub proof fn lemma_peel_u8(data: Seq<u8>, pos: int, x: u8, rest: Seq<u8>)
    requires
        0 <= pos <= data.len(),
        data.subrange(pos, data.len() as int) == enc_u8(x) + rest,
    ensures
        pos + 1 <= data.len(),
        data[pos] == x,
        data.subrange(pos + 1, data.len() as int) == rest,
{
    lemma_concat_peel(data, pos, enc_u8(x), rest);
    assert(data[pos] == data.subrange(pos, pos + 1)[0]);
}

pub proof fn lemma_peel_u16(data: Seq<u8>, pos: int, x: u16, rest: Seq<u8>)
    requires
        0 <= pos <= data.len(),
        data.subrange(pos, data.len() as int) == enc_u16(x) + rest,
    ensures
        pos + 2 <= data.len(),
        data.subrange(pos, pos + 2) == enc_u16(x),
        u16_val(data.subrange(pos, pos + 2)) == x,
        data.subrange(pos + 2, data.len() as int) == rest,
{
    lemma_concat_peel(data, pos, enc_u16(x), rest);
    lemma_u16_inversion(x);
}

pub proof fn lemma_peel_u32(data: Seq<u8>, pos: int, x: u32, rest: Seq<u8>)
    requires
        0 <= pos <= data.len(),
        data.subrange(pos, data.len() as int) == enc_u32(x) + rest,
    ensures
        pos + 4 <= data.len(),
        data.subrange(pos, pos + 4) == enc_u32(x),
        u32_val(data.subrange(pos, pos + 4)) == x,
        data.subrange(pos + 4, data.len() as int) == rest,
{
    lemma_concat_peel(data, pos, enc_u32(x), rest);
    lemma_u32_inversion(x);
}

pub proof fn lemma_peel_bytes(data: Seq<u8>, pos: int, b: Seq<u8>, rest: Seq<u8>)
    requires
        0 <= pos <= data.len(),
        fits_u32(b.len() as int),
        data.subrange(pos, data.len() as int) == enc_bytes(b) + rest,
    ensures
        pos + 4 + b.len() <= data.len(),
        data.subrange(pos, pos + 4) == enc_u32(b.len() as u32),
        u32_val(data.subrange(pos, pos + 4)) == b.len() as u32,
        data.subrange(pos + 4, pos + 4 + b.len()) == b,
        data.subrange(pos + 4 + b.len(), data.len() as int) == rest,
{
    assert(enc_bytes(b) + rest =~= enc_u32(b.len() as u32) + (b + rest));
    lemma_peel_u32(data, pos, b.len() as u32, b + rest);
    lemma_concat_peel(data, pos + 4, b, rest);
}

// ---------------------------------------------------------------------------
// Executable writers.
// ---------------------------------------------------------------------------

pub fn push_all(out: &mut Vec<u8>, data: &[u8])
    ensures
        final(out)@ == old(out)@ + data@,
{
    let mut i: usize = 0;
    while i < data.len()
        invariant
            i <= data@.len(),
            out@ == old(out)@ + data@.subrange(0, i as int),
        decreases data@.len() - i,
    {
        out.push(data[i]);
        proof {
            assert(old(out)@ + data@.subrange(0, i as int) + seq![data@[i as int]] =~= old(out)@
                + data@.subrange(0, i + 1));
        }
        i = i + 1;
    }
    proof {
        assert(data@.subrange(0, data@.len() as int) =~= data@);
    }
}

pub fn write_u8(out: &mut Vec<u8>, x: u8)
    ensures
        final(out)@ == old(out)@ + enc_u8(x),
{
    out.push(x);
    proof {
        assert(out@ =~= old(out)@ + enc_u8(x));
    }
}

pub fn write_u16(out: &mut Vec<u8>, x: u16)
    ensures
        final(out)@ == old(out)@ + enc_u16(x),
{
    out.push((x & 0xff) as u8);
    out.push(((x >> 8) & 0xff) as u8);
    proof {
        assert(out@ =~= old(out)@ + enc_u16(x));
    }
}

pub fn write_u32(out: &mut Vec<u8>, x: u32)
    ensures
        final(out)@ == old(out)@ + enc_u32(x),
{
    out.push((x & 0xff) as u8);
    out.push(((x >> 8) & 0xff) as u8);
    out.push(((x >> 16) & 0xff) as u8);
    out.push(((x >> 24) & 0xff) as u8);
    proof {
        assert(((x >> 8) & 0xff) as u8 == byte_of_u32(x, 1));
        assert(((x >> 16) & 0xff) as u8 == byte_of_u32(x, 2));
        assert(((x >> 24) & 0xff) as u8 == byte_of_u32(x, 3));
        assert((x >> 0) == x) by (bit_vector);
        assert(out@ =~= old(out)@ + enc_u32(x));
    }
}

pub fn write_bytes(out: &mut Vec<u8>, b: &[u8])
    requires
        fits_u32(b@.len() as int),
    ensures
        final(out)@ == old(out)@ + enc_bytes(b@),
{
    write_u32(out, b.len() as u32);
    push_all(out, b);
    proof {
        assert(out@ =~= old(out)@ + enc_bytes(b@));
    }
}

// ---------------------------------------------------------------------------
// Executable readers, exact against the spec encodings.
// ---------------------------------------------------------------------------

pub fn read_u8(data: &[u8], pos: usize) -> (r: Option<(u8, usize)>)
    requires
        pos <= data@.len(),
    ensures
        r is Some <==> pos < data@.len(),
        r matches Some((x, p)) ==> x == data@[pos as int] && p == pos + 1,
{
    if pos < data.len() {
        Some((data[pos], pos + 1))
    } else {
        None
    }
}

pub fn read_u16(data: &[u8], pos: usize) -> (r: Option<(u16, usize)>)
    requires
        pos <= data@.len(),
    ensures
        r is Some <==> pos + 2 <= data@.len(),
        r matches Some((x, p)) ==> x == u16_val(data@.subrange(pos as int, pos + 2)) && p == pos
            + 2,
{
    if data.len() - pos >= 2 {
        let b0 = data[pos];
        let b1 = data[pos + 1];
        let v: u16 = (b0 as u16) | ((b1 as u16) << 8);
        proof {
            let s = data@.subrange(pos as int, pos + 2);
            assert(s[0] == b0 && s[1] == b1);
        }
        Some((v, pos + 2))
    } else {
        None
    }
}

pub fn read_u32(data: &[u8], pos: usize) -> (r: Option<(u32, usize)>)
    requires
        pos <= data@.len(),
    ensures
        r is Some <==> pos + 4 <= data@.len(),
        r matches Some((x, p)) ==> x == u32_val(data@.subrange(pos as int, pos + 4)) && p == pos
            + 4,
{
    if data.len() - pos >= 4 {
        let b0 = data[pos];
        let b1 = data[pos + 1];
        let b2 = data[pos + 2];
        let b3 = data[pos + 3];
        let v: u32 = (b0 as u32) | ((b1 as u32) << 8) | ((b2 as u32) << 16) | ((b3 as u32) << 24);
        proof {
            let s = data@.subrange(pos as int, pos + 4);
            assert(s[0] == b0 && s[1] == b1 && s[2] == b2 && s[3] == b3);
        }
        Some((v, pos + 4))
    } else {
        None
    }
}

/// Reads a length-prefixed byte string starting at `pos`.
pub fn read_bytes(data: &[u8], pos: usize) -> (r: Option<(Vec<u8>, usize)>)
    requires
        pos <= data@.len(),
    ensures
        ({
            let n = u32_val(data@.subrange(pos as int, pos + 4)) as int;
            &&& (pos + 4 <= data@.len() && pos + 4 + n <= data@.len()) <==> r is Some
            &&& r matches Some((b, p)) ==> {
                &&& pos + 4 <= data@.len()
                &&& b@ == data@.subrange(pos + 4, pos + 4 + n)
                &&& p == pos + 4 + n
                &&& data@.subrange(pos as int, p as int) == enc_bytes(b@)
                &&& fits_u32(b@.len() as int)
            }
        }),
{
    match read_u32(data, pos) {
        None => None,
        Some((n32, p1)) => {
            let n = n32 as usize;
            if data.len() - p1 >= n {
                let b = vstd::slice::slice_to_vec(vstd::slice::slice_subrange(data, p1, p1 + n));
                proof {
                    lemma_u32_reconstruction(data@.subrange(pos as int, pos + 4));
                    assert(data@.subrange(pos as int, pos + 4 + n32 as int) =~= data@.subrange(
                        pos as int,
                        pos + 4,
                    ) + data@.subrange(pos + 4, pos + 4 + n32 as int));
                }
                Some((b, p1 + n))
            } else {
                None
            }
        },
    }
}

// ---------------------------------------------------------------------------
// Lists of byte strings.
// ---------------------------------------------------------------------------

/// The byte strings held by a vector of byte vectors.
pub open spec fn views_of(items: Seq<Vec<u8>>) -> Seq<Seq<u8>> {
    items.map_values(|v: Vec<u8>| v@)
}

pub proof fn lemma_enc_bytes_seq_push(s: Seq<Seq<u8>>, x: Seq<u8>)
    ensures
        enc_bytes_seq(s.push(x)) == enc_bytes_seq(s) + enc_bytes(x),
    decreases s.len(),
{
    if s.len() == 0 {
        assert(s.push(x).len() == 1);
        assert(s.push(x)[0] == x);
        assert(s.push(x).drop_first() =~= Seq::<Seq<u8>>::empty());
        assert(enc_bytes_seq(Seq::<Seq<u8>>::empty()) == Seq::<u8>::empty());
        assert(enc_bytes_seq(s.push(x)) == enc_bytes(x) + Seq::<u8>::empty());
        assert(enc_bytes(x) + Seq::<u8>::empty() =~= Seq::<u8>::empty() + enc_bytes(x));
        assert(enc_bytes_seq(s) == Seq::<u8>::empty());
    } else {
        assert(s.push(x).drop_first() =~= s.drop_first().push(x));
        lemma_enc_bytes_seq_push(s.drop_first(), x);
        assert(s.push(x)[0] == s[0]);
        assert(enc_bytes_seq(s.push(x)) == enc_bytes(s[0]) + (enc_bytes_seq(s.drop_first())
            + enc_bytes(x)));
        assert(enc_bytes(s[0]) + (enc_bytes_seq(s.drop_first()) + enc_bytes(x)) =~= (enc_bytes(
            s[0],
        ) + enc_bytes_seq(s.drop_first())) + enc_bytes(x));
    }
}

pub proof fn lemma_enc_bytes_seq_skip(s: Seq<Seq<u8>>, k: int)
    requires
        0 <= k < s.len(),
    ensures
        enc_bytes_seq(s.skip(k)) == enc_bytes(s[k]) + enc_bytes_seq(s.skip(k + 1)),
{
    assert(s.skip(k).len() > 0);
    assert(s.skip(k)[0] == s[k]);
    assert(s.skip(k).drop_first() =~= s.skip(k + 1));
}

pub proof fn lemma_enc_bytes_seq_injective(a: Seq<Seq<u8>>, b: Seq<Seq<u8>>)
    requires
        all_fit_u32(a),
        all_fit_u32(b),
        enc_bytes_seq(a) == enc_bytes_seq(b),
    ensures
        a =~= b,
    decreases a.len(),
{
    let s = enc_bytes_seq(a);
    if a.len() == 0 {
        if b.len() > 0 {
            assert(s.len() == 0);
            assert(enc_bytes_seq(b).len() >= enc_bytes(b[0]).len());
        }
    } else if b.len() == 0 {
        assert(s.len() >= enc_bytes(a[0]).len());
    } else {
        assert(s.subrange(0, s.len() as int) =~= s);
        lemma_peel_bytes(s, 0, a[0], enc_bytes_seq(a.drop_first()));
        lemma_peel_bytes(s, 0, b[0], enc_bytes_seq(b.drop_first()));
        assert(a[0].len() == b[0].len());
        assert(a[0] == b[0]);
        assert(all_fit_u32(a.drop_first())) by {
            assert(forall|i: int|
                0 <= i < a.drop_first().len() ==> #[trigger] a.drop_first()[i] == a[i + 1]);
        }
        assert(all_fit_u32(b.drop_first())) by {
            assert(forall|i: int|
                0 <= i < b.drop_first().len() ==> #[trigger] b.drop_first()[i] == b[i + 1]);
        }
        lemma_enc_bytes_seq_injective(a.drop_first(), b.drop_first());
        assert forall|i: int| 1 <= i < a.len() implies a[i] == b[i] by {
            assert(a[i] == a.drop_first()[i - 1]);
            assert(b[i] == b.drop_first()[i - 1]);
        }
        assert(a =~= b);
    }
}

/// Splits a blob into its length-prefixed items, exactly when the whole blob
/// is such a list.
pub fn parse_items(blob: &[u8]) -> (r: Option<Vec<Vec<u8>>>)
    ensures
        r matches Some(items) ==> blob@ == enc_bytes_seq(views_of(items@)) && all_fit_u32(
            views_of(items@),
        ),
        forall|vs: Seq<Seq<u8>>|
            all_fit_u32(vs) && blob@ == #[trigger] enc_bytes_seq(vs) ==> (r matches Some(items)
                && views_of(items@) == vs),
{
    let ghost hyp = exists|vs: Seq<Seq<u8>>|
        all_fit_u32(vs) && blob@ == #[trigger] enc_bytes_seq(vs);
    let ghost vs0: Seq<Seq<u8>> = if hyp {
        choose|vs: Seq<Seq<u8>>| all_fit_u32(vs) && blob@ == #[trigger] enc_bytes_seq(vs)
    } else {
        Seq::empty()
    };
    let mut items: Vec<Vec<u8>> = Vec::new();
    let mut pos: usize = 0;
    proof {
        assert(views_of(items@) =~= Seq::<Seq<u8>>::empty());
        assert(blob@.subrange(0, 0) =~= Seq::<u8>::empty());
        if hyp {
            assert(vs0.take(0) =~= Seq::<Seq<u8>>::empty());
            assert(vs0.skip(0) =~= vs0);
            assert(blob@.subrange(0, blob@.len() as int) =~= blob@);
        }
    }
    while pos < blob.len()
        invariant
            pos <= blob@.len(),
            blob@.subrange(0, pos as int) == enc_bytes_seq(views_of(items@)),
            all_fit_u32(views_of(items@)),
            hyp == (exists|vs: Seq<Seq<u8>>|
                all_fit_u32(vs) && blob@ == #[trigger] enc_bytes_seq(vs)),
            hyp ==> all_fit_u32(vs0) && blob@ == enc_bytes_seq(vs0),
            hyp ==> items@.len() <= vs0.len() && views_of(items@) == vs0.take(
                items@.len() as int,
            ) && blob@.subrange(pos as int, blob@.len() as int) == enc_bytes_seq(
                vs0.skip(items@.len() as int),
            ),
        decreases blob@.len() - pos,
    {
        proof {
            if hyp {
                let k = items@.len() as int;
                assert(vs0.skip(k).len() > 0) by {
                    if vs0.skip(k).len() == 0 {
                        assert(enc_bytes_seq(vs0.skip(k)).len() == 0);
                    }
                }
                lemma_enc_bytes_seq_skip(vs0, k);
                assert(fits_u32(vs0[k].len() as int));
                lemma_peel_bytes(blob@, pos as int, vs0[k], enc_bytes_seq(vs0.skip(k + 1)));
            }
        }
        match read_bytes(blob, pos) {
            None => {
                proof {
                    assert(!hyp);
                }
                return None;
            },
            Some((b, p)) => {
                proof {
                    let k = items@.len() as int;
                    assert(blob@.subrange(0, p as int) =~= blob@.subrange(0, pos as int)
                        + blob@.subrange(pos as int, p as int));
                    lemma_enc_bytes_seq_push(views_of(items@), b@);
                    assert(views_of(items@.push(b)) =~= views_of(items@).push(b@));
                    if hyp {
                        assert(b@ == vs0[k]);
                        assert(views_of(items@).push(b@) =~= vs0.take(k + 1));
                        assert(blob@.subrange(p as int, blob@.len() as int) == enc_bytes_seq(
                            vs0.skip(k + 1),
                        ));
                    }
                }
                items.push(b);
                pos = p;
            },
        }
    }
    proof {
        assert(blob@.subrange(0, blob@.len() as int) =~= blob@);
        if hyp {
            let k = items@.len() as int;
            assert(vs0.skip(k).len() == 0) by {
                if vs0.skip(k).len() > 0 {
                    assert(enc_bytes_seq(vs0.skip(k)).len() >= enc_bytes(vs0.skip(k)[0]).len());
                }
            }
            assert(views_of(items@) =~= vs0);
        }
        assert forall|vs: Seq<Seq<u8>>|
            all_fit_u32(vs) && blob@ == #[trigger] enc_bytes_seq(vs) implies views_of(items@)
            == vs by {
            lemma_enc_bytes_seq_injective(vs, vs0);
        }
    }
    Some(items)
}

// ---------------------------------------------------------------------------
// The versioned envelope.
// ---------------------------------------------------------------------------

/// The major version every message of this build carries.
pub const PROTOCOL_MAJOR: u16 = 1;

/// The newest minor version every message of this build understands.
pub const PROTOCOL_MINOR: u16 = 0;

/// An optional length-prefixed byte string, with a presence flag in front.
pub open spec fn enc_opt_bytes(o: Option<Seq<u8>>) -> Seq<u8> {
    match o {
        Option::None => enc_u8(0),
        Option::Some(b) => enc_u8(1) + enc_bytes(b),
    }
}

/// The wire form of a message: brand, major and minor version, payload.
pub open spec fn enc_envelope(brand: u32, major: u16, minor: u16, payload: Seq<u8>) -> Seq<u8> {
    enc_u32(brand) + enc_u16(major) + enc_u16(minor) + payload
}

/// Wraps a payload in the envelope of the given brand, at this build's
/// version.
pub fn write_envelope(brand: u32, payload: &Vec<u8>) -> (r: Vec<u8>)
    ensures
        r@ == enc_envelope(brand, PROTOCOL_MAJOR, PROTOCOL_MINOR, payload@),
{
    let mut out: Vec<u8> = Vec::new();
    write_u32(&mut out, brand);
    write_u16(&mut out, PROTOCOL_MAJOR);
    write_u16(&mut out, PROTOCOL_MINOR);
    push_all(&mut out, payload.as_slice());
    proof {
        assert(out@ =~= enc_envelope(brand, PROTOCOL_MAJOR, PROTOCOL_MINOR, payload@));
    }
    out
}

/// How decoding classifies an envelope header: a short or wrong-branded
/// input is a `FormatError`; a different major version, or a minor version
/// newer than this build, is a `VersionError`; `None` means the header is
/// acceptable and the payload follows at offset 8.
pub open spec fn header_error(data: Seq<u8>, brand: u32) -> Option<crate::errors::Error> {
    if data.len() < 8 {
        Option::Some(crate::errors::Error::FormatError)
    } else if u32_val(data.subrange(0, 4)) != brand {
        Option::Some(crate::errors::Error::FormatError)
    } else if u16_val(data.subrange(4, 6)) != PROTOCOL_MAJOR {
        Option::Some(crate::errors::Error::VersionError)
    } else if u16_val(data.subrange(6, 8)) > PROTOCOL_MINOR {
        Option::Some(crate::errors::Error::VersionError)
    } else {
        Option::None
    }
}

/// Checks the envelope header against an expected brand and this build's
/// version, and returns the offset where the payload starts.
pub fn read_envelope(data: &[u8], brand: u32) -> (r: Result<usize, crate::errors::Error>)
    ensures
        r == (match header_error(data@, brand) {
            Option::Some(e) => Err::<usize, crate::errors::Error>(e),
            Option::None => Ok::<usize, crate::errors::Error>(8),
        }),
{
    if data.len() < 8 {
        return Err(crate::errors::Error::FormatError);
    }
    let b = match read_u32(data, 0) {
        Some((b, _)) => b,
        None => {
            return Err(crate::errors::Error::FormatError);
        },
    };
    if b != brand {
        return Err(crate::errors::Error::FormatError);
    }
    let major = match read_u16(data, 4) {
        Some((v, _)) => v,
        None => {
            return Err(crate::errors::Error::FormatError);
        },
    };
    if major != PROTOCOL_MAJOR {
        return Err(crate::errors::Error::VersionError);
    }
    let minor = match read_u16(data, 6) {
        Some((v, _)) => v,
        None => {
            return Err(crate::errors::Error::FormatError);
        },
    };
    if minor > PROTOCOL_MINOR {
        return Err(crate::errors::Error::VersionError);
    }
    Ok(8)
}

/// Peels the envelope of a well-formed message off the front: the payload is
/// the suffix after the 8-byte header.
pub proof fn lemma_peel_envelope(data: Seq<u8>, brand: u32, major: u16, minor: u16, payload: Seq<u8>)
    requires
        data == enc_envelope(brand, major, minor, payload),
    ensures
        data.len() == 8 + payload.len(),
        u32_val(data.subrange(0, 4)) == brand,
        u16_val(data.subrange(4, 6)) == major,
        u16_val(data.subrange(6, 8)) == minor,
        data.subrange(8, data.len() as int) == payload,
{
    assert(data.subrange(0, data.len() as int) =~= data);
    assert(data =~= enc_u32(brand) + (enc_u16(major) + (enc_u16(minor) + payload)));
    lemma_peel_u32(data, 0, brand, enc_u16(major) + (enc_u16(minor) + payload));
    lemma_peel_u16(data, 4, major, enc_u16(minor) + payload);
    lemma_peel_u16(data, 6, minor, payload);
}


// ---------------------------------------------------------------------------
// Reassociation helpers: writers build byte strings left to right, while the
// peeling lemmas consume them head first.  These lemmas bridge the two
// shapes one step at a time, which keeps the solver's work linear.
// ---------------------------------------------------------------------------

pub proof fn lemma_concat_assoc(a: Seq<u8>, b: Seq<u8>, c: Seq<u8>)
    ensures
        (a + b) + c == a + (b + c),
{
    assert((a + b) + c =~= a + (b + c));
}

/// Splitting a slice of `data` at a middle point.
pub proof fn lemma_subrange_join(data: Seq<u8>, i: int, j: int, k: int)
    requires
        0 <= i <= j <= k <= data.len(),
    ensures
        data.subrange(i, k) == data.subrange(i, j) + data.subrange(j, k),
{
    assert(data.subrange(i, k) =~= data.subrange(i, j) + data.subrange(j, k));
}

pub proof fn lemma_assoc3(e1: Seq<u8>, e2: Seq<u8>, e3: Seq<u8>)
    ensures
        ((e1 + e2) + e3) == e1 + (e2 + (e3)),
{
    lemma_concat_assoc(e1, e2, e3);
}

pub proof fn lemma_assoc4(e1: Seq<u8>, e2: Seq<u8>, e3: Seq<u8>, e4: Seq<u8>)
    ensures
        (((e1 + e2) + e3) + e4) == e1 + (e2 + (e3 + (e4))),
{
    lemma_assoc3(e1 + e2, e3, e4);
    lemma_concat_assoc(e1, e2, e3 + (e4));
}

/// Reassembles a whole message from its header values and payload region.
pub proof fn lemma_envelope_assemble(d: Seq<u8>, brand: u32)
    requires
        d.len() >= 8,
        u32_val(d.subrange(0, 4)) == brand,
        u16_val(d.subrange(4, 6)) == PROTOCOL_MAJOR,
        u16_val(d.subrange(6, 8)) == PROTOCOL_MINOR,
    ensures
        d == enc_envelope(brand, PROTOCOL_MAJOR, PROTOCOL_MINOR, d.subrange(8, d.len() as int)),
{
    lemma_u32_reconstruction(d.subrange(0, 4));
    lemma_u16_reconstruction(d.subrange(4, 6));
    lemma_u16_reconstruction(d.subrange(6, 8));
    lemma_subrange_join(d, 0, 4, d.len() as int);
    lemma_subrange_join(d, 4, 6, d.len() as int);
    lemma_subrange_join(d, 6, 8, d.len() as int);
    lemma_assoc4(
        enc_u32(brand),
        enc_u16(PROTOCOL_MAJOR),
        enc_u16(PROTOCOL_MINOR),
        d.subrange(8, d.len() as int),
    );
    assert(d.subrange(0, d.len() as int) =~= d);
}

/// Bounds the size of a list of byte strings each no longer than `m`.
pub proof fn lemma_enc_bytes_seq_len_bound(items: Seq<Seq<u8>>, m: int)
    requires
        forall|i: int| 0 <= i < items.len() ==> #[trigger] items[i].len() <= m,
        m >= 0,
    ensures
        enc_bytes_seq(items).len() <= items.len() * (4 + m),
    decreases items.len(),
{
    if items.len() == 0 {
    } else {
        assert(forall|i: int|
            0 <= i < items.drop_first().len() ==> #[trigger] items.drop_first()[i] == items[i
                + 1]);
        lemma_enc_bytes_seq_len_bound(items.drop_first(), m);
        assert(enc_bytes(items[0]).len() == 4 + items[0].len());
        assert(items.len() * (4 + m) == (items.len() - 1) * (4 + m) + (4 + m))
            by (nonlinear_arith);
    }
}

/// Lays a list of byte strings end to end, each length-prefixed.
pub fn write_blob(items: &Vec<Vec<u8>>) -> (r: Vec<u8>)
    requires
        forall|i: int| 0 <= i < items@.len() ==> fits_u32((#[trigger] items@[i])@.len() as int),
    ensures
        r@ == enc_bytes_seq(views_of(items@)),
{
    let mut out: Vec<u8> = Vec::new();
    let mut k: usize = 0;
    proof {
        assert(views_of(items@).take(0) =~= Seq::<Seq<u8>>::empty());
    }
    while k < items.len()
        invariant
            k <= items@.len(),
            forall|i: int| 0 <= i < items@.len() ==> fits_u32((#[trigger] items@[i])@.len() as int),
            out@ == enc_bytes_seq(views_of(items@).take(k as int)),
        decreases items@.len() - k,
    {
        write_bytes(&mut out, items[k].as_slice());
        proof {
            lemma_enc_bytes_seq_push(views_of(items@).take(k as int), items@[k as int]@);
            assert(views_of(items@).take(k + 1) =~= views_of(items@).take(k as int).push(
                items@[k as int]@,
            ));
        }
        k = k + 1;
    }
    proof {
        assert(views_of(items@).take(items@.len() as int) =~= views_of(items@));
    }
    out
}

} // verus!
