use vstd::prelude::*;

use crate::codec::{
    enc_bytes, enc_opt_bytes, enc_u16, enc_u32, enc_u8, fits_u32, lemma_concat_assoc,
    lemma_concat_peel, lemma_peel_bytes, lemma_peel_u16, lemma_peel_u32, lemma_peel_u8,
    lemma_subrange_join, lemma_u16_reconstruction, lemma_u32_reconstruction, read_bytes, read_u16,
    read_u32, read_u8, u16_val, u32_val, write_bytes, write_u16, write_u32, write_u8,
};
use crate::errors::Error;

verus! {

// ---------------------------------------------------------------------------
// Named, typed payload fields.
//
// A payload is a count byte followed by fields.  Each field carries a 4-byte
// ASCII name, a kind byte, and its value; a reader can walk a payload
// without knowing the schema, which is what makes the format
// self-describing.
// ---------------------------------------------------------------------------

/// A field value as it sits in a decoded message.
pub enum ParsedField {
    U8(u8),
    U16(u16),
    U32(u32),
    Bytes(Vec<u8>),
    OptBytes(Option<Vec<u8>>),
}

/// The specification-level counterpart of `ParsedField`.
pub enum FieldVal {
    U8(u8),
    U16(u16),
    U32(u32),
    Bytes(Seq<u8>),
    OptBytes(Option<Seq<u8>>),
}

/// The value a parsed field holds.
pub open spec fn field_view(f: ParsedField) -> FieldVal {
    match f {
        ParsedField::U8(x) => FieldVal::U8(x),
        ParsedField::U16(x) => FieldVal::U16(x),
        ParsedField::U32(x) => FieldVal::U32(x),
        ParsedField::Bytes(b) => FieldVal::Bytes(b@),
        ParsedField::OptBytes(o) => FieldVal::OptBytes(
            match o {
                Option::None => Option::None,
                Option::Some(b) => Option::Some(b@),
            },
        ),
    }
}

/// The values a parsed field list holds, names kept.
pub open spec fn field_views(fs: Seq<(u32, ParsedField)>) -> Seq<(u32, FieldVal)> {
    fs.map_values(|f: (u32, ParsedField)| (f.0, field_view(f.1)))
}

/// The kind byte of a field value.
pub open spec fn kind_code(v: FieldVal) -> u8 {
    match v {
        FieldVal::U8(_) => 0,
        FieldVal::U16(_) => 1,
        FieldVal::U32(_) => 2,
        FieldVal::Bytes(_) => 3,
        FieldVal::OptBytes(_) => 4,
    }
}

/// The encoding of a field value, after the kind byte.
pub open spec fn enc_val(v: FieldVal) -> Seq<u8> {
    match v {
        FieldVal::U8(x) => enc_u8(x),
        FieldVal::U16(x) => enc_u16(x),
        FieldVal::U32(x) => enc_u32(x),
        FieldVal::Bytes(b) => enc_bytes(b),
        FieldVal::OptBytes(o) => enc_opt_bytes(o),
    }
}

/// The encoding of one named field: name, kind byte, value.
pub open spec fn enc_field(f: (u32, FieldVal)) -> Seq<u8> {
    enc_u32(f.0) + (enc_u8(kind_code(f.1)) + enc_val(f.1))
}

/// The encoding of a field list, laid end to end.
pub open spec fn enc_fields(fl: Seq<(u32, FieldVal)>) -> Seq<u8>
    decreases fl.len(),
{
    if fl.len() == 0 {
        Seq::<u8>::empty()
    } else {
        enc_field(fl[0]) + enc_fields(fl.drop_first())
    }
}

/// Whether a field value fits its length-prefixed encoding.
pub open spec fn val_fits(v: FieldVal) -> bool {
    match v {
        FieldVal::Bytes(b) => fits_u32(b.len() as int),
        FieldVal::OptBytes(o) => (o matches Some(b) ==> fits_u32(b.len() as int)),
        _ => true,
    }
}

pub open spec fn fields_fit(fl: Seq<(u32, FieldVal)>) -> bool {
    forall|i: int| 0 <= i < fl.len() ==> val_fits(#[trigger] fl[i].1)
}

/// A whole payload: the field count, then the fields.
pub open spec fn enc_payload(fl: Seq<(u32, FieldVal)>) -> Seq<u8>
    recommends
        fl.len() <= 255,
{
    enc_u8(fl.len() as u8) + enc_fields(fl)
}

// ---------------------------------------------------------------------------
// Lemmas about field lists.
// ---------------------------------------------------------------------------

pub proof fn lemma_enc_fields_push(fl: Seq<(u32, FieldVal)>, f: (u32, FieldVal))
    ensures
        enc_fields(fl.push(f)) == enc_fields(fl) + enc_field(f),
    decreases fl.len(),
{
    if fl.len() == 0 {
        assert(fl.push(f).len() == 1);
        assert(fl.push(f)[0] == f);
        assert(fl.push(f).drop_first() =~= Seq::<(u32, FieldVal)>::empty());
        assert(enc_fields(Seq::<(u32, FieldVal)>::empty()) == Seq::<u8>::empty());
        assert(enc_fields(fl.push(f)) == enc_field(f) + Seq::<u8>::empty());
        assert(enc_field(f) + Seq::<u8>::empty() =~= Seq::<u8>::empty() + enc_field(f));
        assert(enc_fields(fl) == Seq::<u8>::empty());
    } else {
        assert(fl.push(f).drop_first() =~= fl.drop_first().push(f));
        lemma_enc_fields_push(fl.drop_first(), f);
        assert(fl.push(f)[0] == fl[0]);
        assert(enc_fields(fl.push(f)) == enc_field(fl[0]) + (enc_fields(fl.drop_first())
            + enc_field(f)));
        lemma_concat_assoc(enc_field(fl[0]), enc_fields(fl.drop_first()), enc_field(f));
    }
}

pub proof fn lemma_enc_fields_skip(fl: Seq<(u32, FieldVal)>, k: int)
    requires
        0 <= k < fl.len(),
    ensures
        enc_fields(fl.skip(k)) == enc_field(fl[k]) + enc_fields(fl.skip(k + 1)),
{
    assert(fl.skip(k).len() > 0);
    assert(fl.skip(k)[0] == fl[k]);
    assert(fl.skip(k).drop_first() =~= fl.skip(k + 1));
}

/// The number of bytes a field value occupies after its kind byte.
pub open spec fn val_len(v: FieldVal) -> int {
    match v {
        FieldVal::U8(_) => 1int,
        FieldVal::U16(_) => 2int,
        FieldVal::U32(_) => 4int,
        FieldVal::Bytes(b) => 4 + b.len() as int,
        FieldVal::OptBytes(o) => match o {
            Option::None => 1int,
            Option::Some(b) => 5 + b.len() as int,
        },
    }
}

/// Peels one field's encoding off the suffix of `data` at `pos`.
pub proof fn lemma_peel_field(data: Seq<u8>, pos: int, f: (u32, FieldVal), rest: Seq<u8>)
    requires
        0 <= pos <= data.len(),
        val_fits(f.1),
        data.subrange(pos, data.len() as int) == enc_field(f) + rest,
    ensures
        pos + 5 + val_len(f.1) <= data.len(),
        u32_val(data.subrange(pos, pos + 4)) == f.0,
        data[pos + 4] == kind_code(f.1),
        data.subrange(pos + 5, pos + 5 + val_len(f.1)) == enc_val(f.1),
        data.subrange(pos + 5 + val_len(f.1), data.len() as int) == rest,
        (f.1 matches FieldVal::U8(x) ==> data[pos + 5] == x),
        (f.1 matches FieldVal::U16(x) ==> u16_val(data.subrange(pos + 5, pos + 7)) == x),
        (f.1 matches FieldVal::U32(x) ==> u32_val(data.subrange(pos + 5, pos + 9)) == x),
        (f.1 matches FieldVal::Bytes(b) ==> u32_val(data.subrange(pos + 5, pos + 9)) == b.len()
            && data.subrange(pos + 9, pos + 9 + b.len()) == b),
        (f.1 matches FieldVal::OptBytes(o) ==> match o {
            Option::None => data[pos + 5] == 0,
            Option::Some(b) => data[pos + 5] == 1 && u32_val(data.subrange(pos + 6, pos + 10))
                == b.len() && data.subrange(pos + 10, pos + 10 + b.len()) == b,
        }),
{
    let kv = enc_u8(kind_code(f.1)) + enc_val(f.1);
    lemma_concat_assoc(enc_u32(f.0), kv, rest);
    lemma_peel_u32(data, pos, f.0, kv + rest);
    lemma_concat_assoc(enc_u8(kind_code(f.1)), enc_val(f.1), rest);
    lemma_peel_u8(data, pos + 4, kind_code(f.1), enc_val(f.1) + rest);
    lemma_concat_peel(data, pos + 5, enc_val(f.1), rest);
    match f.1 {
        FieldVal::U8(x) => {
            lemma_peel_u8(data, pos + 5, x, rest);
        },
        FieldVal::U16(x) => {
            lemma_peel_u16(data, pos + 5, x, rest);
        },
        FieldVal::U32(x) => {
            lemma_peel_u32(data, pos + 5, x, rest);
        },
        FieldVal::Bytes(b) => {
            lemma_peel_bytes(data, pos + 5, b, rest);
        },
        FieldVal::OptBytes(o) => {
            match o {
                Option::None => {
                    lemma_peel_u8(data, pos + 5, 0, rest);
                },
                Option::Some(b) => {
                    lemma_concat_assoc(enc_u8(1), enc_bytes(b), rest);
                    lemma_peel_u8(data, pos + 5, 1, enc_bytes(b) + rest);
                    lemma_peel_bytes(data, pos + 6, b, rest);
                },
            }
        },
    }
}

/// Two field lists with the same encoding are the same list.
pub proof fn lemma_enc_fields_injective(a: Seq<(u32, FieldVal)>, b: Seq<(u32, FieldVal)>)
    requires
        fields_fit(a),
        fields_fit(b),
        enc_fields(a) == enc_fields(b),
    ensures
        a =~= b,
    decreases a.len(),
{
    let s = enc_fields(a);
    if a.len() == 0 {
        if b.len() > 0 {
            assert(enc_fields(b).len() >= enc_field(b[0]).len());
        }
    } else if b.len() == 0 {
        assert(s.len() >= enc_field(a[0]).len());
    } else {
        assert(s.subrange(0, s.len() as int) =~= s);
        lemma_peel_field(s, 0, a[0], enc_fields(a.drop_first()));
        lemma_peel_field(s, 0, b[0], enc_fields(b.drop_first()));
        assert(kind_code(a[0].1) == kind_code(b[0].1));
        assert(val_len(a[0].1) == val_len(b[0].1)) by {
            match a[0].1 {
                FieldVal::U8(_) => {},
                FieldVal::U16(_) => {},
                FieldVal::U32(_) => {},
                FieldVal::Bytes(x) => {
                    let y = b[0].1->Bytes_0;
                    assert(x.len() == y.len());
                },
                FieldVal::OptBytes(o) => {
                    let p = b[0].1->OptBytes_0;
                    assert(o is Some <==> s[5] == 1);
                    assert(p is Some <==> s[5] == 1);
                    if o is Some {
                        assert(o->0.len() == p->0.len());
                    }
                },
            }
        }
        assert(a[0].1 == b[0].1) by {
            match a[0].1 {
                FieldVal::U8(x) => {
                    assert(x == s[5]);
                    assert(b[0].1->U8_0 == s[5]);
                },
                FieldVal::U16(x) => {
                    assert(x == u16_val(s.subrange(5, 7)));
                    assert(b[0].1->U16_0 == u16_val(s.subrange(5, 7)));
                },
                FieldVal::U32(x) => {
                    assert(x == u32_val(s.subrange(5, 9)));
                    assert(b[0].1->U32_0 == u32_val(s.subrange(5, 9)));
                },
                FieldVal::Bytes(x) => {
                    let y = b[0].1->Bytes_0;
                    assert(x == s.subrange(9, 9 + x.len() as int));
                    assert(y == s.subrange(9, 9 + y.len() as int));
                },
                FieldVal::OptBytes(o) => {
                    let p = b[0].1->OptBytes_0;
                    if o is Some {
                        assert(o->0 == s.subrange(10, 10 + o->0.len() as int));
                        assert(p->0 == s.subrange(10, 10 + p->0.len() as int));
                    }
                },
            }
        }
        assert(a[0].0 == b[0].0);
        assert(a[0] == b[0]);
        assert(enc_fields(a.drop_first()) == enc_fields(b.drop_first())) by {
            assert(enc_field(a[0]).len() == 5 + val_len(a[0].1));
            assert(s.subrange(5 + val_len(a[0].1), s.len() as int) == enc_fields(a.drop_first()));
            assert(s.subrange(5 + val_len(b[0].1), s.len() as int) == enc_fields(b.drop_first()));
        }
        assert(fields_fit(a.drop_first())) by {
            assert(forall|i: int|
                0 <= i < a.drop_first().len() ==> #[trigger] a.drop_first()[i] == a[i + 1]);
        }
        assert(fields_fit(b.drop_first())) by {
            assert(forall|i: int|
                0 <= i < b.drop_first().len() ==> #[trigger] b.drop_first()[i] == b[i + 1]);
        }
        lemma_enc_fields_injective(a.drop_first(), b.drop_first());
        assert forall|i: int| 1 <= i < a.len() implies a[i] == b[i] by {
            assert(a[i] == a.drop_first()[i - 1]);
            assert(b[i] == b.drop_first()[i - 1]);
        }
        assert(a =~= b);
    }
}

// ---------------------------------------------------------------------------
// Writing fields.
// ---------------------------------------------------------------------------

pub fn write_field_u8(out: &mut Vec<u8>, name: u32, x: u8)
    ensures
        final(out)@ == old(out)@ + enc_field((name, FieldVal::U8(x))),
{
    write_u32(out, name);
    write_u8(out, 0);
    write_u8(out, x);
    proof {
        assert(out@ =~= old(out)@ + enc_field((name, FieldVal::U8(x))));
    }
}

pub fn write_field_u16(out: &mut Vec<u8>, name: u32, x: u16)
    ensures
        final(out)@ == old(out)@ + enc_field((name, FieldVal::U16(x))),
{
    write_u32(out, name);
    write_u8(out, 1);
    write_u16(out, x);
    proof {
        assert(out@ =~= old(out)@ + enc_field((name, FieldVal::U16(x))));
    }
}

pub fn write_field_u32(out: &mut Vec<u8>, name: u32, x: u32)
    ensures
        final(out)@ == old(out)@ + enc_field((name, FieldVal::U32(x))),
{
    write_u32(out, name);
    write_u8(out, 2);
    write_u32(out, x);
    proof {
        assert(out@ =~= old(out)@ + enc_field((name, FieldVal::U32(x))));
    }
}

pub fn write_field_bytes(out: &mut Vec<u8>, name: u32, b: &[u8])
    requires
        fits_u32(b@.len() as int),
    ensures
        final(out)@ == old(out)@ + enc_field((name, FieldVal::Bytes(b@))),
{
    write_u32(out, name);
    write_u8(out, 3);
    write_bytes(out, b);
    proof {
        assert(out@ =~= old(out)@ + enc_field((name, FieldVal::Bytes(b@))));
    }
}

pub fn write_field_opt_bytes(out: &mut Vec<u8>, name: u32, o: Option<&Vec<u8>>)
    requires
        (o matches Some(b) ==> fits_u32(b@.len() as int)),
    ensures
        final(out)@ == old(out)@ + enc_field(
            (
                name,
                FieldVal::OptBytes(
                    match o {
                        Option::None => Option::None,
                        Option::Some(b) => Option::Some(b@),
                    },
                ),
            ),
        ),
{
    write_u32(out, name);
    write_u8(out, 4);
    match o {
        Option::None => {
            write_u8(out, 0);
        },
        Option::Some(b) => {
            write_u8(out, 1);
            write_bytes(out, b.as_slice());
        },
    }
    proof {
        let ov: Option<Seq<u8>> = match o {
            Option::None => Option::None,
            Option::Some(b) => Option::Some(b@),
        };
        assert(out@ =~= old(out)@ + enc_field((name, FieldVal::OptBytes(ov))));
    }
}

// ---------------------------------------------------------------------------
// Parsing a payload.
// ---------------------------------------------------------------------------

/// Parses the suffix of `data` at `pos` as a whole payload: a count byte
/// followed by exactly that many fields, ending at the end of the input.
/// Exactly the well-formed payloads parse, and to the list they encode.
pub fn parse_payload(data: &[u8], pos: usize) -> (r: Option<Vec<(u32, ParsedField)>>)
    requires
        pos <= data@.len(),
    ensures
        r matches Some(fs) ==> {
            &&& data@.subrange(pos as int, data@.len() as int) == enc_payload(field_views(fs@))
            &&& fields_fit(field_views(fs@))
            &&& fs@.len() <= 255
        },
        forall|fl: Seq<(u32, FieldVal)>|
            fields_fit(fl) && fl.len() <= 255 && data@.subrange(pos as int, data@.len() as int)
                == #[trigger] enc_payload(fl) ==> (r matches Some(fs) && field_views(fs@) == fl),
{
    let ghost hyp = exists|fl: Seq<(u32, FieldVal)>|
        fields_fit(fl) && fl.len() <= 255 && data@.subrange(pos as int, data@.len() as int)
            == #[trigger] enc_payload(fl);
    let ghost fl0: Seq<(u32, FieldVal)> = if hyp {
        choose|fl: Seq<(u32, FieldVal)>|
            fields_fit(fl) && fl.len() <= 255 && data@.subrange(pos as int, data@.len() as int)
                == #[trigger] enc_payload(fl)
    } else {
        Seq::empty()
    };
    proof {
        if hyp {
            lemma_peel_u8(data@, pos as int, fl0.len() as u8, enc_fields(fl0));
        }
    }
    let (count, start) = match read_u8(data, pos) {
        Some(x) => x,
        None => {
            proof {
                assert(!hyp);
            }
            return Option::None;
        },
    };
    let mut fs: Vec<(u32, ParsedField)> = Vec::new();
    let mut cur: usize = start;
    let mut i: usize = 0;
    proof {
        assert(pos < start);
        assert(start <= data@.len());
        assert(field_views(fs@) =~= Seq::<(u32, FieldVal)>::empty());
        assert(enc_fields(Seq::<(u32, FieldVal)>::empty()) == Seq::<u8>::empty());
        assert(data@.subrange(start as int, start as int) =~= Seq::<u8>::empty());
        if hyp {
            assert(fl0.len() <= 255);
            assert((fl0.len() as u8) as int == fl0.len() as int);
            assert(count == fl0.len());
            assert(fl0.take(0) =~= Seq::<(u32, FieldVal)>::empty());
            assert(fl0.skip(0) =~= fl0);
        }
    }
    while i < count as usize
        invariant
            pos < start <= cur <= data@.len(),
            i == fs@.len(),
            i <= count as usize,
            data@.subrange(start as int, cur as int) == enc_fields(field_views(fs@)),
            fields_fit(field_views(fs@)),
            hyp == (exists|fl: Seq<(u32, FieldVal)>|
                fields_fit(fl) && fl.len() <= 255 && data@.subrange(
                    pos as int,
                    data@.len() as int,
                ) == #[trigger] enc_payload(fl)),
            hyp ==> {
                &&& fields_fit(fl0)
                &&& count == fl0.len()
                &&& field_views(fs@) == fl0.take(i as int)
                &&& data@.subrange(cur as int, data@.len() as int) == enc_fields(
                    fl0.skip(i as int),
                )
            },
        decreases count as usize - i,
    {
        proof {
            if hyp {
                lemma_enc_fields_skip(fl0, i as int);
                lemma_peel_field(data@, cur as int, fl0[i as int], enc_fields(fl0.skip(i + 1)));
            }
        }
        let (name, p1) = match read_u32(data, cur) {
            Some(x) => x,
            None => {
                proof {
                    assert(!hyp);
                }
                return Option::None;
            },
        };
        let (kind, p2) = match read_u8(data, p1) {
            Some(x) => x,
            None => {
                proof {
                    assert(!hyp);
                }
                return Option::None;
            },
        };
        let (pf, p3): (ParsedField, usize) = if kind == 0 {
            match read_u8(data, p2) {
                Some((x, p)) => (ParsedField::U8(x), p),
                None => {
                    proof {
                        assert(!hyp);
                    }
                    return Option::None;
                },
            }
        } else if kind == 1 {
            match read_u16(data, p2) {
                Some((x, p)) => (ParsedField::U16(x), p),
                None => {
                    proof {
                        assert(!hyp);
                    }
                    return Option::None;
                },
            }
        } else if kind == 2 {
            match read_u32(data, p2) {
                Some((x, p)) => (ParsedField::U32(x), p),
                None => {
                    proof {
                        assert(!hyp);
                    }
                    return Option::None;
                },
            }
        } else if kind == 3 {
            match read_bytes(data, p2) {
                Some((b, p)) => (ParsedField::Bytes(b), p),
                None => {
                    proof {
                        assert(!hyp);
                    }
                    return Option::None;
                },
            }
        } else if kind == 4 {
            match read_u8(data, p2) {
                Some((flag, pf1)) => {
                    if flag == 0 {
                        (ParsedField::OptBytes(Option::None), pf1)
                    } else if flag == 1 {
                        match read_bytes(data, pf1) {
                            Some((b, p)) => (ParsedField::OptBytes(Option::Some(b)), p),
                            None => {
                                proof {
                                    assert(!hyp);
                                }
                                return Option::None;
                            },
                        }
                    } else {
                        proof {
                            assert(!hyp);
                        }
                        return Option::None;
                    }
                },
                None => {
                    proof {
                        assert(!hyp);
                    }
                    return Option::None;
                },
            }
        } else {
            proof {
                assert(!hyp);
            }
            return Option::None;
        };
        proof {
            let fv = (name, field_view(pf));
            assert(data@.subrange(cur as int, p3 as int) == enc_field(fv)) by {
                lemma_subrange_join(data@, cur as int, p1 as int, p3 as int);
                lemma_subrange_join(data@, p1 as int, p2 as int, p3 as int);
                lemma_u32_reconstruction(data@.subrange(cur as int, p1 as int));
                assert(data@.subrange(p1 as int, p2 as int) =~= enc_u8(kind_code(field_view(pf))));
                match &pf {
                    ParsedField::U8(x) => {
                        assert(data@.subrange(p2 as int, p3 as int) =~= enc_u8(*x));
                    },
                    ParsedField::U16(x) => {
                        lemma_u16_reconstruction(data@.subrange(p2 as int, p3 as int));
                    },
                    ParsedField::U32(x) => {
                        lemma_u32_reconstruction(data@.subrange(p2 as int, p3 as int));
                    },
                    ParsedField::Bytes(b) => {},
                    ParsedField::OptBytes(o) => {
                        match o {
                            Option::None => {
                                assert(data@.subrange(p2 as int, p3 as int) =~= enc_u8(0));
                            },
                            Option::Some(b) => {
                                lemma_subrange_join(data@, p2 as int, (p2 + 1) as int, p3 as int);
                                assert(data@.subrange(p2 as int, (p2 + 1) as int) =~= enc_u8(1));
                            },
                        }
                    },
                }
                assert(enc_field(fv) == enc_u32(name) + (enc_u8(kind_code(field_view(pf)))
                    + enc_val(field_view(pf))));
            }
            lemma_subrange_join(data@, start as int, cur as int, p3 as int);
            lemma_enc_fields_push(field_views(fs@), fv);
            assert(field_views(fs@.push((name, pf))) =~= field_views(fs@).push(fv));
            if hyp {
                assert(fv == fl0[i as int]);
                assert(field_views(fs@).push(fv) =~= fl0.take(i + 1));
            }
        }
        fs.push((name, pf));
        cur = p3;
        i = i + 1;
    }
    if cur != data.len() {
        proof {
            if hyp {
                assert(fl0.skip(count as int).len() == 0) by {
                    if fl0.skip(count as int).len() > 0 {
                        assert(enc_fields(fl0.skip(count as int)).len() >= enc_field(
                            fl0.skip(count as int)[0],
                        ).len());
                    }
                }
                assert(enc_fields(fl0.skip(count as int)).len() == 0);
            }
            assert(!hyp);
        }
        return Option::None;
    }
    proof {
        assert(data@.subrange(pos as int, data@.len() as int) =~= enc_u8(count)
            + data@.subrange(start as int, data@.len() as int));
        if hyp {
            assert(fl0.skip(count as int).len() == 0) by {
                if fl0.skip(count as int).len() > 0 {
                    assert(enc_fields(fl0.skip(count as int)).len() >= enc_field(
                        fl0.skip(count as int)[0],
                    ).len());
                }
            }
            assert(field_views(fs@) =~= fl0);
        }
        assert forall|fl: Seq<(u32, FieldVal)>|
            fields_fit(fl) && fl.len() <= 255 && data@.subrange(pos as int, data@.len() as int)
                == #[trigger] enc_payload(fl) implies field_views(fs@) == fl by {
            lemma_peel_u8(data@, pos as int, fl.len() as u8, enc_fields(fl));
            lemma_peel_u8(data@, pos as int, fl0.len() as u8, enc_fields(fl0));
            lemma_enc_fields_injective(fl, fl0);
        }
    }
    Option::Some(fs)
}


// ---------------------------------------------------------------------------
// Unfolding a field list of known length into its individual fields.
// ---------------------------------------------------------------------------

pub proof fn lemma_enc_fields_unfold1(fl: Seq<(u32, FieldVal)>)
    requires
        fl.len() == 1,
    ensures
        enc_fields(fl) == enc_field(fl[0]),
{
    assert(fl.drop_first().len() == 0);
    assert(enc_fields(fl.drop_first()) == Seq::<u8>::empty());
    assert(enc_fields(fl) =~= enc_field(fl[0]));
}

pub proof fn lemma_enc_fields_unfold2(fl: Seq<(u32, FieldVal)>)
    requires
        fl.len() == 2,
    ensures
        enc_fields(fl) == enc_field(fl[0]) + (enc_field(fl[1])),
{
    let r1 = fl.drop_first();
    assert(r1.len() == 1);
    assert(r1[0] == fl[1]);
    assert(r1.drop_first().len() == 0);
    assert(enc_fields(r1.drop_first()) == Seq::<u8>::empty());
    assert(enc_fields(r1) =~= enc_field(fl[1]));
    assert(enc_fields(fl) == enc_field(fl[0]) + enc_fields(r1));
}

pub proof fn lemma_enc_fields_unfold3(fl: Seq<(u32, FieldVal)>)
    requires
        fl.len() == 3,
    ensures
        enc_fields(fl) == enc_field(fl[0]) + (enc_field(fl[1]) + (enc_field(fl[2]))),
{
    let r1 = fl.drop_first();
    let r2 = r1.drop_first();
    assert(r1.len() == 2);
    assert(r1[0] == fl[1]);
    assert(r2.len() == 1);
    assert(r2[0] == fl[2]);
    assert(r2.drop_first().len() == 0);
    assert(enc_fields(r2.drop_first()) == Seq::<u8>::empty());
    assert(enc_fields(r2) =~= enc_field(fl[2]));
    assert(enc_fields(r1) == enc_field(fl[1]) + enc_fields(r2));
    assert(enc_fields(fl) == enc_field(fl[0]) + enc_fields(r1));
}

pub proof fn lemma_enc_fields_unfold5(fl: Seq<(u32, FieldVal)>)
    requires
        fl.len() == 5,
    ensures
        enc_fields(fl) == enc_field(fl[0]) + (enc_field(fl[1]) + (enc_field(fl[2]) + (enc_field(fl[3]) + (enc_field(fl[4]))))),
{
    let r1 = fl.drop_first();
    let r2 = r1.drop_first();
    let r3 = r2.drop_first();
    let r4 = r3.drop_first();
    assert(r1.len() == 4);
    assert(r1[0] == fl[1]);
    assert(r2.len() == 3);
    assert(r2[0] == fl[2]);
    assert(r3.len() == 2);
    assert(r3[0] == fl[3]);
    assert(r4.len() == 1);
    assert(r4[0] == fl[4]);
    assert(r4.drop_first().len() == 0);
    assert(enc_fields(r4.drop_first()) == Seq::<u8>::empty());
    assert(enc_fields(r4) =~= enc_field(fl[4]));
    assert(enc_fields(r3) == enc_field(fl[3]) + enc_fields(r4));
    assert(enc_fields(r2) == enc_field(fl[2]) + enc_fields(r3));
    assert(enc_fields(r1) == enc_field(fl[1]) + enc_fields(r2));
    assert(enc_fields(fl) == enc_field(fl[0]) + enc_fields(r1));
}

pub proof fn lemma_enc_fields_unfold9(fl: Seq<(u32, FieldVal)>)
    requires
        fl.len() == 9,
    ensures
        enc_fields(fl) == enc_field(fl[0]) + (enc_field(fl[1]) + (enc_field(fl[2]) + (enc_field(fl[3]) + (enc_field(fl[4]) + (enc_field(fl[5]) + (enc_field(fl[6]) + (enc_field(fl[7]) + (enc_field(fl[8]))))))))),
{
    let r1 = fl.drop_first();
    let r2 = r1.drop_first();
    let r3 = r2.drop_first();
    let r4 = r3.drop_first();
    let r5 = r4.drop_first();
    let r6 = r5.drop_first();
    let r7 = r6.drop_first();
    let r8 = r7.drop_first();
    assert(r1.len() == 8);
    assert(r1[0] == fl[1]);
    assert(r2.len() == 7);
    assert(r2[0] == fl[2]);
    assert(r3.len() == 6);
    assert(r3[0] == fl[3]);
    assert(r4.len() == 5);
    assert(r4[0] == fl[4]);
    assert(r5.len() == 4);
    assert(r5[0] == fl[5]);
    assert(r6.len() == 3);
    assert(r6[0] == fl[6]);
    assert(r7.len() == 2);
    assert(r7[0] == fl[7]);
    assert(r8.len() == 1);
    assert(r8[0] == fl[8]);
    assert(r8.drop_first().len() == 0);
    assert(enc_fields(r8.drop_first()) == Seq::<u8>::empty());
    assert(enc_fields(r8) =~= enc_field(fl[8]));
    assert(enc_fields(r7) == enc_field(fl[7]) + enc_fields(r8));
    assert(enc_fields(r6) == enc_field(fl[6]) + enc_fields(r7));
    assert(enc_fields(r5) == enc_field(fl[5]) + enc_fields(r6));
    assert(enc_fields(r4) == enc_field(fl[4]) + enc_fields(r5));
    assert(enc_fields(r3) == enc_field(fl[3]) + enc_fields(r4));
    assert(enc_fields(r2) == enc_field(fl[2]) + enc_fields(r3));
    assert(enc_fields(r1) == enc_field(fl[1]) + enc_fields(r2));
    assert(enc_fields(fl) == enc_field(fl[0]) + enc_fields(r1));
}

} // verus!
