use vstd::prelude::*;

use crate::codec::{
    budget_ge, budget_sub, fits_width, lemma_pow256_values, lemma_uint_bytes_len,
    lemma_uint_round_trip, spec_count, spec_count_list, spec_decode, spec_decode_fields,
    spec_decode_rep, spec_encode, spec_encode_list, be_value, le_value, spec_count_add,
    uint_bytes, uint_value, width_len,
};
use crate::config::{spec_resolve, Config, EndianOption};
use crate::config::{Endianness, LengthOption};
use crate::value::{
    matches_all, matches_fields, matches_shape, view_list, view_value, Shape, Value, ValueV,
};
use vstd::utf8::{char_is_scalar, char_u32_cast};

verus! {

broadcast use vstd::std_specs::vec::group_vec_axioms;

/// The counting pass agrees with the encoder: whenever counting a value
/// succeeds, the value encodes, the total grows by exactly the encoded
/// length, and the budget shrinks by the same amount; and whenever the
/// value encodes, the total stays in 64-bit range and the budget has
/// room, counting succeeds with exactly those outcomes. The exact size a
/// caller precomputes is therefore the exact size a later encode
/// produces.
#[verifier::rlimit(100)]
#[verifier::spinoff_prover]
pub proof fn lemma_count_encode_agree(
    v: Value,
    e: Endianness,
    sw: LengthOption,
    aw: LengthOption,
    t: int,
    b: Option<int>,
)
    ensures
        (match spec_count(v, e, sw, aw, (t, b)) {
            core::result::Result::Ok((t2, b2)) => spec_encode(v, e, sw, aw) matches Some(enc)
                && t2 == t + enc.len() && b2 == budget_sub(b, enc.len() as int),
            core::result::Result::Err(_) => true,
        }),
        (match spec_encode(v, e, sw, aw) {
            Some(enc) => (t + enc.len() <= u64::MAX && 0 <= t && budget_ge(b, enc.len() as int))
                ==> (spec_count(v, e, sw, aw, (t, b)) matches core::result::Result::Ok(
                (t2, b2),
            ) && t2 == t + enc.len() && b2 == budget_sub(b, enc.len() as int)),
            None => true,
        }),
        (match spec_count(v, e, sw, aw, (t, b)) {
            core::result::Result::Err(f) => spec_encode(v, e, sw, aw) is Some ==> f
                is OverBudget,
            core::result::Result::Ok(_) => true,
        }),
    decreases v, 1nat,
{
    match v {
        Value::Bool(_) => {
        },
        Value::Char(c) => {
            lemma_uint_bytes_len(c as u32 as nat, 4);
        },
        Value::U8(_) => {
        },
        Value::U16(x) => {
            lemma_uint_bytes_len(x as nat, 2);
        },
        Value::U32(x) => {
            lemma_uint_bytes_len(x as nat, 4);
        },
        Value::U64(x) => {
            lemma_uint_bytes_len(x as nat, 8);
        },
        Value::Str(bytes) => {
            lemma_uint_bytes_len(bytes@.len(), width_len(sw));
        },
        Value::Array(elems) => {
            lemma_uint_bytes_len(elems@.len(), width_len(aw));
            if fits_width(elems@.len(), aw) {
                let kw = width_len(aw) as int;
                match crate::codec::spec_count_add((t, b), kw) {
                    core::result::Result::Ok((t1, b1)) => {
                        lemma_count_encode_agree_list(elems@, e, sw, aw, t1, b1);
                    },
                    core::result::Result::Err(_) => {
                        lemma_count_encode_agree_list(elems@, e, sw, aw, t + kw, budget_sub(b, kw));
                    },
                }
            }
        },
        Value::Tuple(fields) => {
            lemma_count_encode_agree_list(fields@, e, sw, aw, t, b);
        },
        Value::Option(o) => {
            match o {
                Option::None => {
                },
                Option::Some(x) => {
                    match crate::codec::spec_count_add((t, b), 1) {
                        core::result::Result::Ok((t1, b1)) => {
                            lemma_count_encode_agree(*x, e, sw, aw, t1, b1);
                        },
                        core::result::Result::Err(_) => {
                            lemma_count_encode_agree(*x, e, sw, aw, t + 1, budget_sub(b, 1));
                        },
                    }
                },
            }
        },
        Value::Variant(tag, payload) => {
            lemma_uint_bytes_len(tag as nat, 4);
            match crate::codec::spec_count_add((t, b), 4) {
                core::result::Result::Ok((t1, b1)) => {
                    lemma_count_encode_agree(*payload, e, sw, aw, t1, b1);
                },
                core::result::Result::Err(_) => {
                    lemma_count_encode_agree(*payload, e, sw, aw, t + 4, budget_sub(b, 4));
                },
            }
        },
    }
}

/// The counting pass agrees with the encoder over a list of values, in
/// the same two directions.
#[verifier::rlimit(100)]
#[verifier::spinoff_prover]
pub proof fn lemma_count_encode_agree_list(
    vs: Seq<Value>,
    e: Endianness,
    sw: LengthOption,
    aw: LengthOption,
    t: int,
    b: Option<int>,
)
    ensures
        (match spec_count_list(vs, e, sw, aw, (t, b)) {
            core::result::Result::Ok((t2, b2)) => spec_encode_list(vs, e, sw, aw) matches Some(
                enc,
            ) && t2 == t + enc.len() && b2 == budget_sub(b, enc.len() as int),
            core::result::Result::Err(_) => true,
        }),
        (match spec_encode_list(vs, e, sw, aw) {
            Some(enc) => (t + enc.len() <= u64::MAX && 0 <= t && budget_ge(b, enc.len() as int))
                ==> (spec_count_list(vs, e, sw, aw, (t, b))
                matches core::result::Result::Ok((t2, b2)) && t2 == t + enc.len() && b2
                == budget_sub(b, enc.len() as int)),
            None => true,
        }),
        (match spec_count_list(vs, e, sw, aw, (t, b)) {
            core::result::Result::Err(f) => spec_encode_list(vs, e, sw, aw) is Some ==> f
                is OverBudget,
            core::result::Result::Ok(_) => true,
        }),
    decreases vs, 0nat,
{
    if vs.len() == 0 {
    } else {
        lemma_count_encode_agree(vs[0], e, sw, aw, t, b);
        match spec_count(vs[0], e, sw, aw, (t, b)) {
            core::result::Result::Ok((t1, b1)) => {
                lemma_count_encode_agree_list(vs.drop_first(), e, sw, aw, t1, b1);
            },
            core::result::Result::Err(_) => {
                match spec_encode(vs[0], e, sw, aw) {
                    Some(h) => {
                        lemma_count_encode_agree_list(
                            vs.drop_first(),
                            e,
                            sw,
                            aw,
                            t + h.len(),
                            budget_sub(b, h.len() as int),
                        );
                    },
                    None => {
                    },
                }
            },
        }
    }
}

/// A window of a byte sequence that holds a concatenation splits into a
/// window holding each half.
pub proof fn lemma_contained_split(s: Seq<u8>, pos: int, a: Seq<u8>, b: Seq<u8>)
    requires
        0 <= pos,
        pos + a.len() + b.len() <= s.len(),
        s.subrange(pos, pos + a.len() + b.len()) == a + b,
    ensures
        s.subrange(pos, pos + a.len()) == a,
        s.subrange(pos + a.len(), pos + a.len() + b.len()) == b,
{
    let w = s.subrange(pos, pos + a.len() + b.len());
    assert forall|i: int| 0 <= i < a.len() implies s[pos + i] == a[i] by {
        assert(w[i] == s[pos + i]);
        assert((a + b)[i] == a[i]);
    }
    assert(s.subrange(pos, pos + a.len()) =~= a);
    assert forall|i: int| 0 <= i < b.len() implies s[pos + a.len() + i] == b[i] by {
        assert(w[a.len() + i] == s[pos + a.len() + i]);
        assert((a + b)[a.len() + i] == b[i]);
    }
    assert(s.subrange(pos + a.len(), pos + a.len() + b.len()) =~= b);
}

/// A single byte denotes itself, in either byte order.
pub proof fn lemma_uint_value_single(b: u8, e: Endianness)
    ensures
        uint_value(seq![b], e) == b,
{
    let s = seq![b];
    assert(s.drop_first() =~= Seq::<u8>::empty());
    assert(s.drop_last() =~= Seq::<u8>::empty());
    assert(le_value(Seq::<u8>::empty()) == 0);
    assert(be_value(Seq::<u8>::empty()) == 0);
    assert(le_value(s) == b + 256 * le_value(s.drop_first()));
    assert(be_value(s) == 256 * be_value(s.drop_last()) + s.last());
}

/// Round trip at a cursor: a value that matches a shape and encodes is
/// decoded back to its own model from anywhere inside a larger byte
/// sequence, consuming exactly its encoding and charging exactly its
/// length against any sufficient budget.
#[verifier::rlimit(100)]
#[verifier::spinoff_prover]
pub proof fn lemma_round_trip_at(
    v: Value,
    shape: Shape,
    e: Endianness,
    sw: LengthOption,
    aw: LengthOption,
    enc: Seq<u8>,
    s: Seq<u8>,
    pos: int,
    bud: Option<int>,
)
    requires
        matches_shape(v, shape),
        spec_encode(v, e, sw, aw) == Some(enc),
        0 <= pos,
        pos + enc.len() <= s.len(),
        s.subrange(pos, pos + enc.len()) == enc,
        budget_ge(bud, enc.len() as int),
    ensures
        (spec_decode(s, pos, shape, e, sw, aw, bud) matches core::result::Result::Ok((vv, p2, b2))
            && vv == view_value(v) && p2 == pos + enc.len() && b2 == budget_sub(
            bud,
            enc.len() as int,
        )),
    decreases v, 1nat,
{
    lemma_pow256_values();
    match v {
        Value::Bool(b) => {
            let byte: u8 = if b {
                1
            } else {
                0
            };
            assert(enc =~= seq![byte]);
            lemma_uint_value_single(byte, e);
            assert(s.subrange(pos, pos + 1) == enc);
        },
        Value::Char(c) => {
            char_is_scalar(c);
            lemma_uint_round_trip(c as u32 as nat, 4, e);
            assert(s.subrange(pos, pos + 4) == enc);
            char_u32_cast(c, c as u32);
        },
        Value::U8(x) => {
            assert(enc =~= seq![x]);
            lemma_uint_value_single(x, e);
            assert(s.subrange(pos, pos + 1) == enc);
        },
        Value::U16(x) => {
            lemma_uint_round_trip(x as nat, 2, e);
            assert(s.subrange(pos, pos + 2) == enc);
        },
        Value::U32(x) => {
            lemma_uint_round_trip(x as nat, 4, e);
            assert(s.subrange(pos, pos + 4) == enc);
        },
        Value::U64(x) => {
            lemma_uint_round_trip(x as nat, 8, e);
            assert(s.subrange(pos, pos + 8) == enc);
        },
        Value::Str(bytes) => {
            let kw = width_len(sw);
            let prefix = uint_bytes(bytes@.len(), kw, e);
            lemma_uint_round_trip(bytes@.len(), kw, e);
            lemma_contained_split(s, pos, prefix, bytes@);
        },
        Value::Array(elems) => {
            let kw = width_len(aw);
            let prefix = uint_bytes(elems@.len(), kw, e);
            let body = spec_encode_list(elems@, e, sw, aw)->Some_0;
            lemma_uint_round_trip(elems@.len(), kw, e);
            lemma_contained_split(s, pos, prefix, body);
            lemma_round_trip_rep(
                elems@,
                *shape->Array_0,
                e,
                sw,
                aw,
                body,
                s,
                pos + kw,
                budget_sub(bud, kw as int),
            );
        },
        Value::Tuple(vals) => {
            lemma_round_trip_fields(vals@, shape->Tuple_0@, e, sw, aw, enc, s, pos, bud);
        },
        Value::Option(o) => {
            match o {
                Option::None => {
                    assert(enc =~= seq![0u8]);
                    lemma_uint_value_single(0u8, e);
                    assert(s.subrange(pos, pos + 1) == enc);
                },
                Option::Some(x) => {
                    let body = spec_encode(*x, e, sw, aw)->Some_0;
                    assert(enc == seq![1u8] + body);
                    lemma_contained_split(s, pos, seq![1u8], body);
                    lemma_uint_value_single(1u8, e);
                    lemma_round_trip_at(
                        *x,
                        *shape->Option_0,
                        e,
                        sw,
                        aw,
                        body,
                        s,
                        pos + 1,
                        budget_sub(bud, 1),
                    );
                },
            }
        },
        Value::Variant(tag, payload) => {
            let prefix = uint_bytes(tag as nat, 4, e);
            let body = spec_encode(*payload, e, sw, aw)->Some_0;
            lemma_uint_round_trip(tag as nat, 4, e);
            lemma_contained_split(s, pos, prefix, body);
            lemma_round_trip_at(
                *payload,
                shape->Enum_0@[tag as int],
                e,
                sw,
                aw,
                body,
                s,
                pos + 4,
                budget_sub(bud, 4),
            );
        },
    }
}

/// Round trip over the elements of a variable-length sequence.
#[verifier::rlimit(100)]
#[verifier::spinoff_prover]
pub proof fn lemma_round_trip_rep(
    vs: Seq<Value>,
    inner: Shape,
    e: Endianness,
    sw: LengthOption,
    aw: LengthOption,
    enc: Seq<u8>,
    s: Seq<u8>,
    pos: int,
    bud: Option<int>,
)
    requires
        matches_all(vs, inner),
        spec_encode_list(vs, e, sw, aw) == Some(enc),
        0 <= pos,
        pos + enc.len() <= s.len(),
        s.subrange(pos, pos + enc.len()) == enc,
        budget_ge(bud, enc.len() as int),
    ensures
        (spec_decode_rep(s, pos, inner, vs.len(), e, sw, aw, bud)
            matches core::result::Result::Ok((vvs, p2, b2)) && vvs == view_list(vs) && p2 == pos
            + enc.len() && b2 == budget_sub(bud, enc.len() as int)),
    decreases vs, 0nat,
{
    if vs.len() == 0 {
        assert(enc =~= Seq::<u8>::empty());
    } else {
        let h = spec_encode(vs[0], e, sw, aw)->Some_0;
        let rest = spec_encode_list(vs.drop_first(), e, sw, aw)->Some_0;
        assert(enc == h + rest);
        lemma_contained_split(s, pos, h, rest);
        lemma_round_trip_at(vs[0], inner, e, sw, aw, h, s, pos, bud);
        lemma_round_trip_rep(
            vs.drop_first(),
            inner,
            e,
            sw,
            aw,
            rest,
            s,
            pos + h.len(),
            budget_sub(bud, h.len() as int),
        );
        assert(view_list(vs) == seq![view_value(vs[0])] + view_list(vs.drop_first()));
    }
}

/// Round trip over the fields of a fixed grouping.
#[verifier::rlimit(100)]
#[verifier::spinoff_prover]
pub proof fn lemma_round_trip_fields(
    vs: Seq<Value>,
    fields: Seq<Shape>,
    e: Endianness,
    sw: LengthOption,
    aw: LengthOption,
    enc: Seq<u8>,
    s: Seq<u8>,
    pos: int,
    bud: Option<int>,
)
    requires
        matches_fields(vs, fields),
        spec_encode_list(vs, e, sw, aw) == Some(enc),
        0 <= pos,
        pos + enc.len() <= s.len(),
        s.subrange(pos, pos + enc.len()) == enc,
        budget_ge(bud, enc.len() as int),
    ensures
        (spec_decode_fields(s, pos, fields, e, sw, aw, bud) matches core::result::Result::Ok((
            vvs,
            p2,
            b2,
        )) && vvs == view_list(vs) && p2 == pos + enc.len() && b2 == budget_sub(
            bud,
            enc.len() as int,
        )),
    decreases vs, 0nat,
{
    if vs.len() == 0 {
        assert(enc =~= Seq::<u8>::empty());
    } else {
        let h = spec_encode(vs[0], e, sw, aw)->Some_0;
        let rest = spec_encode_list(vs.drop_first(), e, sw, aw)->Some_0;
        assert(enc == h + rest);
        lemma_contained_split(s, pos, h, rest);
        lemma_round_trip_at(vs[0], fields[0], e, sw, aw, h, s, pos, bud);
        lemma_round_trip_fields(
            vs.drop_first(),
            fields.drop_first(),
            e,
            sw,
            aw,
            rest,
            s,
            pos + h.len(),
            budget_sub(bud, h.len() as int),
        );
        assert(view_list(vs) == seq![view_value(vs[0])] + view_list(vs.drop_first()));
    }
}

/// Round trip: decoding the encoding of a matching value, embedded
/// between any leading and trailing bytes and without a byte budget,
/// yields exactly the model of that value and stops exactly at the end
/// of the encoding.
pub proof fn lemma_round_trip(
    v: Value,
    shape: Shape,
    e: Endianness,
    sw: LengthOption,
    aw: LengthOption,
    enc: Seq<u8>,
    prefix: Seq<u8>,
    suffix: Seq<u8>,
)
    requires
        matches_shape(v, shape),
        spec_encode(v, e, sw, aw) == Some(enc),
    ensures
        (spec_decode(
            prefix + enc + suffix,
            prefix.len() as int,
            shape,
            e,
            sw,
            aw,
            Option::None,
        ) matches core::result::Result::Ok((vv, p2, b2)) && vv == view_value(v) && p2
            == prefix.len() + enc.len() && b2 is None),
{
    let s = prefix + enc + suffix;
    assert(s.subrange(prefix.len() as int, (prefix.len() + enc.len()) as int) =~= enc);
    lemma_round_trip_at(v, shape, e, sw, aw, enc, s, prefix.len() as int, Option::None);
}

/// Every length representable in a given prefix width is recovered
/// exactly by decoding its fixed-width rendering, in either byte order;
/// a length that is not representable is never rendered, the encoder
/// refusing it instead.
pub proof fn lemma_size_type_round_trip(n: nat, w: LengthOption, e: Endianness)
    requires
        fits_width(n, w),
    ensures
        uint_bytes(n, width_len(w), e).len() == width_len(w),
        uint_value(uint_bytes(n, width_len(w), e), e) == n,
{
    lemma_uint_round_trip(n, width_len(w), e);
}

/// A counting pass that succeeds never drives a bounded budget below
/// zero: the budget it leaves is itself a valid remaining budget.
pub proof fn lemma_count_budget_nonneg(
    v: Value,
    e: Endianness,
    sw: LengthOption,
    aw: LengthOption,
    st: (int, Option<int>),
)
    requires
        (st.1 matches Some(x) ==> x >= 0),
    ensures
        (match spec_count(v, e, sw, aw, st) {
            core::result::Result::Ok((_, b2)) => (b2 matches Some(x2) ==> x2 >= 0),
            core::result::Result::Err(_) => true,
        }),
    decreases v, 1nat,
{
    match v {
        Value::Bool(_) => {
        },
        Value::Char(_) => {
        },
        Value::U8(_) => {
        },
        Value::U16(_) => {
        },
        Value::U32(_) => {
        },
        Value::U64(_) => {
        },
        Value::Str(_) => {
        },
        Value::Array(elems) => {
            if fits_width(elems@.len(), aw) {
                match spec_count_add(st, width_len(aw) as int) {
                    core::result::Result::Ok(st1) => {
                        lemma_count_budget_nonneg_list(elems@, e, sw, aw, st1);
                    },
                    core::result::Result::Err(_) => {
                    },
                }
            }
        },
        Value::Tuple(fields) => {
            lemma_count_budget_nonneg_list(fields@, e, sw, aw, st);
        },
        Value::Option(o) => {
            match o {
                Option::None => {
                },
                Option::Some(x) => {
                    match spec_count_add(st, 1) {
                        core::result::Result::Ok(st1) => {
                            lemma_count_budget_nonneg(*x, e, sw, aw, st1);
                        },
                        core::result::Result::Err(_) => {
                        },
                    }
                },
            }
        },
        Value::Variant(_tag, payload) => {
            match spec_count_add(st, 4) {
                core::result::Result::Ok(st1) => {
                    lemma_count_budget_nonneg(*payload, e, sw, aw, st1);
                },
                core::result::Result::Err(_) => {
                },
            }
        },
    }
}

/// The counting pass over a list keeps a bounded budget at or above
/// zero too.
pub proof fn lemma_count_budget_nonneg_list(
    vs: Seq<Value>,
    e: Endianness,
    sw: LengthOption,
    aw: LengthOption,
    st: (int, Option<int>),
)
    requires
        (st.1 matches Some(x) ==> x >= 0),
    ensures
        (match spec_count_list(vs, e, sw, aw, st) {
            core::result::Result::Ok((_, b2)) => (b2 matches Some(x2) ==> x2 >= 0),
            core::result::Result::Err(_) => true,
        }),
    decreases vs, 0nat,
{
    if vs.len() > 0 {
        lemma_count_budget_nonneg(vs[0], e, sw, aw, st);
        match spec_count(vs[0], e, sw, aw, st) {
            core::result::Result::Ok(st1) => {
                lemma_count_budget_nonneg_list(vs.drop_first(), e, sw, aw, st1);
            },
            core::result::Result::Err(_) => {
            },
        }
    }
}

/// A value whose encoding is longer than a bounded byte budget cannot be
/// serialized under that budget: the counting pass, which runs before
/// any byte of output exists, fails with the budget error.
pub proof fn lemma_bounded_overrun_fails(
    v: Value,
    e: Endianness,
    sw: LengthOption,
    aw: LengthOption,
    enc: Seq<u8>,
    k: u64,
)
    requires
        spec_encode(v, e, sw, aw) == Some(enc),
        enc.len() > k,
    ensures
        (spec_count(v, e, sw, aw, (0, Some(k as int))) matches core::result::Result::Err(f) && f
            is OverBudget),
{
    lemma_count_encode_agree(v, e, sw, aw, 0, Some(k as int));
    lemma_count_budget_nonneg(v, e, sw, aw, (0, Some(k as int)));
}

/// Resolver determinism, seen at the output: a configuration that does
/// not ask for the native byte order resolves to one specialization, so
/// the bytes any value encodes to under it are the same at every
/// resolution.
pub proof fn lemma_resolved_output_deterministic(
    c: Config,
    v: Value,
    m1: Endianness,
    m2: Endianness,
)
    requires
        c.endian != EndianOption::Native,
    ensures
        spec_resolve(c, m1) == spec_resolve(c, m2),
        ({
            let o1 = spec_resolve(c, m1);
            let o2 = spec_resolve(c, m2);
            spec_encode(v, o1.endian, o1.string_size, o1.array_size) == spec_encode(
                v,
                o2.endian,
                o2.string_size,
                o2.array_size,
            )
        }),
{
    crate::config::lemma_resolve_deterministic(c, m1, m2);
}

} // verus!
