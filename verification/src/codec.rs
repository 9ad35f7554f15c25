use vstd::prelude::*;
use vstd::arithmetic::div_mod::lemma_fundamental_div_mod;

use crate::config::{Endianness, LengthOption, LimitOption};
use crate::error::{eof_error, size_type_limit_error, ErrorKind, Result};
use crate::internal::{spec_count_step, spec_meter, CountSize};
use crate::value::{view_list, view_value, Shape, Value, ValueV};
use vstd::utf8::{is_scalar, valid_utf8};

verus! {

broadcast use vstd::std_specs::vec::group_vec_axioms;

/// The number of bytes of a length prefix of the given width.
pub open spec fn width_len(w: LengthOption) -> nat {
    match w {
        LengthOption::U64 => 8,
        LengthOption::U32 => 4,
        LengthOption::U16 => 2,
        LengthOption::U8 => 1,
    }
}

/// 256 raised to the power `k`: the number of values `k` bytes can hold.
pub open spec fn pow256(k: nat) -> nat
    decreases k,
{
    if k == 0 {
        1
    } else {
        256 * pow256((k - 1) as nat)
    }
}

/// Whether a length is representable in a prefix of the given width.
pub open spec fn fits_width(n: nat, w: LengthOption) -> bool {
    n < pow256(width_len(w))
}

/// The values of small powers of 256, written out for callers that
/// compare against concrete integer ranges.
pub proof fn lemma_pow256_values()
    ensures
        pow256(0) == 1,
        pow256(1) == 0x100,
        pow256(2) == 0x10000,
        pow256(3) == 0x1000000,
        pow256(4) == 0x100000000,
        pow256(5) == 0x10000000000,
        pow256(6) == 0x1000000000000,
        pow256(7) == 0x100000000000000,
        pow256(8) == 0x10000000000000000,
{
    reveal_with_fuel(pow256, 9);
}

/// More bytes hold at least as many values.
pub proof fn lemma_pow256_mono(a: nat, b: nat)
    requires
        a <= b,
    ensures
        pow256(a) <= pow256(b),
    decreases b,
{
    if a < b {
        lemma_pow256_mono(a, (b - 1) as nat);
    }
}

/// The little-endian bytes of `n`, least significant first, in `k` bytes.
pub open spec fn le_bytes(n: nat, k: nat) -> Seq<u8>
    decreases k,
{
    if k == 0 {
        Seq::empty()
    } else {
        seq![(n % 256) as u8] + le_bytes(n / 256, (k - 1) as nat)
    }
}

/// The big-endian bytes of `n`, most significant first, in `k` bytes.
pub open spec fn be_bytes(n: nat, k: nat) -> Seq<u8>
    decreases k,
{
    if k == 0 {
        Seq::empty()
    } else {
        be_bytes(n / 256, (k - 1) as nat) + seq![(n % 256) as u8]
    }
}

/// The bytes of `n` in `k` bytes of the given byte order.
pub open spec fn uint_bytes(n: nat, k: nat, e: Endianness) -> Seq<u8> {
    match e {
        Endianness::Little => le_bytes(n, k),
        Endianness::Big => be_bytes(n, k),
    }
}

/// The number a little-endian byte sequence denotes.
pub open spec fn le_value(s: Seq<u8>) -> nat
    decreases s.len(),
{
    if s.len() == 0 {
        0
    } else {
        (s[0] + 256 * le_value(s.drop_first())) as nat
    }
}

/// The number a big-endian byte sequence denotes.
pub open spec fn be_value(s: Seq<u8>) -> nat
    decreases s.len(),
{
    if s.len() == 0 {
        0
    } else {
        (256 * be_value(s.drop_last()) + s.last()) as nat
    }
}

/// The number a byte sequence denotes in the given byte order.
pub open spec fn uint_value(s: Seq<u8>, e: Endianness) -> nat {
    match e {
        Endianness::Little => le_value(s),
        Endianness::Big => be_value(s),
    }
}

/// Either byte order renders `n` in exactly `k` bytes.
pub proof fn lemma_uint_bytes_len(n: nat, k: nat)
    ensures
        le_bytes(n, k).len() == k,
        be_bytes(n, k).len() == k,
    decreases k,
{
    if k > 0 {
        lemma_uint_bytes_len(n / 256, (k - 1) as nat);
    }
}

/// A little-endian byte sequence denotes a value below 256 to its length.
pub proof fn lemma_le_value_bound(s: Seq<u8>)
    ensures
        le_value(s) < pow256(s.len()),
    decreases s.len(),
{
    if s.len() > 0 {
        lemma_le_value_bound(s.drop_first());
    }
}

/// A big-endian byte sequence denotes a value below 256 to its length.
pub proof fn lemma_be_value_bound(s: Seq<u8>)
    ensures
        be_value(s) < pow256(s.len()),
    decreases s.len(),
{
    if s.len() > 0 {
        lemma_be_value_bound(s.drop_last());
    }
}

/// The quotient by 256 of a number below 256^k is below 256^(k-1).
proof fn lemma_div256_bound(n: nat, k: nat)
    requires
        k > 0,
        n < pow256(k),
    ensures
        n / 256 < pow256((k - 1) as nat),
{
    lemma_fundamental_div_mod(n as int, 256);
    if n / 256 >= pow256((k - 1) as nat) {
        assert(256 * (n / 256) >= 256 * pow256((k - 1) as nat));
    }
}

/// Any number representable in `k` little-endian bytes is recovered
/// exactly by reading its encoding back.
pub proof fn lemma_le_round_trip(n: nat, k: nat)
    requires
        n < pow256(k),
    ensures
        le_value(le_bytes(n, k)) == n,
    decreases k,
{
    if k == 0 {
    } else {
        lemma_div256_bound(n, k);
        lemma_le_round_trip(n / 256, (k - 1) as nat);
        assert(le_bytes(n, k).drop_first() =~= le_bytes(n / 256, (k - 1) as nat));
        lemma_fundamental_div_mod(n as int, 256);
    }
}

/// Any number representable in `k` big-endian bytes is recovered exactly
/// by reading its encoding back.
pub proof fn lemma_be_round_trip(n: nat, k: nat)
    requires
        n < pow256(k),
    ensures
        be_value(be_bytes(n, k)) == n,
    decreases k,
{
    if k == 0 {
    } else {
        lemma_div256_bound(n, k);
        lemma_be_round_trip(n / 256, (k - 1) as nat);
        lemma_uint_bytes_len(n / 256, (k - 1) as nat);
        assert(be_bytes(n, k).drop_last() =~= be_bytes(n / 256, (k - 1) as nat));
        assert(be_bytes(n, k).last() == (n % 256) as u8);
        lemma_fundamental_div_mod(n as int, 256);
    }
}

/// Any number representable in `k` bytes is recovered exactly by decoding
/// its `k`-byte rendering, in either byte order.
pub proof fn lemma_uint_round_trip(n: nat, k: nat, e: Endianness)
    requires
        n < pow256(k),
    ensures
        uint_bytes(n, k, e).len() == k,
        uint_value(uint_bytes(n, k, e), e) == n,
{
    lemma_uint_bytes_len(n, k);
    match e {
        Endianness::Little => lemma_le_round_trip(n, k),
        Endianness::Big => lemma_be_round_trip(n, k),
    }
}

/// Appends the `k`-byte rendering of `n` in the given byte order.
pub fn write_uint(out: &mut Vec<u8>, n: u64, k: usize, e: Endianness)
    requires
        n < pow256(k as nat),
    ensures
        final(out)@ == old(out)@ + uint_bytes(n as nat, k as nat, e),
    decreases k,
{
    if k == 0 {
        assert(out@ =~= old(out)@ + uint_bytes(n as nat, 0, e));
    } else {
        let b = (n % 256) as u8;
        let rest = n / 256;
        proof {
            lemma_div256_bound(n as nat, k as nat);
        }
        match e {
            Endianness::Little => {
                out.push(b);
                write_uint(out, rest, k - 1, e);
                assert(out@ =~= old(out)@ + le_bytes(n as nat, k as nat));
            },
            Endianness::Big => {
                write_uint(out, rest, k - 1, e);
                out.push(b);
                assert(out@ =~= old(out)@ + be_bytes(n as nat, k as nat));
            },
        }
    }
}

/// Reads `k` little-endian bytes at the cursor and advances it.
fn read_le(bytes: &[u8], pos: &mut usize, k: usize) -> (r: u64)
    requires
        *old(pos) + k <= bytes@.len(),
        k <= 8,
    ensures
        *final(pos) == *old(pos) + k,
        r == le_value(bytes@.subrange(*old(pos) as int, (*old(pos) + k) as int)),
    decreases k,
{
    if k == 0 {
        assert(bytes@.subrange(*old(pos) as int, *old(pos) as int) =~= Seq::<u8>::empty());
        0
    } else {
        let b = bytes[*pos];
        *pos = *pos + 1;
        let rest = read_le(bytes, pos, k - 1);
        proof {
            let w = bytes@.subrange(*old(pos) as int, (*old(pos) + k) as int);
            assert(w.drop_first() =~= bytes@.subrange(
                *old(pos) + 1 as int,
                (*old(pos) + k) as int,
            ));
            assert(w[0] == b);
            lemma_le_value_bound(w.drop_first());
            lemma_pow256_mono(((k - 1) as usize) as nat, 7);
            lemma_pow256_values();
        }
        b as u64 + 256 * rest
    }
}

/// Reads `k` big-endian bytes at the cursor and advances it.
fn read_be(bytes: &[u8], pos: &mut usize, k: usize) -> (r: u64)
    requires
        *old(pos) + k <= bytes@.len(),
        k <= 8,
    ensures
        *final(pos) == *old(pos) + k,
        r == be_value(bytes@.subrange(*old(pos) as int, (*old(pos) + k) as int)),
    decreases k,
{
    if k == 0 {
        assert(bytes@.subrange(*old(pos) as int, *old(pos) as int) =~= Seq::<u8>::empty());
        0
    } else {
        let hi = read_be(bytes, pos, k - 1);
        let b = bytes[*pos];
        *pos = *pos + 1;
        proof {
            let w = bytes@.subrange(*old(pos) as int, (*old(pos) + k) as int);
            assert(w.drop_last() =~= bytes@.subrange(
                *old(pos) as int,
                (*old(pos) + k - 1) as int,
            ));
            assert(w.last() == b);
            lemma_be_value_bound(w.drop_last());
            lemma_pow256_mono(((k - 1) as usize) as nat, 7);
            lemma_pow256_values();
        }
        256 * hi + b as u64
    }
}

/// How a decode attempt fails, classified at the specification level.
pub enum DecodeFail {
    /// The input ended before the value was complete.
    Eof,
    /// A metered read would exceed the byte budget.
    PastLimit,
    /// A boolean byte was neither 0 nor 1.
    BadBool(u8),
    /// A scalar is not a valid character codepoint.
    BadChar(u32),
    /// A variant or option tag lies outside the accepted range.
    BadTag(u32),
    /// Text bytes are not valid UTF-8.
    BadUtf8,
}

/// Which error value each decode failure is reported as.
pub open spec fn fail_matches(e: ErrorKind, f: DecodeFail) -> bool {
    match f {
        DecodeFail::Eof => e is Io,
        DecodeFail::PastLimit => e is SizeLimit,
        DecodeFail::BadBool(b) => e == ErrorKind::InvalidBoolEncoding(b),
        DecodeFail::BadChar(_) => e is InvalidCharEncoding,
        DecodeFail::BadTag(t) => e == ErrorKind::InvalidTagEncoding(t as usize),
        DecodeFail::BadUtf8 => e is InvalidUtf8Encoding,
    }
}

/// One metered fixed-width read: the budget is charged first, then the
/// bytes must be present, then they denote a number in the given order.
pub open spec fn spec_read_uint(
    s: Seq<u8>,
    pos: int,
    k: nat,
    e: Endianness,
    bud: Option<int>,
) -> core::result::Result<(int, int, Option<int>), DecodeFail> {
    let m = spec_meter(bud, k as int);
    if !m.1 {
        core::result::Result::Err(DecodeFail::PastLimit)
    } else if pos + k > s.len() {
        core::result::Result::Err(DecodeFail::Eof)
    } else {
        core::result::Result::Ok(
            (uint_value(s.subrange(pos, pos + k), e) as int, pos + k, m.0),
        )
    }
}

/// Reads a `k`-byte number at the cursor in the given byte order,
/// metering the read against the live limit.
pub fn read_uint(
    bytes: &[u8],
    pos: &mut usize,
    k: usize,
    e: Endianness,
    lim: &mut LimitOption,
) -> (r: Result<u64>)
    requires
        *old(pos) <= bytes@.len(),
        1 <= k <= 8,
    ensures
        match spec_read_uint(bytes@, *old(pos) as int, k as nat, e, old(lim).budget()) {
            core::result::Result::Ok((n, p2, b2)) => (r matches Ok(v) && v == n) && *final(pos)
                == p2 && final(lim).budget() == b2,
            core::result::Result::Err(f) => (r matches Err(er) && fail_matches(*er, f))
                && *final(pos) == *old(pos),
        },
        *old(pos) <= *final(pos) <= bytes@.len(),
{
    lim.add(k as u64)?;
    if bytes.len() - *pos < k {
        return Err(eof_error());
    }
    match e {
        Endianness::Little => Ok(read_le(bytes, pos, k)),
        Endianness::Big => Ok(read_be(bytes, pos, k)),
    }
}


/// The bytes a value encodes to under a byte order and the two
/// length-prefix widths, or nothing when some length does not fit its
/// configured width.
pub open spec fn spec_encode(v: Value, e: Endianness, sw: LengthOption, aw: LengthOption) -> Option<
    Seq<u8>,
>
    decreases v, 1nat,
{
    match v {
        Value::Bool(b) => Some(
            seq![
                if b {
                    1u8
                } else {
                    0u8
                },
            ],
        ),
        Value::Char(c) => Some(uint_bytes(c as u32 as nat, 4, e)),
        Value::U8(x) => Some(seq![x]),
        Value::U16(x) => Some(uint_bytes(x as nat, 2, e)),
        Value::U32(x) => Some(uint_bytes(x as nat, 4, e)),
        Value::U64(x) => Some(uint_bytes(x as nat, 8, e)),
        Value::Str(bytes) => if fits_width(bytes@.len(), sw) {
            Some(uint_bytes(bytes@.len(), width_len(sw), e) + bytes@)
        } else {
            None
        },
        Value::Array(elems) => if fits_width(elems@.len(), aw) {
            match spec_encode_list(elems@, e, sw, aw) {
                Some(body) => Some(uint_bytes(elems@.len(), width_len(aw), e) + body),
                None => None,
            }
        } else {
            None
        },
        Value::Tuple(fields) => spec_encode_list(fields@, e, sw, aw),
        Value::Option(o) => match o {
            Option::None => Some(seq![0u8]),
            Option::Some(x) => match spec_encode(*x, e, sw, aw) {
                Some(s) => Some(seq![1u8] + s),
                None => None,
            },
        },
        Value::Variant(tag, payload) => match spec_encode(*payload, e, sw, aw) {
            Some(s) => Some(uint_bytes(tag as nat, 4, e) + s),
            None => None,
        },
    }
}

/// The concatenated encodings of a list of values, or nothing when any
/// one of them fails.
pub open spec fn spec_encode_list(
    vs: Seq<Value>,
    e: Endianness,
    sw: LengthOption,
    aw: LengthOption,
) -> Option<Seq<u8>>
    decreases vs, 0nat,
{
    if vs.len() == 0 {
        Some(Seq::empty())
    } else {
        match (spec_encode(vs[0], e, sw, aw), spec_encode_list(vs.drop_first(), e, sw, aw)) {
            (Some(h), Some(t)) => Some(h + t),
            _ => None,
        }
    }
}

/// How a counting pass fails: a length wider than its configured prefix,
/// or a byte budget that runs out.
pub enum CountFail {
    /// Some length does not fit the configured length-prefix width.
    TooWide,
    /// The metered total would exceed the byte budget.
    OverBudget,
}

/// Which error value each counting failure is reported as.
pub open spec fn count_fail_matches(e: ErrorKind, f: CountFail) -> bool {
    match f {
        CountFail::TooWide => e is SizeTypeLimit,
        CountFail::OverBudget => e is SizeLimit,
    }
}

/// One metered chunk of the counting pass, threading the running total
/// and the remaining budget.
pub open spec fn spec_count_add(st: (int, Option<int>), n: int) -> core::result::Result<
    (int, Option<int>),
    CountFail,
> {
    let (t2, b2, ok) = spec_count_step(st.0, st.1, n);
    if ok {
        core::result::Result::Ok((t2, b2))
    } else {
        core::result::Result::Err(CountFail::OverBudget)
    }
}

/// The counting pass over one value: the same traversal as the encoder,
/// metering each chunk instead of producing it.
pub open spec fn spec_count(
    v: Value,
    e: Endianness,
    sw: LengthOption,
    aw: LengthOption,
    st: (int, Option<int>),
) -> core::result::Result<(int, Option<int>), CountFail>
    decreases v, 1nat,
{
    match v {
        Value::Bool(_) => spec_count_add(st, 1),
        Value::Char(_) => spec_count_add(st, 4),
        Value::U8(_) => spec_count_add(st, 1),
        Value::U16(_) => spec_count_add(st, 2),
        Value::U32(_) => spec_count_add(st, 4),
        Value::U64(_) => spec_count_add(st, 8),
        Value::Str(bytes) => if !fits_width(bytes@.len(), sw) {
            core::result::Result::Err(CountFail::TooWide)
        } else {
            match spec_count_add(st, width_len(sw) as int) {
                core::result::Result::Ok(st1) => spec_count_add(st1, bytes@.len() as int),
                core::result::Result::Err(f) => core::result::Result::Err(f),
            }
        },
        Value::Array(elems) => if !fits_width(elems@.len(), aw) {
            core::result::Result::Err(CountFail::TooWide)
        } else {
            match spec_count_add(st, width_len(aw) as int) {
                core::result::Result::Ok(st1) => spec_count_list(elems@, e, sw, aw, st1),
                core::result::Result::Err(f) => core::result::Result::Err(f),
            }
        },
        Value::Tuple(fields) => spec_count_list(fields@, e, sw, aw, st),
        Value::Option(o) => match o {
            Option::None => spec_count_add(st, 1),
            Option::Some(x) => match spec_count_add(st, 1) {
                core::result::Result::Ok(st1) => spec_count(*x, e, sw, aw, st1),
                core::result::Result::Err(f) => core::result::Result::Err(f),
            },
        },
        Value::Variant(_tag, payload) => match spec_count_add(st, 4) {
            core::result::Result::Ok(st1) => spec_count(*payload, e, sw, aw, st1),
            core::result::Result::Err(f) => core::result::Result::Err(f),
        },
    }
}

/// The counting pass over a list of values, in order.
pub open spec fn spec_count_list(
    vs: Seq<Value>,
    e: Endianness,
    sw: LengthOption,
    aw: LengthOption,
    st: (int, Option<int>),
) -> core::result::Result<(int, Option<int>), CountFail>
    decreases vs, 0nat,
{
    if vs.len() == 0 {
        core::result::Result::Ok(st)
    } else {
        match spec_count(vs[0], e, sw, aw, st) {
            core::result::Result::Ok(st1) => spec_count_list(vs.drop_first(), e, sw, aw, st1),
            core::result::Result::Err(f) => core::result::Result::Err(f),
        }
    }
}

/// The number of bytes of a length prefix of the given width, as a
/// runtime value.
pub fn width_bytes(w: LengthOption) -> (k: usize)
    ensures
        k == width_len(w),
{
    match w {
        LengthOption::U64 => 8,
        LengthOption::U32 => 4,
        LengthOption::U16 => 2,
        LengthOption::U8 => 1,
    }
}

/// Whether a runtime length is representable in a prefix of the given
/// width.
pub fn check_width(len: usize, w: LengthOption) -> (b: bool)
    ensures
        b == fits_width(len as nat, w),
{
    proof {
        lemma_pow256_values();
    }
    match w {
        LengthOption::U64 => {
            proof {
                assert((len as nat) < pow256(8)) by {
                    assert(len <= usize::MAX);
                }
            }
            true
        },
        LengthOption::U32 => len as u64 <= u32::MAX as u64,
        LengthOption::U16 => len as u64 <= u16::MAX as u64,
        LengthOption::U8 => len as u64 <= u8::MAX as u64,
    }
}

/// Whether a budget admits `n` more bytes.
pub open spec fn budget_ge(bud: Option<int>, n: int) -> bool {
    match bud {
        Option::None => true,
        Option::Some(b) => n <= b,
    }
}

/// A budget after `n` bytes have been charged against it.
pub open spec fn budget_sub(bud: Option<int>, n: int) -> Option<int> {
    match bud {
        Option::None => Option::None,
        Option::Some(b) => Option::Some(b - n),
    }
}

/// The shape-directed decoding of one value at a cursor: what value the
/// bytes denote, where the cursor lands, and what budget remains, or how
/// the attempt fails.
pub open spec fn spec_decode(
    s: Seq<u8>,
    pos: int,
    shape: Shape,
    e: Endianness,
    sw: LengthOption,
    aw: LengthOption,
    bud: Option<int>,
) -> core::result::Result<(ValueV, int, Option<int>), DecodeFail>
    decreases shape, 0nat,
{
    match shape {
        Shape::Bool => match spec_read_uint(s, pos, 1, e, bud) {
            core::result::Result::Ok((n, p2, b2)) => if n == 0 {
                core::result::Result::Ok((ValueV::Bool(false), p2, b2))
            } else if n == 1 {
                core::result::Result::Ok((ValueV::Bool(true), p2, b2))
            } else {
                core::result::Result::Err(DecodeFail::BadBool(n as u8))
            },
            core::result::Result::Err(f) => core::result::Result::Err(f),
        },
        Shape::Char => match spec_read_uint(s, pos, 4, e, bud) {
            core::result::Result::Ok((n, p2, b2)) => if is_scalar(n as u32) {
                core::result::Result::Ok((ValueV::Char(n as u32 as char), p2, b2))
            } else {
                core::result::Result::Err(DecodeFail::BadChar(n as u32))
            },
            core::result::Result::Err(f) => core::result::Result::Err(f),
        },
        Shape::U8 => match spec_read_uint(s, pos, 1, e, bud) {
            core::result::Result::Ok((n, p2, b2)) => core::result::Result::Ok(
                (ValueV::U8(n as u8), p2, b2),
            ),
            core::result::Result::Err(f) => core::result::Result::Err(f),
        },
        Shape::U16 => match spec_read_uint(s, pos, 2, e, bud) {
            core::result::Result::Ok((n, p2, b2)) => core::result::Result::Ok(
                (ValueV::U16(n as u16), p2, b2),
            ),
            core::result::Result::Err(f) => core::result::Result::Err(f),
        },
        Shape::U32 => match spec_read_uint(s, pos, 4, e, bud) {
            core::result::Result::Ok((n, p2, b2)) => core::result::Result::Ok(
                (ValueV::U32(n as u32), p2, b2),
            ),
            core::result::Result::Err(f) => core::result::Result::Err(f),
        },
        Shape::U64 => match spec_read_uint(s, pos, 8, e, bud) {
            core::result::Result::Ok((n, p2, b2)) => core::result::Result::Ok(
                (ValueV::U64(n as u64), p2, b2),
            ),
            core::result::Result::Err(f) => core::result::Result::Err(f),
        },
        Shape::Str => match spec_read_uint(s, pos, width_len(sw), e, bud) {
            core::result::Result::Ok((n, p2, b2)) => {
                let m = spec_meter(b2, n);
                if !m.1 {
                    core::result::Result::Err(DecodeFail::PastLimit)
                } else if p2 + n > s.len() {
                    core::result::Result::Err(DecodeFail::Eof)
                } else if valid_utf8(s.subrange(p2, p2 + n)) {
                    core::result::Result::Ok((ValueV::Str(s.subrange(p2, p2 + n)), p2 + n, m.0))
                } else {
                    core::result::Result::Err(DecodeFail::BadUtf8)
                }
            },
            core::result::Result::Err(f) => core::result::Result::Err(f),
        },
        Shape::Array(inner) => match spec_read_uint(s, pos, width_len(aw), e, bud) {
            core::result::Result::Ok((n, p2, b2)) => match spec_decode_rep(
                s,
                p2,
                *inner,
                n as nat,
                e,
                sw,
                aw,
                b2,
            ) {
                core::result::Result::Ok((vs, p3, b3)) => core::result::Result::Ok(
                    (ValueV::Array(vs), p3, b3),
                ),
                core::result::Result::Err(f) => core::result::Result::Err(f),
            },
            core::result::Result::Err(f) => core::result::Result::Err(f),
        },
        Shape::Tuple(fields) => match spec_decode_fields(s, pos, fields@, e, sw, aw, bud) {
            core::result::Result::Ok((vs, p2, b2)) => core::result::Result::Ok(
                (ValueV::Tuple(vs), p2, b2),
            ),
            core::result::Result::Err(f) => core::result::Result::Err(f),
        },
        Shape::Option(inner) => match spec_read_uint(s, pos, 1, e, bud) {
            core::result::Result::Ok((n, p2, b2)) => if n == 0 {
                core::result::Result::Ok((ValueV::Option(Option::None), p2, b2))
            } else if n == 1 {
                match spec_decode(s, p2, *inner, e, sw, aw, b2) {
                    core::result::Result::Ok((vv, p3, b3)) => core::result::Result::Ok(
                        (ValueV::Option(Option::Some(Box::new(vv))), p3, b3),
                    ),
                    core::result::Result::Err(f) => core::result::Result::Err(f),
                }
            } else {
                core::result::Result::Err(DecodeFail::BadTag(n as u32))
            },
            core::result::Result::Err(f) => core::result::Result::Err(f),
        },
        Shape::Enum(variants) => match spec_read_uint(s, pos, 4, e, bud) {
            core::result::Result::Ok((n, p2, b2)) => if n < variants@.len() {
                match spec_decode(s, p2, variants@[n], e, sw, aw, b2) {
                    core::result::Result::Ok((vv, p3, b3)) => core::result::Result::Ok(
                        (ValueV::Variant(n as u32, Box::new(vv)), p3, b3),
                    ),
                    core::result::Result::Err(f) => core::result::Result::Err(f),
                }
            } else {
                core::result::Result::Err(DecodeFail::BadTag(n as u32))
            },
            core::result::Result::Err(f) => core::result::Result::Err(f),
        },
    }
}

/// The decoding of `n` repetitions of one element shape, in order.
pub open spec fn spec_decode_rep(
    s: Seq<u8>,
    pos: int,
    inner: Shape,
    n: nat,
    e: Endianness,
    sw: LengthOption,
    aw: LengthOption,
    bud: Option<int>,
) -> core::result::Result<(Seq<ValueV>, int, Option<int>), DecodeFail>
    decreases inner, n,
{
    if n == 0 {
        core::result::Result::Ok((Seq::empty(), pos, bud))
    } else {
        match spec_decode(s, pos, inner, e, sw, aw, bud) {
            core::result::Result::Ok((vv, p2, b2)) => match spec_decode_rep(
                s,
                p2,
                inner,
                (n - 1) as nat,
                e,
                sw,
                aw,
                b2,
            ) {
                core::result::Result::Ok((vs, p3, b3)) => core::result::Result::Ok(
                    (seq![vv] + vs, p3, b3),
                ),
                core::result::Result::Err(f) => core::result::Result::Err(f),
            },
            core::result::Result::Err(f) => core::result::Result::Err(f),
        }
    }
}

/// The decoding of a fixed grouping, one field shape after the other.
pub open spec fn spec_decode_fields(
    s: Seq<u8>,
    pos: int,
    fields: Seq<Shape>,
    e: Endianness,
    sw: LengthOption,
    aw: LengthOption,
    bud: Option<int>,
) -> core::result::Result<(Seq<ValueV>, int, Option<int>), DecodeFail>
    decreases fields, 0nat,
{
    if fields.len() == 0 {
        core::result::Result::Ok((Seq::empty(), pos, bud))
    } else {
        match spec_decode(s, pos, fields[0], e, sw, aw, bud) {
            core::result::Result::Ok((vv, p2, b2)) => match spec_decode_fields(
                s,
                p2,
                fields.drop_first(),
                e,
                sw,
                aw,
                b2,
            ) {
                core::result::Result::Ok((vs, p3, b3)) => core::result::Result::Ok(
                    (seq![vv] + vs, p3, b3),
                ),
                core::result::Result::Err(f) => core::result::Result::Err(f),
            },
            core::result::Result::Err(f) => core::result::Result::Err(f),
        }
    }
}

/// Joining already-decoded leading values onto the outcome of decoding
/// the remaining ones.
pub open spec fn rep_join(
    prefix: Seq<ValueV>,
    r: core::result::Result<(Seq<ValueV>, int, Option<int>), DecodeFail>,
) -> core::result::Result<(Seq<ValueV>, int, Option<int>), DecodeFail> {
    match r {
        core::result::Result::Ok((vs, p, b)) => core::result::Result::Ok((prefix + vs, p, b)),
        core::result::Result::Err(f) => core::result::Result::Err(f),
    }
}

/// Appends the encoding of a value to an output buffer: the same
/// traversal as the counting pass, producing the bytes. Fails exactly
/// when some length does not fit its configured prefix width; the buffer
/// may then hold a partial prefix of the output.
#[verifier::loop_isolation(false)]
#[verifier::rlimit(100)]
#[verifier::spinoff_prover]
pub fn encode_value(
    v: &Value,
    e: Endianness,
    sw: LengthOption,
    aw: LengthOption,
    out: &mut Vec<u8>,
) -> (r: Result<()>)
    ensures
        (match spec_encode(*v, e, sw, aw) {
            Some(s) => r is Ok && final(out)@ == old(out)@ + s,
            None => (r matches Err(er) && *er is SizeTypeLimit),
        }),
    decreases *v, 1nat,
{
    match v {
        Value::Bool(b) => {
            let byte: u8 = if *b {
                1
            } else {
                0
            };
            out.push(byte);
            proof {
                assert(out@ =~= old(out)@ + spec_encode(*v, e, sw, aw)->Some_0);
            }
            Ok(())
        },
        Value::Char(c) => {
            proof {
                lemma_pow256_values();
            }
            write_uint(out, (*c as u32) as u64, 4, e);
            Ok(())
        },
        Value::U8(x) => {
            out.push(*x);
            proof {
                assert(out@ =~= old(out)@ + seq![*x]);
            }
            Ok(())
        },
        Value::U16(x) => {
            proof {
                lemma_pow256_values();
            }
            write_uint(out, *x as u64, 2, e);
            Ok(())
        },
        Value::U32(x) => {
            proof {
                lemma_pow256_values();
            }
            write_uint(out, *x as u64, 4, e);
            Ok(())
        },
        Value::U64(x) => {
            proof {
                lemma_pow256_values();
            }
            write_uint(out, *x, 8, e);
            Ok(())
        },
        Value::Str(bytes) => encode_str_exec(bytes, e, sw, aw, out),
        Value::Array(elems) => {
            if !check_width(elems.len(), aw) {
                return Err(size_type_limit_error());
            }
            let k = width_bytes(aw);
            write_uint(out, elems.len() as u64, k, e);
            encode_list_exec(elems, e, sw, aw, out)?;
            proof {
                let body = spec_encode_list(elems@, e, sw, aw)->Some_0;
                assert(out@ =~= old(out)@ + (uint_bytes(elems@.len(), width_len(aw), e)
                    + body));
            }
            Ok(())
        },
        Value::Tuple(fields) => encode_list_exec(fields, e, sw, aw, out),
        Value::Option(o) => match o {
            Option::None => {
                out.push(0);
                proof {
                    assert(out@ =~= old(out)@ + seq![0u8]);
                }
                Ok(())
            },
            Option::Some(x) => {
                out.push(1);
                let ghost mid = out@;
                proof {
                    assert(mid =~= old(out)@ + seq![1u8]);
                }
                encode_value(&**x, e, sw, aw, out)?;
                proof {
                    let s = spec_encode(**x, e, sw, aw)->Some_0;
                    assert(out@ =~= old(out)@ + (seq![1u8] + s));
                }
                Ok(())
            },
        },
        Value::Variant(tag, payload) => {
            proof {
                lemma_pow256_values();
            }
            write_uint(out, *tag as u64, 4, e);
            encode_value(&**payload, e, sw, aw, out)?;
            proof {
                let s = spec_encode(**payload, e, sw, aw)->Some_0;
                assert(out@ =~= old(out)@ + (uint_bytes(*tag as nat, 4, e) + s));
            }
            Ok(())
        },
    }
}

/// Appends the encoding of a text value: its length prefix in the
/// configured width, then its UTF-8 bytes.
#[verifier::loop_isolation(false)]
#[verifier::rlimit(60)]
fn encode_str_exec(
    bytes: &Vec<u8>,
    e: Endianness,
    sw: LengthOption,
    aw: LengthOption,
    out: &mut Vec<u8>,
) -> (r: Result<()>)
    ensures
        (match spec_encode(Value::Str(*bytes), e, sw, aw) {
            Some(s) => r is Ok && final(out)@ == old(out)@ + s,
            None => (r matches Err(er) && *er is SizeTypeLimit),
        }),
{
    if !check_width(bytes.len(), sw) {
        return Err(size_type_limit_error());
    }
    let k = width_bytes(sw);
    write_uint(out, bytes.len() as u64, k, e);
    let ghost pre = out@;
    let mut j: usize = 0;
    while j < bytes.len()
        invariant
            j <= bytes.len(),
            out@ == pre + bytes@.subrange(0, j as int),
        decreases bytes.len() - j,
    {
        let byte = bytes[j];
        out.push(byte);
        proof {
            assert(out@ =~= pre + bytes@.subrange(0, j as int + 1));
        }
        j = j + 1;
    }
    proof {
        assert(bytes@.subrange(0, bytes@.len() as int) =~= bytes@);
        assert(out@ =~= old(out)@ + (uint_bytes(bytes@.len(), width_len(sw), e) + bytes@));
    }
    Ok(())
}

/// Appends the encodings of the values of a list, in order.
#[verifier::loop_isolation(false)]
#[verifier::rlimit(60)]
fn encode_list_exec(
    vs: &Vec<Value>,
    e: Endianness,
    sw: LengthOption,
    aw: LengthOption,
    out: &mut Vec<u8>,
) -> (r: Result<()>)
    ensures
        (match spec_encode_list(vs@, e, sw, aw) {
            Some(s) => r is Ok && final(out)@ == old(out)@ + s,
            None => (r matches Err(er) && *er is SizeTypeLimit),
        }),
    decreases *vs, 0nat,
{
    let ghost pre = out@;
    proof {
        assert(vs@.skip(0) =~= vs@);
        assert(out@.subrange(pre.len() as int, out@.len() as int) =~= Seq::<u8>::empty());
        assert(out@.subrange(0, pre.len() as int) =~= pre);
        if spec_encode_list(vs@, e, sw, aw) is Some {
            let t0 = spec_encode_list(vs@, e, sw, aw)->Some_0;
            assert(Seq::<u8>::empty() + t0 =~= t0);
        }
    }
    let mut i: usize = 0;
    while i < vs.len()
        invariant
            i <= vs.len(),
            out@.len() >= pre.len(),
            out@.subrange(0, pre.len() as int) == pre,
            (match spec_encode_list(vs@.skip(i as int), e, sw, aw) {
                Some(t) => spec_encode_list(vs@, e, sw, aw) == Some(
                    out@.subrange(pre.len() as int, out@.len() as int) + t,
                ),
                None => spec_encode_list(vs@, e, sw, aw) is None,
            }),
        decreases vs.len() - i,
    {
        let ghost out_prev = out@;
        proof {
            assert(vs@.skip(i as int)[0] == vs@[i as int]);
            assert(vs@.skip(i as int).drop_first() =~= vs@.skip(i as int + 1));
        }
        encode_value(&vs[i], e, sw, aw, out)?;
        proof {
            let enc_i = spec_encode(vs@[i as int], e, sw, aw)->Some_0;
            let sub_prev = out_prev.subrange(pre.len() as int, out_prev.len() as int);
            assert(out@.subrange(0, pre.len() as int) =~= pre);
            assert(out@.subrange(pre.len() as int, out@.len() as int) =~= sub_prev + enc_i);
            if spec_encode_list(vs@.skip(i as int + 1), e, sw, aw) is Some {
                let t = spec_encode_list(vs@.skip(i as int + 1), e, sw, aw)->Some_0;
                assert((sub_prev + enc_i) + t =~= sub_prev + (enc_i + t));
            }
        }
        i = i + 1;
    }
    proof {
        assert(vs@.skip(vs@.len() as int) =~= Seq::<Value>::empty());
        let sub = out@.subrange(pre.len() as int, out@.len() as int);
        assert(sub + Seq::<u8>::empty() =~= sub);
        assert(out@ =~= pre + sub);
    }
    Ok(())
}

/// Runs the counting pass over a value against a counting limit: the
/// exact traversal of the encoder, metering each chunk it would produce.
#[verifier::loop_isolation(false)]
#[verifier::rlimit(60)]
pub fn count_value(
    v: &Value,
    e: Endianness,
    sw: LengthOption,
    aw: LengthOption,
    cs: &mut CountSize,
) -> (r: Result<()>)
    ensures
        (match spec_count(
            *v,
            e,
            sw,
            aw,
            (old(cs).total as int, old(cs).other_limit.budget()),
        ) {
            core::result::Result::Ok((t2, b2)) => r is Ok && final(cs).total == t2
                && final(cs).other_limit.budget() == b2,
            core::result::Result::Err(f) => (r matches Err(er) && count_fail_matches(*er, f)),
        }),
    decreases *v,
{
    match v {
        Value::Bool(_) => cs.add(1),
        Value::Char(_) => cs.add(4),
        Value::U8(_) => cs.add(1),
        Value::U16(_) => cs.add(2),
        Value::U32(_) => cs.add(4),
        Value::U64(_) => cs.add(8),
        Value::Str(bytes) => {
            if !check_width(bytes.len(), sw) {
                return Err(size_type_limit_error());
            }
            cs.add(width_bytes(sw) as u64)?;
            cs.add(bytes.len() as u64)
        },
        Value::Array(elems) => {
            if !check_width(elems.len(), aw) {
                return Err(size_type_limit_error());
            }
            cs.add(width_bytes(aw) as u64)?;
            let ghost st1 = (cs.total as int, cs.other_limit.budget());
            proof {
                assert(elems@.skip(0) =~= elems@);
            }
            let mut i: usize = 0;
            while i < elems.len()
                invariant
                    i <= elems.len(),
                    spec_count_list(elems@, e, sw, aw, st1) == spec_count_list(
                        elems@.skip(i as int),
                        e,
                        sw,
                        aw,
                        (cs.total as int, cs.other_limit.budget()),
                    ),
                decreases elems.len() - i,
            {
                proof {
                    assert(elems@.skip(i as int)[0] == elems@[i as int]);
                    assert(elems@.skip(i as int).drop_first() =~= elems@.skip(i as int + 1));
                }
                count_value(&elems[i], e, sw, aw, cs)?;
                i = i + 1;
            }
            proof {
                assert(elems@.skip(elems@.len() as int) =~= Seq::<Value>::empty());
            }
            Ok(())
        },
        Value::Tuple(fields) => {
            let ghost st0 = (cs.total as int, cs.other_limit.budget());
            proof {
                assert(fields@.skip(0) =~= fields@);
            }
            let mut i: usize = 0;
            while i < fields.len()
                invariant
                    i <= fields.len(),
                    spec_count_list(fields@, e, sw, aw, st0) == spec_count_list(
                        fields@.skip(i as int),
                        e,
                        sw,
                        aw,
                        (cs.total as int, cs.other_limit.budget()),
                    ),
                decreases fields.len() - i,
            {
                proof {
                    assert(fields@.skip(i as int)[0] == fields@[i as int]);
                    assert(fields@.skip(i as int).drop_first() =~= fields@.skip(i as int + 1));
                }
                count_value(&fields[i], e, sw, aw, cs)?;
                i = i + 1;
            }
            proof {
                assert(fields@.skip(fields@.len() as int) =~= Seq::<Value>::empty());
            }
            Ok(())
        },
        Value::Option(o) => match o {
            Option::None => cs.add(1),
            Option::Some(x) => {
                cs.add(1)?;
                count_value(&**x, e, sw, aw, cs)
            },
        },
        Value::Variant(_tag, payload) => {
            cs.add(4)?;
            count_value(&**payload, e, sw, aw, cs)
        },
    }
}

/// Relies on char::from_u32: a 32-bit value converts to a character
/// exactly when it is a Unicode scalar value, and converts to that
/// scalar.
#[verifier::external_body]
fn char_from_u32(x: u32) -> (r: Option<char>)
    ensures
        r is Some <==> is_scalar(x),
        (r matches Some(c) ==> c == x as char),
{
    char::from_u32(x)
}

/// Relies on core::str::from_utf8: it accepts a byte sequence exactly
/// when it is valid UTF-8, and reports the offending input otherwise.
#[verifier::external_body]
fn check_utf8(v: &Vec<u8>) -> (r: Result<()>)
    ensures
        r is Ok <==> valid_utf8(v@),
        (r matches Err(er) ==> *er is InvalidUtf8Encoding),
{
    match core::str::from_utf8(v.as_slice()) {
        Ok(_) => Ok(()),
        Err(er) => Err(Box::new(ErrorKind::InvalidUtf8Encoding(er))),
    }
}

/// Decodes one value of the given shape at a cursor, metering every read
/// against the live limit. On failure the cursor may stand anywhere
/// inside the input: a partly consumed source is not rewound.
#[verifier::loop_isolation(false)]
#[verifier::rlimit(100)]
#[verifier::spinoff_prover]
pub fn decode_value(
    bytes: &[u8],
    pos: &mut usize,
    shape: &Shape,
    e: Endianness,
    sw: LengthOption,
    aw: LengthOption,
    lim: &mut LimitOption,
) -> (r: Result<Value>)
    requires
        *old(pos) <= bytes@.len(),
    ensures
        (match spec_decode(bytes@, *old(pos) as int, *shape, e, sw, aw, old(lim).budget()) {
            core::result::Result::Ok((vv, p2, b2)) => (r matches Ok(val) && view_value(val)
                == vv) && *final(pos) == p2 && final(lim).budget() == b2,
            core::result::Result::Err(f) => (r matches Err(er) && fail_matches(*er, f)),
        }),
        *old(pos) <= *final(pos) <= bytes@.len(),
    decreases *shape, 0nat, 0nat,
{
    match shape {
        Shape::Bool => {
            let n = read_uint(bytes, pos, 1, e, lim)?;
            if n == 0 {
                Ok(Value::Bool(false))
            } else if n == 1 {
                Ok(Value::Bool(true))
            } else {
                Err(Box::new(ErrorKind::InvalidBoolEncoding(n as u8)))
            }
        },
        Shape::Char => {
            let n = read_uint(bytes, pos, 4, e, lim)?;
            match char_from_u32(n as u32) {
                Some(c) => Ok(Value::Char(c)),
                None => Err(Box::new(ErrorKind::InvalidCharEncoding)),
            }
        },
        Shape::U8 => {
            let n = read_uint(bytes, pos, 1, e, lim)?;
            Ok(Value::U8(n as u8))
        },
        Shape::U16 => {
            let n = read_uint(bytes, pos, 2, e, lim)?;
            Ok(Value::U16(n as u16))
        },
        Shape::U32 => {
            let n = read_uint(bytes, pos, 4, e, lim)?;
            Ok(Value::U32(n as u32))
        },
        Shape::U64 => {
            let n = read_uint(bytes, pos, 8, e, lim)?;
            Ok(Value::U64(n))
        },
        Shape::Str => decode_str_exec(bytes, pos, e, sw, aw, lim),
        Shape::Array(inner) => {
            let n = read_uint(bytes, pos, width_bytes(aw), e, lim)?;
            let elems = decode_rep_exec(bytes, pos, &**inner, n, e, sw, aw, lim)?;
            Ok(Value::Array(elems))
        },
        Shape::Tuple(fields) => {
            let vals = decode_fields_exec(bytes, pos, fields, e, sw, aw, lim)?;
            Ok(Value::Tuple(vals))
        },
        Shape::Option(inner) => {
            let n = read_uint(bytes, pos, 1, e, lim)?;
            if n == 0 {
                Ok(Value::Option(None))
            } else if n == 1 {
                let x = decode_value(bytes, pos, &**inner, e, sw, aw, lim)?;
                Ok(Value::Option(Some(Box::new(x))))
            } else {
                Err(Box::new(ErrorKind::InvalidTagEncoding((n as u32) as usize)))
            }
        },
        Shape::Enum(variants) => {
            let n = read_uint(bytes, pos, 4, e, lim)?;
            if n < variants.len() as u64 {
                let payload = decode_value(bytes, pos, &variants[n as usize], e, sw, aw, lim)?;
                Ok(Value::Variant(n as u32, Box::new(payload)))
            } else {
                Err(Box::new(ErrorKind::InvalidTagEncoding((n as u32) as usize)))
            }
        },
    }
}
/// Decodes `n` repetitions of one element shape at the cursor, in order.
#[verifier::loop_isolation(false)]
#[verifier::rlimit(60)]
fn decode_rep_exec(
    bytes: &[u8],
    pos: &mut usize,
    inner: &Shape,
    n: u64,
    e: Endianness,
    sw: LengthOption,
    aw: LengthOption,
    lim: &mut LimitOption,
) -> (r: Result<Vec<Value>>)
    requires
        *old(pos) <= bytes@.len(),
    ensures
        (match spec_decode_rep(
            bytes@,
            *old(pos) as int,
            *inner,
            n as nat,
            e,
            sw,
            aw,
            old(lim).budget(),
        ) {
            core::result::Result::Ok((vvs, p2, b2)) => (r matches Ok(vals) && view_list(vals@)
                == vvs) && *final(pos) == p2 && final(lim).budget() == b2,
            core::result::Result::Err(f) => (r matches Err(er) && fail_matches(*er, f)),
        }),
        *old(pos) <= *final(pos) <= bytes@.len(),
    decreases *inner, n, 1nat,
{
    let ghost p_start = *pos as int;
    let ghost b_start = lim.budget();
    let mut elems: Vec<Value> = Vec::new();
    proof {
        let r0 = spec_decode_rep(bytes@, p_start, *inner, n as nat, e, sw, aw, b_start);
        if r0 is Ok {
            let vs0 = r0->Ok_0.0;
            assert(Seq::<ValueV>::empty() + vs0 =~= vs0);
        }
    }
    let mut i: u64 = 0;
    while i < n
        invariant
            i <= n,
            *old(pos) <= *pos <= bytes@.len(),
            elems@.len() == i,
            spec_decode_rep(bytes@, p_start, *inner, n as nat, e, sw, aw, b_start) == rep_join(
                view_list(elems@),
                spec_decode_rep(
                    bytes@,
                    *pos as int,
                    *inner,
                    (n - i) as nat,
                    e,
                    sw,
                    aw,
                    lim.budget(),
                ),
            ),
        decreases n - i,
    {
        let ghost elems_prev = elems@;
        let ghost rem = (n - i) as nat;
        let val = decode_value(bytes, pos, inner, e, sw, aw, lim)?;
        elems.push(val);
        i = i + 1;
        proof {
            crate::value::lemma_view_list_push(elems_prev, val);
            assert((n - i) as nat == (rem - 1) as nat);
            let vv = view_value(val);
            let rest = spec_decode_rep(
                bytes@,
                *pos as int,
                *inner,
                (n - i) as nat,
                e,
                sw,
                aw,
                lim.budget(),
            );
            if rest is Ok {
                let vs = rest->Ok_0.0;
                assert(view_list(elems_prev) + (seq![vv] + vs) =~= (view_list(elems_prev)
                    + seq![vv]) + vs);
            }
        }
    }
    proof {
        assert(view_list(elems@) + Seq::<ValueV>::empty() =~= view_list(elems@));
    }
    Ok(elems)
}

/// Decodes a fixed grouping at the cursor, one field shape after the
/// other.
#[verifier::loop_isolation(false)]
#[verifier::rlimit(60)]
fn decode_fields_exec(
    bytes: &[u8],
    pos: &mut usize,
    fields: &Vec<Shape>,
    e: Endianness,
    sw: LengthOption,
    aw: LengthOption,
    lim: &mut LimitOption,
) -> (r: Result<Vec<Value>>)
    requires
        *old(pos) <= bytes@.len(),
    ensures
        (match spec_decode_fields(
            bytes@,
            *old(pos) as int,
            fields@,
            e,
            sw,
            aw,
            old(lim).budget(),
        ) {
            core::result::Result::Ok((vvs, p2, b2)) => (r matches Ok(vals) && view_list(vals@)
                == vvs) && *final(pos) == p2 && final(lim).budget() == b2,
            core::result::Result::Err(f) => (r matches Err(er) && fail_matches(*er, f)),
        }),
        *old(pos) <= *final(pos) <= bytes@.len(),
    decreases *fields, 0nat, 0nat,
{
    let ghost p_start = *pos as int;
    let ghost b_start = lim.budget();
    let mut vals: Vec<Value> = Vec::new();
    proof {
        assert(fields@.skip(0) =~= fields@);
        let r0 = spec_decode_fields(bytes@, p_start, fields@, e, sw, aw, b_start);
        if r0 is Ok {
            let vs0 = r0->Ok_0.0;
            assert(Seq::<ValueV>::empty() + vs0 =~= vs0);
        }
    }
    let mut i: usize = 0;
    while i < fields.len()
        invariant
            i <= fields.len(),
            *old(pos) <= *pos <= bytes@.len(),
            vals@.len() == i,
            spec_decode_fields(bytes@, p_start, fields@, e, sw, aw, b_start) == rep_join(
                view_list(vals@),
                spec_decode_fields(
                    bytes@,
                    *pos as int,
                    fields@.skip(i as int),
                    e,
                    sw,
                    aw,
                    lim.budget(),
                ),
            ),
        decreases fields.len() - i,
    {
        let ghost vals_prev = vals@;
        proof {
            assert(fields@.skip(i as int)[0] == fields@[i as int]);
            assert(fields@.skip(i as int).drop_first() =~= fields@.skip(i as int + 1));
        }
        let val = decode_value(bytes, pos, &fields[i], e, sw, aw, lim)?;
        vals.push(val);
        i = i + 1;
        proof {
            crate::value::lemma_view_list_push(vals_prev, val);
            let vv = view_value(val);
            let rest = spec_decode_fields(
                bytes@,
                *pos as int,
                fields@.skip(i as int),
                e,
                sw,
                aw,
                lim.budget(),
            );
            if rest is Ok {
                let vs = rest->Ok_0.0;
                assert(view_list(vals_prev) + (seq![vv] + vs) =~= (view_list(vals_prev)
                    + seq![vv]) + vs);
            }
        }
    }
    proof {
        assert(fields@.skip(fields@.len() as int) =~= Seq::<Shape>::empty());
        assert(view_list(vals@) + Seq::<ValueV>::empty() =~= view_list(vals@));
    }
    Ok(vals)
}

/// Decodes a text value at the cursor: its length prefix, then that many
/// bytes, which must be valid UTF-8.
#[verifier::loop_isolation(false)]
#[verifier::rlimit(60)]
fn decode_str_exec(
    bytes: &[u8],
    pos: &mut usize,
    e: Endianness,
    sw: LengthOption,
    aw: LengthOption,
    lim: &mut LimitOption,
) -> (r: Result<Value>)
    requires
        *old(pos) <= bytes@.len(),
    ensures
        (match spec_decode(bytes@, *old(pos) as int, Shape::Str, e, sw, aw, old(lim).budget()) {
            core::result::Result::Ok((vv, p2, b2)) => (r matches Ok(val) && view_value(val)
                == vv) && *final(pos) == p2 && final(lim).budget() == b2,
            core::result::Result::Err(f) => (r matches Err(er) && fail_matches(*er, f)),
        }),
        *old(pos) <= *final(pos) <= bytes@.len(),
{
    let n = read_uint(bytes, pos, width_bytes(sw), e, lim)?;
    lim.add(n)?;
    if ((bytes.len() - *pos) as u64) < n {
        return Err(eof_error());
    }
    let m = n as usize;
    let start = *pos;
    let mut content: Vec<u8> = Vec::new();
    let mut j: usize = 0;
    while j < m
        invariant
            j <= m,
            start + m <= bytes@.len(),
            content@ == bytes@.subrange(start as int, start as int + j as int),
        decreases m - j,
    {
        let byte = bytes[start + j];
        content.push(byte);
        proof {
            assert(content@ =~= bytes@.subrange(start as int, start as int + j as int + 1));
        }
        j = j + 1;
    }
    *pos = start + m;
    check_utf8(&content)?;
    Ok(Value::Str(content))
}

} // verus!
