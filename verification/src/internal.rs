use vstd::prelude::*;

use crate::codec::{
    count_fail_matches, count_value, decode_value, encode_value, fail_matches, spec_count,
    spec_decode, spec_encode,
};
use crate::config::{Config, EndianOption, Endianness, LimitOption, Specialization, spec_resolve};
use crate::error::{size_limit_error, size_type_limit_error, Result};
use crate::value::{view_value, Shape, Value};

verus! {

/// A size limit that restricts how many bytes a single encode or decode
/// call may produce or consume. The field is the remaining budget.
pub struct Bounded(pub u64);

/// A size limit without a bound: metering always succeeds and no budget is
/// reported.
pub struct Infinite;

impl Bounded {
    /// Meters a chunk of `n` bytes against the remaining budget. The chunk
    /// is charged atomically: either the whole chunk fits and the budget
    /// decreases by `n`, or nothing is charged, the call fails, and the
    /// budget is exhausted so that every later non-empty chunk fails too.
    pub fn add(&mut self, n: u64) -> (r: Result<()>)
        ensures
            n <= old(self).0 ==> r is Ok && final(self).0 == old(self).0 - n,
            n > old(self).0 ==> (r matches Err(e) && *e is SizeLimit) && final(self).0 == 0,
    {
        if self.0 >= n {
            self.0 = self.0 - n;
            Ok(())
        } else {
            self.0 = 0;
            Err(size_limit_error())
        }
    }

    /// Reports the remaining budget.
    pub fn limit(&self) -> (r: Option<u64>)
        ensures
            r == Some(self.0),
    {
        Some(self.0)
    }
}

impl Infinite {
    /// Metering without a bound always succeeds, for every chunk size.
    pub fn add(&mut self, _n: u64) -> (r: Result<()>)
        ensures
            r is Ok,
    {
        Ok(())
    }

    /// An unbounded limit reports no budget.
    pub fn limit(&self) -> (r: Option<u64>)
        ensures
            r is None,
    {
        None
    }
}

/// The outcome of one metering step on a remaining budget: the new budget
/// and whether the chunk was accepted.
pub open spec fn spec_meter(budget: Option<int>, n: int) -> (Option<int>, bool) {
    match budget {
        Option::None => (Option::None, true),
        Option::Some(b) => if n <= b {
            (Option::Some(b - n), true)
        } else {
            (Option::Some(0int), false)
        },
    }
}

impl LimitOption {
    /// The remaining byte budget, if one is set.
    pub open spec fn budget(self) -> Option<int> {
        match self {
            LimitOption::Unlimited => Option::None,
            LimitOption::Limited(n) => Option::Some(n as int),
        }
    }

    /// Meters a chunk of `n` bytes against this live limit, delegating to
    /// the strategy the limit selects.
    pub fn add(&mut self, n: u64) -> (r: Result<()>)
        ensures
            r is Ok == spec_meter(old(self).budget(), n as int).1,
            final(self).budget() == spec_meter(old(self).budget(), n as int).0,
            r matches Err(e) ==> *e is SizeLimit,
    {
        let cur = *self;
        match cur {
            LimitOption::Unlimited => {
                let mut inf = Infinite;
                inf.add(n)
            },
            LimitOption::Limited(b0) => {
                let mut bd = Bounded(b0);
                let r = bd.add(n);
                *self = LimitOption::Limited(bd.0);
                r
            },
        }
    }

    /// Reports the remaining budget, if one is set.
    pub fn limit(&self) -> (r: Option<u64>)
        ensures
            r is Some <==> self.budget() is Some,
            r matches Some(b) ==> self.budget() == Some(b as int),
    {
        match self {
            LimitOption::Unlimited => None,
            LimitOption::Limited(b) => Some(*b),
        }
    }
}

/// A counting limit: forwards every chunk to the wrapped live limit, so an
/// outer bound is still enforced, and additionally accumulates the total
/// number of bytes metered. The running total is itself held in 64 bits; a
/// chunk that would carry it past that range fails like an exhausted budget.
pub struct CountSize {
    pub total: u64,
    pub other_limit: LimitOption,
}

/// The outcome of one counting step: the new total and budget, and whether
/// the chunk was accepted.
pub open spec fn spec_count_step(total: int, budget: Option<int>, n: int) -> (
    int,
    Option<int>,
    bool,
) {
    let (b2, ok) = spec_meter(budget, n);
    if !ok {
        (total, b2, false)
    } else if total + n > u64::MAX {
        (total, b2, false)
    } else {
        (total + n, b2, true)
    }
}

impl CountSize {
    /// Meters a chunk against the wrapped limit and accumulates it into the
    /// running total.
    pub fn add(&mut self, n: u64) -> (r: Result<()>)
        ensures
            ({
                let (t2, b2, ok) = spec_count_step(
                    old(self).total as int,
                    old(self).other_limit.budget(),
                    n as int,
                );
                &&& r is Ok == ok
                &&& final(self).total == t2
                &&& final(self).other_limit.budget() == b2
                &&& (r matches Err(e) ==> *e is SizeLimit)
            }),
    {
        self.other_limit.add(n)?;
        match self.total.checked_add(n) {
            Some(t) => {
                self.total = t;
                Ok(())
            },
            None => Err(size_limit_error()),
        }
    }
}

/// An 8 byte length prefix.
pub struct U64;

/// A 4 byte length prefix.
pub struct U32;

/// A 2 byte length prefix.
pub struct U16;

/// A 1 byte length prefix.
pub struct U8;

impl U64 {
    /// Converts a runtime length to its 64-bit wire value. Every `usize`
    /// length fits.
    pub fn encode_len(len: usize) -> (r: Result<u64>)
        ensures
            (r matches Ok(v) && v == len),
    {
        Ok(len as u64)
    }

    /// Widens a decoded 64-bit wire value back to a length, losslessly.
    pub fn decode_len(v: u64) -> (r: u64)
        ensures
            r == v,
    {
        v
    }
}

impl U32 {
    /// Converts a runtime length to its 32-bit wire value, or fails when
    /// the length does not fit in 32 bits.
    pub fn encode_len(len: usize) -> (r: Result<u32>)
        ensures
            len <= u32::MAX ==> (r matches Ok(v) && v == len),
            len > u32::MAX ==> (r matches Err(e) && *e is SizeTypeLimit),
    {
        if len <= u32::MAX as usize {
            Ok(len as u32)
        } else {
            Err(size_type_limit_error())
        }
    }

    /// Widens a decoded 32-bit wire value back to a length, losslessly.
    pub fn decode_len(v: u32) -> (r: u64)
        ensures
            r == v,
    {
        v as u64
    }
}

impl U16 {
    /// Converts a runtime length to its 16-bit wire value, or fails when
    /// the length does not fit in 16 bits.
    pub fn encode_len(len: usize) -> (r: Result<u16>)
        ensures
            len <= u16::MAX ==> (r matches Ok(v) && v == len),
            len > u16::MAX ==> (r matches Err(e) && *e is SizeTypeLimit),
    {
        if len <= u16::MAX as usize {
            Ok(len as u16)
        } else {
            Err(size_type_limit_error())
        }
    }

    /// Widens a decoded 16-bit wire value back to a length, losslessly.
    pub fn decode_len(v: u16) -> (r: u64)
        ensures
            r == v,
    {
        v as u64
    }
}

impl U8 {
    /// Converts a runtime length to its 8-bit wire value, or fails when
    /// the length does not fit in 8 bits.
    pub fn encode_len(len: usize) -> (r: Result<u8>)
        ensures
            len <= u8::MAX ==> (r matches Ok(v) && v == len),
            len > u8::MAX ==> (r matches Err(e) && *e is SizeTypeLimit),
    {
        if len <= u8::MAX as usize {
            Ok(len as u8)
        } else {
            Err(size_type_limit_error())
        }
    }

    /// Widens a decoded 8-bit wire value back to a length, losslessly.
    pub fn decode_len(v: u8) -> (r: u64)
        ensures
            r == v,
    {
        v as u64
    }
}

/// The sum of a sequence of metering requests.
pub open spec fn spec_sum(reqs: Seq<u64>) -> int
    decreases reqs.len(),
{
    if reqs.len() == 0 {
        0
    } else {
        reqs[0] + spec_sum(reqs.drop_first())
    }
}

/// The budget left, and whether every chunk was accepted, after metering
/// a sequence of requests in order.
pub open spec fn meter_run(bud: Option<int>, reqs: Seq<u64>) -> (Option<int>, bool)
    decreases reqs.len(),
{
    if reqs.len() == 0 {
        (bud, true)
    } else {
        let m = spec_meter(bud, reqs[0] as int);
        let rest = meter_run(m.0, reqs.drop_first());
        (rest.0, m.1 && rest.1)
    }
}

/// A sum of metering requests is never negative.
pub proof fn lemma_sum_nonneg(reqs: Seq<u64>)
    ensures
        spec_sum(reqs) >= 0,
    decreases reqs.len(),
{
    if reqs.len() > 0 {
        lemma_sum_nonneg(reqs.drop_first());
    }
}

/// Metering a sequence of requests against a bounded budget accepts all
/// of them exactly when their sum fits the budget, and then leaves
/// exactly the difference; once the running total has crossed the bound,
/// the budget stands exhausted at zero.
pub proof fn lemma_meter_run(b: int, reqs: Seq<u64>)
    requires
        0 <= b,
    ensures
        meter_run(Some(b), reqs).1 == (spec_sum(reqs) <= b),
        meter_run(Some(b), reqs).0 == Some(
            if spec_sum(reqs) <= b {
                b - spec_sum(reqs)
            } else {
                0int
            },
        ),
    decreases reqs.len(),
{
    lemma_sum_nonneg(reqs);
    if reqs.len() > 0 {
        lemma_sum_nonneg(reqs.drop_first());
        let n = reqs[0] as int;
        if n <= b {
            lemma_meter_run(b - n, reqs.drop_first());
        } else {
            lemma_meter_run(0, reqs.drop_first());
        }
    }
}

/// Whether the request at one index of a sequence is accepted when the
/// whole sequence is metered, in order, against a bounded budget of `k`
/// bytes.
pub open spec fn step_accepted(k: u64, reqs: Seq<u64>, j: int) -> bool {
    spec_meter(meter_run(Some(k as int), reqs.take(j)).0, reqs[j] as int).1
}

/// The sum over one more leading request.
proof fn lemma_sum_take_succ(reqs: Seq<u64>, j: int)
    requires
        0 <= j < reqs.len(),
    ensures
        spec_sum(reqs.take(j + 1)) == spec_sum(reqs.take(j)) + reqs[j],
    decreases j,
{
    if j == 0 {
        assert(reqs.take(0) =~= Seq::<u64>::empty());
        assert(reqs.take(1).drop_first() =~= Seq::<u64>::empty());
        assert(reqs.take(1)[0] == reqs[0]);
    } else {
        assert(reqs.take(j + 1).drop_first() =~= reqs.drop_first().take(j));
        assert(reqs.take(j).drop_first() =~= reqs.drop_first().take(j - 1));
        assert(reqs.take(j + 1)[0] == reqs[0]);
        assert(reqs.take(j)[0] == reqs[0]);
        lemma_sum_take_succ(reqs.drop_first(), j - 1);
    }
}

/// A sequence of metered chunks against a bounded budget of `k` bytes
/// succeeds call by call while its running total stays within `k`,
/// leaving exactly the difference; it fails exactly at the first call
/// whose chunk would carry the total past `k`; and after that crossing
/// every later call that asks for at least one byte fails too, the
/// budget standing exhausted at zero.
pub proof fn lemma_bounded_failure_point(k: u64, reqs: Seq<u64>, j: int)
    requires
        0 <= j < reqs.len(),
    ensures
        spec_sum(reqs.take(j + 1)) <= k ==> step_accepted(k, reqs, j) && meter_run(
            Some(k as int),
            reqs.take(j + 1),
        ).0 == Some(k - spec_sum(reqs.take(j + 1))),
        spec_sum(reqs.take(j)) <= k && spec_sum(reqs.take(j + 1)) > k ==> !step_accepted(
            k,
            reqs,
            j,
        ),
        spec_sum(reqs.take(j)) > k && reqs[j] >= 1 ==> !step_accepted(k, reqs, j),
{
    lemma_meter_run(k as int, reqs.take(j));
    lemma_meter_run(k as int, reqs.take(j + 1));
    lemma_sum_take_succ(reqs, j);
    lemma_sum_nonneg(reqs.take(j));
}

/// What serializing a value under one resolved specialization returns:
/// the exact outcome of the counting pass decides, and on success the
/// bytes are exactly the value's encoding, as long as the precomputed
/// total.
pub open spec fn serialize_outcome(o: Specialization, v: Value, r: Result<Vec<u8>>) -> bool {
    match spec_count(v, o.endian, o.string_size, o.array_size, (0, o.limit.budget())) {
        core::result::Result::Ok((total, _)) => r matches Ok(out) && spec_encode(
            v,
            o.endian,
            o.string_size,
            o.array_size,
        ) == Some(out@) && out@.len() == total,
        core::result::Result::Err(f) => r matches Err(er) && count_fail_matches(*er, f),
    }
}

/// What the exact-size precomputation under one resolved specialization
/// returns.
pub open spec fn size_outcome(o: Specialization, v: Value, r: Result<u64>) -> bool {
    match spec_count(v, o.endian, o.string_size, o.array_size, (0, o.limit.budget())) {
        core::result::Result::Ok((total, _)) => r matches Ok(n) && n == total,
        core::result::Result::Err(f) => r matches Err(er) && count_fail_matches(*er, f),
    }
}

/// What deserializing from a byte slice under one resolved
/// specialization returns: every consumed byte is metered against the
/// configured budget; trailing bytes are ignored.
pub open spec fn deserialize_outcome(
    o: Specialization,
    shape: Shape,
    bytes: Seq<u8>,
    r: Result<Value>,
) -> bool {
    match spec_decode(
        bytes,
        0,
        shape,
        o.endian,
        o.string_size,
        o.array_size,
        o.limit.budget(),
    ) {
        core::result::Result::Ok((vv, _, _)) => r matches Ok(val) && view_value(val) == vv,
        core::result::Result::Err(f) => r matches Err(er) && fail_matches(*er, f),
    }
}

/// Returns the exact number of bytes a value would serialize to under a
/// resolved specialization, metering the configured budget on the way,
/// without producing any output.
pub fn serialized_size(t: &Value, options: Specialization) -> (r: Result<u64>)
    ensures
        size_outcome(options, *t, r),
{
    let mut size_counter = CountSize { total: 0, other_limit: options.limit };
    count_value(t, options.endian, options.string_size, options.array_size, &mut size_counter)?;
    Ok(size_counter.total)
}

/// Serializes a value into a fresh byte vector under a resolved
/// specialization: the exact-size counting pass runs first, charging the
/// configured budget, and only when it succeeds is any output produced,
/// so a failed call yields no bytes at all.
pub fn serialize(t: &Value, options: Specialization) -> (r: Result<Vec<u8>>)
    ensures
        serialize_outcome(options, *t, r),
{
    let actual_size = serialized_size(t, options)?;
    proof {
        crate::laws::lemma_count_encode_agree(
            *t,
            options.endian,
            options.string_size,
            options.array_size,
            0,
            options.limit.budget(),
        );
    }
    let mut writer: Vec<u8> = Vec::with_capacity(actual_size as usize);
    match encode_value(t, options.endian, options.string_size, options.array_size, &mut writer) {
        Ok(_) => Ok(writer),
        Err(er) => Err(er),
    }
}

/// Deserializes one value of the given shape from the front of a byte
/// slice under a resolved specialization, metering every consumed byte
/// against the configured budget.
pub fn deserialize(bytes: &[u8], shape: &Shape, options: Specialization) -> (r: Result<Value>)
    ensures
        deserialize_outcome(options, *shape, bytes@, r),
{
    let mut pos: usize = 0;
    let mut limit = options.limit;
    decode_value(
        bytes,
        &mut pos,
        shape,
        options.endian,
        options.string_size,
        options.array_size,
        &mut limit,
    )
}

impl Config {
    /// Serializes a value into a vector of bytes using this
    /// configuration.
    pub fn serialize(&self, t: &Value) -> (r: Result<Vec<u8>>)
        ensures
            self.endian != EndianOption::Native ==> serialize_outcome(
                spec_resolve(*self, Endianness::Little),
                *t,
                r,
            ),
            serialize_outcome(spec_resolve(*self, Endianness::Little), *t, r)
                || serialize_outcome(spec_resolve(*self, Endianness::Big), *t, r),
    {
        let opts = self.resolve();
        serialize(t, opts)
    }

    /// Returns the size that a value would take if serialized using this
    /// configuration.
    pub fn serialized_size(&self, t: &Value) -> (r: Result<u64>)
        ensures
            self.endian != EndianOption::Native ==> size_outcome(
                spec_resolve(*self, Endianness::Little),
                *t,
                r,
            ),
            size_outcome(spec_resolve(*self, Endianness::Little), *t, r) || size_outcome(
                spec_resolve(*self, Endianness::Big),
                *t,
                r,
            ),
    {
        let opts = self.resolve();
        serialized_size(t, opts)
    }

    /// Deserializes a slice of bytes into a value of the given shape
    /// using this configuration.
    pub fn deserialize(&self, bytes: &[u8], shape: &Shape) -> (r: Result<Value>)
        ensures
            self.endian != EndianOption::Native ==> deserialize_outcome(
                spec_resolve(*self, Endianness::Little),
                *shape,
                bytes@,
                r,
            ),
            deserialize_outcome(spec_resolve(*self, Endianness::Little), *shape, bytes@, r)
                || deserialize_outcome(spec_resolve(*self, Endianness::Big), *shape, bytes@, r),
    {
        let opts = self.resolve();
        deserialize(bytes, shape, opts)
    }
}

} // verus!
