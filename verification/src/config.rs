use vstd::prelude::*;

verus! {

/// The byte-budget choice held by a configuration: either no bound, or a
/// bound of so many remaining bytes.
#[derive(Clone, Copy, Debug)]
pub enum LimitOption {
    /// No byte budget: metering always succeeds.
    Unlimited,
    /// A budget of this many remaining bytes.
    Limited(u64),
}

/// The byte-order choice held by a configuration.
#[derive(Clone, Copy, Debug, PartialEq, Eq, Structural)]
pub enum EndianOption {
    /// Most significant byte first.
    Big,
    /// Least significant byte first.
    Little,
    /// Whatever byte order the running machine uses.
    Native,
}

/// A resolved byte order: after resolution, the native choice has been
/// replaced by the order the running machine actually uses.
#[derive(Clone, Copy, Debug, PartialEq, Eq, Structural)]
pub enum Endianness {
    /// Least significant byte first.
    Little,
    /// Most significant byte first.
    Big,
}

/// The unit used for the length prefix of strings and of arrays.
#[derive(Clone, Copy, Debug, PartialEq, Eq, Structural)]
pub enum LengthOption {
    /// 64 unsigned bits.
    U64,
    /// 32 unsigned bits.
    U32,
    /// 16 unsigned bits.
    U16,
    /// 8 unsigned bits.
    U8,
}

/// A configuration whose options the encode and decode calls will use: a
/// byte budget, a byte order, and the length-prefix widths for strings and
/// for arrays. It is built by a caller through the setters and read, never
/// mutated, at each encode or decode call.
#[derive(Clone, Debug)]
pub struct Config {
    pub limit: LimitOption,
    pub endian: EndianOption,
    pub string_size: LengthOption,
    pub array_size: LengthOption,
}

/// The fully resolved, immutable bundle of axis choices used for one
/// encode or decode call. Only the live limit mutates while bytes flow;
/// the other three axes stay fixed for the lifetime of the call.
#[derive(Clone, Copy, Debug)]
pub struct Specialization {
    pub limit: LimitOption,
    pub endian: Endianness,
    pub string_size: LengthOption,
    pub array_size: LengthOption,
}

/// Relies on u16::to_ne_bytes: reports the byte order of the running
/// machine, which is one of the two concrete orders.
#[verifier::external_body]
pub fn machine_byte_order() -> (r: Endianness)
    ensures
        r == Endianness::Little || r == Endianness::Big,
{
    if 1u16.to_ne_bytes()[0] == 1u8 {
        Endianness::Little
    } else {
        Endianness::Big
    }
}

/// One composition step: the override of a single axis of a
/// specialization. Steps on distinct axes commute, because each one only
/// ever writes the axis it owns and forwards the rest unchanged.
pub enum Step {
    /// Override the byte-budget axis.
    Limit(LimitOption),
    /// Override the byte-order axis.
    Endian(Endianness),
    /// Override the string length-prefix axis.
    StringSize(LengthOption),
    /// Override the array length-prefix axis.
    ArraySize(LengthOption),
}

impl Step {
    /// The axis a step owns, as a small index used only to tell axes apart.
    pub open spec fn axis(self) -> int {
        match self {
            Step::Limit(_) => 0,
            Step::Endian(_) => 1,
            Step::StringSize(_) => 2,
            Step::ArraySize(_) => 3,
        }
    }

    /// Applies the step to a specialization: the owned axis is replaced,
    /// every other axis is forwarded unchanged.
    pub open spec fn apply(self, s: Specialization) -> Specialization {
        match self {
            Step::Limit(l) => Specialization { limit: l, ..s },
            Step::Endian(e) => Specialization { endian: e, ..s },
            Step::StringSize(w) => Specialization { string_size: w, ..s },
            Step::ArraySize(w) => Specialization { array_size: w, ..s },
        }
    }
}

/// Two composition steps on distinct axes commute: applying them in either
/// order yields the same specialization, so a chain of overrides may be
/// built in any order.
pub proof fn lemma_steps_commute(s: Specialization, a: Step, b: Step)
    requires
        a.axis() != b.axis(),
    ensures
        b.apply(a.apply(s)) == a.apply(b.apply(s)),
{
}

impl Specialization {
    /// The default specialization: no byte budget, little-endian numbers,
    /// and 64-bit length prefixes for strings and arrays.
    pub open spec fn spec_default() -> Specialization {
        Specialization {
            limit: LimitOption::Unlimited,
            endian: Endianness::Little,
            string_size: LengthOption::U64,
            array_size: LengthOption::U64,
        }
    }

    /// Builds the default specialization.
    pub fn new_default() -> (r: Specialization)
        ensures
            r == Specialization::spec_default(),
    {
        Specialization {
            limit: LimitOption::Unlimited,
            endian: Endianness::Little,
            string_size: LengthOption::U64,
            array_size: LengthOption::U64,
        }
    }

    /// Removes the byte budget; every other axis is forwarded unchanged.
    pub fn with_no_limit(self) -> (r: Specialization)
        ensures
            r == Step::Limit(LimitOption::Unlimited).apply(self),
    {
        Specialization { limit: LimitOption::Unlimited, ..self }
    }

    /// Sets the byte budget to `limit` remaining bytes; every other axis is
    /// forwarded unchanged.
    pub fn with_limit(self, limit: u64) -> (r: Specialization)
        ensures
            r == Step::Limit(LimitOption::Limited(limit)).apply(self),
    {
        Specialization { limit: LimitOption::Limited(limit), ..self }
    }

    /// Sets the byte order to little-endian; every other axis is forwarded
    /// unchanged.
    pub fn with_little_endian(self) -> (r: Specialization)
        ensures
            r == Step::Endian(Endianness::Little).apply(self),
    {
        Specialization { endian: Endianness::Little, ..self }
    }

    /// Sets the byte order to big-endian; every other axis is forwarded
    /// unchanged.
    pub fn with_big_endian(self) -> (r: Specialization)
        ensures
            r == Step::Endian(Endianness::Big).apply(self),
    {
        Specialization { endian: Endianness::Big, ..self }
    }

    /// Sets the byte order to the order of the running machine; every
    /// other axis is forwarded unchanged.
    pub fn with_native_endian(self) -> (r: Specialization)
        ensures
            r == Step::Endian(Endianness::Little).apply(self) || r == Step::Endian(
                Endianness::Big,
            ).apply(self),
    {
        let e = machine_byte_order();
        Specialization { endian: e, ..self }
    }

    /// Sets the length-prefix width used for strings; every other axis is
    /// forwarded unchanged.
    pub fn with_string_size(self, w: LengthOption) -> (r: Specialization)
        ensures
            r == Step::StringSize(w).apply(self),
    {
        Specialization { string_size: w, ..self }
    }

    /// Sets the length-prefix width used for arrays; every other axis is
    /// forwarded unchanged.
    pub fn with_array_size(self, w: LengthOption) -> (r: Specialization)
        ensures
            r == Step::ArraySize(w).apply(self),
    {
        Specialization { array_size: w, ..self }
    }
}

/// The specialization a configuration resolves to, given the byte order
/// that stands in for the native choice. Expansion order is fixed: limit,
/// then byte order, then string width, then array width, each step
/// overriding one axis of the default specialization.
pub open spec fn spec_resolve(c: Config, native: Endianness) -> Specialization {
    let s0 = Specialization::spec_default();
    let s1 = Step::Limit(c.limit).apply(s0);
    let s2 = Step::Endian(
        match c.endian {
            EndianOption::Big => Endianness::Big,
            EndianOption::Little => Endianness::Little,
            EndianOption::Native => native,
        },
    ).apply(s1);
    let s3 = Step::StringSize(c.string_size).apply(s2);
    Step::ArraySize(c.array_size).apply(s3)
}

impl Config {
    /// The default configuration: no byte budget, little-endian numbers,
    /// and 64-bit length prefixes for strings and arrays.
    pub open spec fn spec_new() -> Config {
        Config {
            limit: LimitOption::Unlimited,
            endian: EndianOption::Little,
            string_size: LengthOption::U64,
            array_size: LengthOption::U64,
        }
    }

    /// Builds the default configuration.
    pub fn new() -> (r: Config)
        ensures
            r == Config::spec_new(),
    {
        Config {
            limit: LimitOption::Unlimited,
            endian: EndianOption::Little,
            string_size: LengthOption::U64,
            array_size: LengthOption::U64,
        }
    }

    /// Sets the byte budget to be unlimited. This is the default.
    pub fn no_limit(&mut self) -> (r: &mut Config)
        ensures
            *final(self) == *final(r),
            *r == (Config { limit: LimitOption::Unlimited, ..*old(self) }),
    {
        self.limit = LimitOption::Unlimited;
        self
    }

    /// Sets the byte budget to `limit` bytes.
    pub fn limit(&mut self, limit: u64) -> (r: &mut Config)
        ensures
            *final(self) == *final(r),
            *r == (Config { limit: LimitOption::Limited(limit), ..*old(self) }),
    {
        self.limit = LimitOption::Limited(limit);
        self
    }

    /// Sets the byte order to little-endian. This is the default.
    pub fn little_endian(&mut self) -> (r: &mut Config)
        ensures
            *final(self) == *final(r),
            *r == (Config { endian: EndianOption::Little, ..*old(self) }),
    {
        self.endian = EndianOption::Little;
        self
    }

    /// Sets the byte order to big-endian.
    pub fn big_endian(&mut self) -> (r: &mut Config)
        ensures
            *final(self) == *final(r),
            *r == (Config { endian: EndianOption::Big, ..*old(self) }),
    {
        self.endian = EndianOption::Big;
        self
    }

    /// Sets the byte order to the byte order of the running machine.
    pub fn native_endian(&mut self) -> (r: &mut Config)
        ensures
            *final(self) == *final(r),
            *r == (Config { endian: EndianOption::Native, ..*old(self) }),
    {
        self.endian = EndianOption::Native;
        self
    }

    /// Sets the width used for length prefixes of strings.
    pub fn string_length(&mut self, size: LengthOption) -> (r: &mut Config)
        ensures
            *final(self) == *final(r),
            *r == (Config { string_size: size, ..*old(self) }),
    {
        self.string_size = size;
        self
    }

    /// Sets the width used for length prefixes of arrays.
    pub fn array_length(&mut self, size: LengthOption) -> (r: &mut Config)
        ensures
            *final(self) == *final(r),
            *r == (Config { array_size: size, ..*old(self) }),
    {
        self.array_size = size;
        self
    }

    /// Expands the four option fields into one concrete specialization, in
    /// the fixed order: limit, byte order, string width, array width. When
    /// the byte order is the native choice, the order of the running
    /// machine is used.
    pub fn resolve(&self) -> (r: Specialization)
        ensures
            self.endian != EndianOption::Native ==> r == spec_resolve(
                *self,
                Endianness::Little,
            ),
            r == spec_resolve(*self, Endianness::Little) || r == spec_resolve(
                *self,
                Endianness::Big,
            ),
    {
        let s0 = Specialization::new_default();
        let s1 = match self.limit {
            LimitOption::Unlimited => s0.with_no_limit(),
            LimitOption::Limited(l) => s0.with_limit(l),
        };
        let s2 = match self.endian {
            EndianOption::Little => s1.with_little_endian(),
            EndianOption::Big => s1.with_big_endian(),
            EndianOption::Native => s1.with_native_endian(),
        };
        let s3 = s2.with_string_size(self.string_size);
        s3.with_array_size(self.array_size)
    }
}

/// Resolver determinism: a configuration that does not ask for the native
/// byte order resolves to one specialization, a pure function of its four
/// fields, so resolving it twice yields the same specialization and hence
/// byte-identical output for the same input value.
pub proof fn lemma_resolve_deterministic(c: Config, m1: Endianness, m2: Endianness)
    requires
        c.endian != EndianOption::Native,
    ensures
        spec_resolve(c, m1) == spec_resolve(c, m2),
{
}

} // verus!
