use vstd::prelude::*;

verus! {

#[verifier::external_type_specification]
#[verifier::external_body]
pub struct ExIoError(std::io::Error);

#[verifier::external_type_specification]
#[verifier::external_body]
pub struct ExUtf8Error(core::str::Utf8Error);

/// The kind of failure that encoding, decoding, size counting or budget
/// metering can report.
#[derive(Debug)]
pub enum ErrorKind {
    /// The underlying byte source or sink reported a failure; the cause is
    /// carried along.
    Io(std::io::Error),
    /// Decoded bytes for a text value are not valid UTF-8.
    InvalidUtf8Encoding(core::str::Utf8Error),
    /// A decoded boolean byte was neither 0 nor 1; the offending byte is
    /// carried along.
    InvalidBoolEncoding(u8),
    /// A decoded scalar value is not a valid character codepoint.
    InvalidCharEncoding,
    /// A decoded variant tag lies outside the declared variant count; the
    /// offending tag is carried along.
    InvalidTagEncoding(usize),
    /// The traversal interface requested self-describing decoding, which
    /// this format cannot provide.
    DeserializeAnyNotSupported,
    /// A metered chunk would exceed the configured byte budget.
    SizeLimit,
    /// A length does not fit the configured length-prefix width.
    SizeTypeLimit,
    /// A sequence whose element count is not known ahead of time cannot be
    /// encoded.
    SequenceMustHaveLength,
    /// Any other failure surfaced by a traversal collaborator, as free text.
    Custom(String),
}

/// An error produced while encoding or decoding, boxed so that the success
/// path of a `Result` stays small.
pub type Error = Box<ErrorKind>;

/// The result of an encoding or decoding operation.
pub type Result<T> = core::result::Result<T, Error>;

impl ErrorKind {
    /// A short human-readable description of the failure kind.
    pub fn message(&self) -> (r: &'static str)
        ensures
            self is Io ==> r@ == "io error"@,
            self is InvalidUtf8Encoding ==> r@ == "string is not valid utf8"@,
            self is InvalidBoolEncoding ==> r@ == "invalid u8 while decoding bool"@,
            self is InvalidCharEncoding ==> r@ == "char is not valid"@,
            self is InvalidTagEncoding ==> r@ == "tag for enum is not valid"@,
            self is DeserializeAnyNotSupported ==> r@
                == "the deserialize_any method is not supported"@,
            self is SizeLimit ==> r@ == "the size limit has been reached"@,
            self is SizeTypeLimit ==> r@
                == "the size is larger than can be represented with this config"@,
            self is SequenceMustHaveLength ==> r@
                == "sequences and maps must have a knowable size ahead of time"@,
            self is Custom ==> r@ == "custom error"@,
    {
        match self {
            ErrorKind::Io(_) => "io error",
            ErrorKind::InvalidUtf8Encoding(_) => "string is not valid utf8",
            ErrorKind::InvalidBoolEncoding(_) => "invalid u8 while decoding bool",
            ErrorKind::InvalidCharEncoding => "char is not valid",
            ErrorKind::InvalidTagEncoding(_) => "tag for enum is not valid",
            ErrorKind::DeserializeAnyNotSupported => "the deserialize_any method is not supported",
            ErrorKind::SizeLimit => "the size limit has been reached",
            ErrorKind::SizeTypeLimit => "the size is larger than can be represented with this config",
            ErrorKind::SequenceMustHaveLength => "sequences and maps must have a knowable size ahead of time",
            ErrorKind::Custom(_) => "custom error",
        }
    }
}

/// Builds the boxed error for an exhausted byte budget.
pub fn size_limit_error() -> (r: Error)
    ensures
        *r is SizeLimit,
{
    Box::new(ErrorKind::SizeLimit)
}

/// Builds the boxed error for a length that does not fit the configured
/// length-prefix width.
pub fn size_type_limit_error() -> (r: Error)
    ensures
        *r is SizeTypeLimit,
{
    Box::new(ErrorKind::SizeTypeLimit)
}

/// Relies on std::io::Error::from: builds the end-of-input failure that a
/// byte source reports when input runs out before a value is complete.
#[verifier::external_body]
pub fn eof_error() -> (r: Error)
    ensures
        *r is Io,
{
    Box::new(ErrorKind::Io(std::io::Error::from(std::io::ErrorKind::UnexpectedEof)))
}

} // verus!
