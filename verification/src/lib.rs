//! Configuration resolution and byte-budget enforcement for a binary
//! object-encoding format: fixed-width length prefixes with overflow
//! detection, bounded or unbounded byte metering, an options composition
//! chain resolved from a runtime configuration, exact-size precomputation
//! before a one-shot encode, and a closed error taxonomy.

pub mod codec;
pub mod config;
pub mod error;
pub mod internal;
pub mod laws;
pub mod value;

pub use codec::{count_value, decode_value, encode_value};
pub use config::{Config, EndianOption, Endianness, LengthOption, LimitOption, Specialization};
pub use error::{Error, ErrorKind};
pub use internal::{deserialize, serialize, serialized_size};
pub use internal::{Bounded, CountSize, Infinite, U16, U32, U64, U8};
pub use value::{Shape, Value, ValueV};
