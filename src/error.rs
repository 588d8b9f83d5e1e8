use vstd::prelude::*;

verus! {

/// The ways in which building, parsing or generating a [`crate::ULID`] can fail.
#[derive(Debug, Clone, PartialEq)]
pub enum ULIDError {
    /// The randomness source failed; `msg` describes the failure.
    GenerateRandomError { msg: String },
    /// A text form whose length is not 26 characters.
    InvalidLength,
    /// A character that has no value in the Crockford alphabet.
    InvalidChar(char),
    /// A text form whose leading character is worth more than 7.
    DataTypeOverflow,
    /// A byte form whose length is not 16 bytes.
    InvalidByteArrayError,
    /// A timestamp that does not fit in 48 bits.
    TimestampOverflowError,
}

} // verus!
