//! The ways in which encoding, decoding and generating can fail.

use vstd::prelude::*;

verus! {

/// Why an operation of this library failed.
#[derive(Debug, Clone, Copy, PartialEq, Eq, Structural)]
pub enum Id57Error {
    /// An integer below zero stood where a non-negative one is required.
    NegativeValue,
    /// The string to decode has no characters.
    EmptyInput,
    /// The string to decode holds a character outside the alphabet;
    /// `position` counts characters from zero.
    InvalidCharacter { character: char, position: usize },
    /// The decoded value does not fit in 128 bits.
    Overflow,
    /// A supplied value cannot be turned into a non-negative integer of at
    /// most 128 bits.
    NotConvertible,
    /// The system clock could not be read or stands before the Unix epoch.
    ClockError,
}

} // verus!
