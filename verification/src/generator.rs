//! Identifiers: a timestamp of 11 digits followed by a payload of 22
//! digits, and the entry points that take their arguments as a caller of a
//! dynamic language supplies them.

use vstd::prelude::*;
use crate::codec::{decode_base57, encode_base57};
use crate::error::Id57Error;
use crate::numeral::{
    capacity, decoding, encoding, lemma_capacity_values, lemma_encoding, lemma_numeral_len,
};
use crate::order::{lemma_fixed_width_order, lemma_precedes_extend, precedes, precedes_at};
use crate::sources::{is_random_uuid, random_uuid_value, since_unix_epoch};
use std::time::SystemTime;

verus! {

/// The width of the timestamp part of an identifier.
pub const TIMESTAMP_WIDTH: usize = 11;

/// The width of the payload part of an identifier.
pub const UUID_WIDTH: usize = 22;

/// The width of an identifier.
pub const IDENTIFIER_WIDTH: usize = 33;

/// The least timestamp that does not fit in 11 digits: 57 to the power 11.
pub const TIMESTAMP_LIMIT: u128 = 20_635_899_893_042_801_193;

/// An integer of any sign and size, as far as this library looks at it.
#[derive(Debug, Clone, Copy, PartialEq, Eq, Structural)]
pub enum IntegerValue {
    /// An integer below zero.
    Negative,
    /// An integer from 0 to 2^128 - 1.
    InRange(u128),
    /// An integer above 2^128 - 1.
    TooLarge,
}

/// A value that a caller hands over where an integer is expected.
#[derive(Debug, Clone, Copy, PartialEq, Eq, Structural)]
pub enum Supplied {
    /// An integer.
    Integer(IntegerValue),
    /// No integer, but a value that converts to this integer on request.
    Convertible(IntegerValue),
    /// A value without a conversion to an integer.
    Unconvertible,
}

/// The 128-bit number that an integer stands for, or why it stands for
/// none.
pub open spec fn in_range(i: IntegerValue) -> Result<u128, Id57Error> {
    match i {
        IntegerValue::Negative => Err(Id57Error::NegativeValue),
        IntegerValue::InRange(v) => Ok(v),
        IntegerValue::TooLarge => Err(Id57Error::NotConvertible),
    }
}

/// What a supplied value gives where an integer itself is required: the
/// sign is looked at first, then no conversion is made.
pub open spec fn required_integer(s: Supplied) -> Result<u128, Id57Error> {
    match s {
        Supplied::Integer(i) => in_range(i),
        Supplied::Convertible(IntegerValue::Negative) => Err(Id57Error::NegativeValue),
        _ => Err(Id57Error::NotConvertible),
    }
}

/// What a supplied value gives where a conversion to an integer is
/// accepted.
pub open spec fn accepted_integer(s: Supplied) -> Result<u128, Id57Error> {
    match s {
        Supplied::Integer(i) => in_range(i),
        Supplied::Convertible(i) => in_range(i),
        Supplied::Unconvertible => Err(Id57Error::NotConvertible),
    }
}

/// Microseconds in `secs` whole seconds and `subsec_nanos` nanoseconds,
/// rounded down.
pub open spec fn micros(secs: u64, subsec_nanos: u32) -> nat {
    (secs * 1_000_000 + subsec_nanos / 1_000) as nat
}

/// True when `t` is a number of microseconds that the clock can report.
pub open spec fn is_clock_reading(t: u128) -> bool {
    exists|secs: u64, subsec_nanos: u32|
        subsec_nanos < 1_000_000_000 && t == #[trigger] micros(secs, subsec_nanos)
}

/// The identifier of a timestamp and a payload: the timestamp padded to
/// 11 digits, then the payload padded to 22 digits.
pub open spec fn identifier(timestamp: nat, payload: nat) -> Seq<char> {
    encoding(timestamp, Some(TIMESTAMP_WIDTH)) + encoding(payload, Some(UUID_WIDTH))
}

/// The 128-bit number of an integer, or the error that it gives.
fn integer_in_range(i: IntegerValue) -> (r: Result<u128, Id57Error>)
    ensures
        r == in_range(i),
{
    match i {
        IntegerValue::Negative => Err(Id57Error::NegativeValue),
        IntegerValue::InRange(v) => Ok(v),
        IntegerValue::TooLarge => Err(Id57Error::NotConvertible),
    }
}

/// Reads an argument that must be an integer itself.
fn require_integer(s: Supplied) -> (r: Result<u128, Id57Error>)
    ensures
        r == required_integer(s),
{
    match s {
        Supplied::Integer(i) => integer_in_range(i),
        Supplied::Convertible(IntegerValue::Negative) => Err(Id57Error::NegativeValue),
        _ => Err(Id57Error::NotConvertible),
    }
}

/// The time since the Unix epoch in microseconds, from its whole seconds
/// and the nanoseconds below one second.
pub fn micros_since_epoch(secs: u64, subsec_nanos: u32) -> (t: u128)
    ensures
        t == micros(secs, subsec_nanos),
{
    (secs as u128) * 1_000_000 + (subsec_nanos as u128 / 1_000)
}

/// The payload of an identifier: the supplied value, converted where it is
/// no integer itself, or a fresh random version-4 UUID where none is
/// supplied.
pub fn extract_uuid(uuid: Option<Supplied>) -> (r: Result<u128, Id57Error>)
    ensures
        match uuid {
            Some(s) => r == accepted_integer(s),
            None => r matches Ok(v) && is_random_uuid(v),
        },
{
    match uuid {
        Some(Supplied::Integer(i)) => integer_in_range(i),
        Some(Supplied::Convertible(i)) => integer_in_range(i),
        Some(Supplied::Unconvertible) => Err(Id57Error::NotConvertible),
        None => Ok(random_uuid_value()),
    }
}

/// The timestamp of an identifier: the supplied integer, or the system
/// clock's microseconds since the Unix epoch where none is supplied.
pub fn extract_timestamp(timestamp: Option<Supplied>) -> (r: Result<u128, Id57Error>)
    ensures
        match timestamp {
            Some(s) => r == required_integer(s),
            None => r == Err::<u128, Id57Error>(Id57Error::ClockError) || (r matches Ok(t)
                && is_clock_reading(t)),
        },
{
    match timestamp {
        Some(s) => require_integer(s),
        None => {
            let now = SystemTime::now();
            match since_unix_epoch(&now) {
                Some(duration) => {
                    let secs = duration.as_secs();
                    let subsec_nanos = duration.subsec_nanos();
                    Ok(micros_since_epoch(secs, subsec_nanos))
                },
                None => Err(Id57Error::ClockError),
            }
        },
    }
}

/// Encodes a supplied integer in base 57, padded to `pad_to` characters
/// where that is given.
pub fn base57_encode(value: Supplied, pad_to: Option<usize>) -> (r: Result<String, Id57Error>)
    ensures
        match required_integer(value) {
            Ok(v) => r matches Ok(s) && s@ == encoding(v as nat, pad_to),
            Err(e) => r matches Err(f) && f == e,
        },
{
    match require_integer(value) {
        Ok(number) => Ok(encode_base57(number, pad_to)),
        Err(e) => Err(e),
    }
}

/// Decodes a base-57 string.
pub fn decode57(value: &str) -> (r: Result<u128, Id57Error>)
    ensures
        r == decoding(value@),
{
    decode_base57(value)
}

/// The identifier of a timestamp and a payload.
pub fn compose_identifier(timestamp: u128, payload: u128) -> (out: String)
    ensures
        out@ == identifier(timestamp as nat, payload as nat),
        out@.len() == IDENTIFIER_WIDTH <==> timestamp < TIMESTAMP_LIMIT,
{
    proof {
        identifier_width(timestamp, payload);
    }
    let ts_part = encode_base57(timestamp, Some(TIMESTAMP_WIDTH));
    let uuid_part = encode_base57(payload, Some(UUID_WIDTH));
    let mut identifier = String::new();
    identifier.append(ts_part.as_str());
    identifier.append(uuid_part.as_str());
    identifier
}

/// Generates an identifier. The timestamp is the supplied integer or the
/// clock's reading, the payload the supplied value or a fresh random
/// UUID. The timestamp is looked at first.
pub fn generate_id57(timestamp: Option<Supplied>, uuid: Option<Supplied>) -> (r: Result<
    String,
    Id57Error,
>)
    ensures
        match (timestamp, uuid) {
            (Some(ts), Some(u)) => match (required_integer(ts), accepted_integer(u)) {
                (Err(e), _) => r matches Err(f) && f == e,
                (Ok(_), Err(e)) => r matches Err(f) && f == e,
                (Ok(t), Ok(p)) => r matches Ok(s) && s@ == identifier(t as nat, p as nat),
            },
            (Some(ts), None) => match required_integer(ts) {
                Err(e) => r matches Err(f) && f == e,
                Ok(t) => r matches Ok(s) && exists|p: u128| #[trigger]
                    is_random_uuid(p) && s@ == identifier(t as nat, p as nat),
            },
            (None, Some(u)) => (r matches Err(f) && f == Id57Error::ClockError)
                || match accepted_integer(u) {
                Err(e) => r matches Err(f) && f == e,
                Ok(p) => r matches Ok(s) && exists|t: u128| #[trigger]
                    is_clock_reading(t) && s@ == identifier(t as nat, p as nat),
            },
            (None, None) => (r matches Err(f) && f == Id57Error::ClockError) || (r matches Ok(s)
                && exists|t: u128, p: u128|
                #![trigger is_clock_reading(t), is_random_uuid(p)]
                is_clock_reading(t) && is_random_uuid(p) && s@ == identifier(
                    t as nat,
                    p as nat,
                )),
        },
        timestamp matches Some(ts) ==> (required_integer(ts) matches Ok(t) ==> (r matches Ok(s)
            ==> (s@.len() == IDENTIFIER_WIDTH <==> t < TIMESTAMP_LIMIT))),
{
    let ts_value = match extract_timestamp(timestamp) {
        Ok(v) => v,
        Err(e) => {
            return Err(e);
        },
    };
    let uuid_value = match extract_uuid(uuid) {
        Ok(v) => v,
        Err(e) => {
            return Err(e);
        },
    };
    let identifier = compose_identifier(ts_value, uuid_value);
    Ok(identifier)
}

/// An identifier has 33 characters exactly when its timestamp is below
/// `TIMESTAMP_LIMIT`; every payload of 128 bits fits in its 22 digits.
pub proof fn identifier_width(timestamp: u128, payload: u128)
    ensures
        TIMESTAMP_LIMIT == capacity(TIMESTAMP_WIDTH as nat),
        identifier(timestamp as nat, payload as nat).len() == IDENTIFIER_WIDTH <==> timestamp
            < TIMESTAMP_LIMIT,
{
    lemma_capacity_values();
    lemma_numeral_len(timestamp as nat, 11);
    lemma_numeral_len(payload as nat, 22);
    lemma_encoding(timestamp as nat, Some(TIMESTAMP_WIDTH));
    lemma_encoding(payload as nat, Some(UUID_WIDTH));
}

/// Identifiers sort by time: of two timestamps that fit in 11 digits, the
/// earlier gives the identifier that comes first in lexicographic order,
/// whatever the two payloads are.
pub proof fn identifiers_sort_by_timestamp(
    earlier: u128,
    payload_a: u128,
    later: u128,
    payload_b: u128,
)
    requires
        earlier < later < TIMESTAMP_LIMIT,
    ensures
        precedes(
            identifier(earlier as nat, payload_a as nat),
            identifier(later as nat, payload_b as nat),
        ),
{
    let a = encoding(earlier as nat, Some(TIMESTAMP_WIDTH));
    let b = encoding(later as nat, Some(TIMESTAMP_WIDTH));
    lemma_capacity_values();
    lemma_numeral_len(earlier as nat, 11);
    lemma_numeral_len(later as nat, 11);
    lemma_encoding(earlier as nat, Some(TIMESTAMP_WIDTH));
    lemma_encoding(later as nat, Some(TIMESTAMP_WIDTH));
    lemma_fixed_width_order(a, b);
    let k = choose|k: int| 0 <= k < a.len() && #[trigger] precedes_at(a, b, k);
    lemma_precedes_extend(
        a,
        b,
        encoding(payload_a as nat, Some(UUID_WIDTH)),
        encoding(payload_b as nat, Some(UUID_WIDTH)),
        k,
    );
}

} // verus!
