//! Compact, time-sortable identifiers over a base-57 alphabet without
//! look-alike characters: the codec between 128-bit integers and digit
//! strings, and the 33-character identifiers built from a timestamp and a
//! payload.

pub mod alphabet;
pub mod codec;
pub mod error;
pub mod generator;
pub mod numeral;
pub mod order;
pub mod sources;
