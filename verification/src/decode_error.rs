//! Wire-decode failures. Decoding is strict: an unknown discriminant, a
//! bounded enumeration out of range, or a payload too short for its fixed
//! fields all reject the frame, and the session that sent it terminates.
use vstd::prelude::*;

verus! {

#[derive(Debug, Clone, Copy, PartialEq, Eq, Structural)]
pub enum DecodeError {
    /// The leading discriminant names no variant of the closed set.
    UnsupportedType,
    /// A bounded enumeration field (client type, language, battery status,
    /// temperature level) holds an index outside its range.
    InvalidValue,
    /// The payload ends before the fixed fields of its variant do.
    Truncated,
}

} // verus!
