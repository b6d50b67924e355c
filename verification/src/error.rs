use vstd::prelude::*;

verus! {

/// Errors raised while encoding values to Molecule bytes or decoding
/// Molecule bytes back into values.
#[derive(Debug)]
pub enum Error {
    /// A general error message raised by adapter code.
    Message(String),
    /// The data length is incorrect while parsing a number or a fixed-size
    /// primitive.
    MismatchedLength,
    /// The data length is insufficient while parsing a number or a Molecule
    /// header.
    LengthNotEnough,
    /// The requested operation or type is not supported by the codec.
    Unimplemented,
    /// Occurs when assembling a Molecule fixvec whose element sizes are
    /// inconsistent or zero.
    AssembleFixvec,
    /// Occurs when the header or size is incorrect while parsing a Molecule
    /// fixvec.
    InvalidFixvec,
    /// Occurs when a table holds fewer fields than the target declares.
    MismatchedTableFieldCount,
    /// Occurs when an overflow happens while computing a Molecule header.
    Overflow,
    /// An error encountered while parsing a Molecule array.
    InvalidArray,
    /// Non-fixed-size fields are not allowed in a Molecule struct.
    InvalidStructField,
    /// A map entry should have exactly two fields: a key and a value.
    InvalidMap,
    /// The table offsets are invalid or malformed.
    InvalidTable,
    /// The table length is invalid or malformed.
    InvalidTableLength,
    /// The table header is invalid or malformed.
    InvalidTableHeader,
    /// The field count observed during serialization does not match the
    /// declared count.
    InvalidTableCount,
    /// Table-mode and struct-mode layouts were mixed where one was expected.
    MixTableAndStruct,
    /// A 32-bit value is not a valid Unicode scalar value.
    InvalidChar,
}

} // verus!
