use vstd::prelude::*;

verus! {

/// Why a decoder stopped. Each decoder says which of these it gives on which
/// input; the drawing program reports some of them and gives up on others.
#[derive(Debug, Clone, Copy, PartialEq, Eq, Structural)]
pub enum DecodeError {
    /// A fixed-size field was cut short.
    UnexpectedEof,
    /// The two-byte packet tag names no packet kind.
    UnknownPacketType(u16),
    /// A length-prefixed block holds fewer bytes than its prefix says.
    TruncatedBlock,
    /// An encoded stroke ends early.
    TruncatedStroke,
    /// The first byte of an encoded stroke names no stroke kind.
    UnknownStrokeType(u8),
    /// A string that must be UTF-8 is not.
    InvalidUtf8,
    /// A single byte is left where a chunk should begin.
    TrailingByte,
}

} // verus!

verus! {

/// A decoding outcome with the decoded value taken by its view.
pub open spec fn view_result<T: View>(r: Result<T, DecodeError>) -> Result<T::V, DecodeError> {
    match r {
        Ok(v) => Ok(v@),
        Err(e) => Err(e),
    }
}

} // verus!

verus! {

/// Why a packet could not be written.
#[derive(Debug, Clone, Copy, PartialEq, Eq, Structural)]
pub enum EncodeError {
    /// The packet kind has no tag on the wire, so it cannot be sent.
    NoPacketType,
}

} // verus!
