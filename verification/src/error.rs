use vstd::prelude::*;

verus! {

/// A structural fault in the container stream or in a chunk's payload.
#[derive(Clone, Copy, Debug, PartialEq, Eq, Structural)]
pub enum FormatError {
    /// The 8-byte magic prefix is absent or altered.
    BadSignature,
    /// A chunk header, payload or checksum would run past the end of the buffer.
    TruncatedChunk,
    /// A chunk's 4-byte tag is not valid text.
    BadTag,
    /// The first chunk is absent or is not the header chunk.
    MissingHeader,
    /// A payload is too short for its fixed layout.
    ShortPayload,
    /// A payload's length does not fit its record geometry.
    BadLength,
    UnknownColorType,
    UnknownInterlaceMethod,
    UnknownFilterType,
    UnknownRenderingIntent,
    UnknownPixelUnit,
    UnknownCompressionMethod,
    UnknownByteOrder,
    /// A text field is not valid UTF-8.
    BadText,
    /// A null-terminated field has no terminator.
    MissingNull,
    /// A metadata directory offset points outside the payload, or the
    /// directory chain does not terminate.
    BadOffset,
    /// The payload shape is not defined for the header's color type.
    WrongColorType,
    /// The image is interlaced, which this decoder rejects rather than
    /// reconstructing incorrectly.
    Interlaced,
}

/// The three failure kinds a decode can report.
#[derive(Clone, Copy, Debug, PartialEq, Eq, Structural)]
pub enum PngError {
    /// The stream or a payload is malformed; says how.
    Format(FormatError),
    /// The compressed pixel or text stream is corrupt or truncated.
    Decompress,
    /// The source could not be read.
    Io,
}

} // verus!
