//! The error taxonomy shared by every reader.
//!
//! Each failure names its kind and carries the byte offset at which it was
//! detected.

use vstd::prelude::*;

verus! {

/// What went wrong while decoding a DEX image.
#[derive(Clone, Copy, Debug, PartialEq, Eq, Structural)]
pub enum DexErrorKind {
    /// The eight magic bytes are not `dex\n` + three digits + `\0`.
    BadMagic,
    /// The magic parsed, but names a version outside the supported set.
    UnsupportedVersion,
    /// The endian tag is neither of the two defined constants.
    BadEndianTag,
    /// The header's `header_size` field is not 0x70.
    HeaderSizeMismatch,
    /// A header count disagrees with the matching map entry's `size`.
    MapHeaderMismatch,
    /// A fixed-width read ran past the end of the image.
    Truncated,
    /// An offset points outside the image or its designated region.
    OffsetOutOfRange,
    /// A table or list would extend past the end of the image.
    SectionOverflow,
    /// A position that must be 4-byte aligned is not.
    AlignmentViolation,
    /// A LEB128 value does not fit the target width.
    LebOverflow,
    /// An MUTF-8 group starts with an undefined lead byte.
    BadLeadByte,
    /// The second byte of a two-byte MUTF-8 group is not a continuation byte.
    BadSecondByte,
    /// The second or third byte of a three-byte MUTF-8 group is not a
    /// continuation byte.
    BadSecondThirdByte,
    /// The decoded UTF-16 code units contain a lone surrogate.
    Utf16Invalid,
    /// A map entry names a type code that the format does not define.
    UnknownMapType,
    /// The five tag bits of an encoded value match no defined kind.
    UnknownEncodedValueTag,
    /// The three argument bits of an encoded value are out of range for its
    /// tag.
    ValueArgOutOfRange { tag: u8, arg: u8 },
    /// An encoded value nests deeper than the recursion cap.
    EncodedValueDepth,
    /// A call site's encoded array does not start with a method handle, a
    /// string and a method type.
    CallSitePrefix,
    /// An annotation's visibility byte is none of the three defined values.
    BadVisibility,
    /// A resolved field or method index repeats, decreases, or leaves its id
    /// table.
    BadIndex,
}

/// A decoding failure: its kind, and the byte offset where it was detected.
#[derive(Clone, Copy, Debug, PartialEq, Eq, Structural)]
pub struct DexError {
    pub kind: DexErrorKind,
    pub at: usize,
}

/// Shorthand used by the specification mirrors of the readers.
pub open spec fn derr(kind: DexErrorKind, at: int) -> DexError {
    DexError { kind, at: at as usize }
}

impl DexError {
    /// Builds an error at the given position.
    pub fn new(kind: DexErrorKind, at: usize) -> (r: DexError)
        ensures
            r == derr(kind, at as int),
    {
        DexError { kind, at }
    }
}

} // verus!
