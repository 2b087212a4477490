use vstd::prelude::*;

verus! {

/// Why a read stage found too little data.
#[derive(Debug, Clone, Copy, PartialEq, Eq, Structural)]
pub enum IoFailure {
    /// Fewer than 204 header bytes were available.
    ShortHeader,
    /// The descriptor's size or offset does not fit this platform.
    OutOfRange,
}

/// Why the archive's layout was rejected.
#[derive(Debug, Clone, Copy, PartialEq, Eq, Structural)]
pub enum FormatFailure {
    /// The header does not start with the archive magic.
    InvalidSignature,
    /// The XML data descriptor has size zero: no image metadata.
    MissingXmlData,
    /// The XML data holds fewer than two bytes.
    XmlTooShort,
    /// The XML data does not start with the bytes 0xFF, 0xFE.
    InvalidBom,
    /// The XML data after the byte-order mark has an odd length.
    OddUtf16Length,
}

/// A failure of one of the decoding stages.
#[derive(Debug, Clone, Copy, PartialEq, Eq, Structural)]
pub enum WimError {
    Io(IoFailure),
    Format(FormatFailure),
    /// The XML data is not valid UTF-16.
    Decode,
}

impl WimError {
    pub fn is_io(&self) -> (r: bool)
        ensures
            r == (self is Io),
    {
        matches!(self, WimError::Io(_))
    }

    pub fn is_format(&self) -> (r: bool)
        ensures
            r == (self is Format),
    {
        matches!(self, WimError::Format(_))
    }

    pub fn is_decode(&self) -> (r: bool)
        ensures
            r == (self is Decode),
    {
        matches!(self, WimError::Decode)
    }
}

} // verus!
