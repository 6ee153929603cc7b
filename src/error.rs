use vstd::prelude::*;

verus! {

/// Why a buffer could not be decoded.
#[derive(Clone, Copy, Debug, PartialEq, Eq, Structural)]
pub enum DecodeError {
    /// The container tag is none of the known ones: the buffer is plain.
    UnknownFormat,
    /// The buffer holds fewer bytes than a declared field requires.
    TruncatedInput,
    /// A run token declares a run of zero pixels.
    InvalidRunLength,
    /// A frame record does not start with its zero marker.
    MalformedFrameHeader,
    /// A frame record holds no palette entry to look colors up in.
    EmptyPalette,
}

} // verus!
