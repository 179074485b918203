//! Error type of the client.
use vstd::prelude::*;

use bytecodec::Error as CodecError;

verus! {

/// Possible error kinds.
#[derive(Debug, Clone, Copy, PartialEq, Eq, Hash, Structural)]
pub enum ErrorKind {
    /// Malformed URL, non-http scheme, bad header, or empty host resolution.
    InvalidInput,
    /// The peer closed the stream before the response was fully decoded.
    UnexpectedEos,
    /// A connect timeout or a request timeout fired.
    Timeout,
    /// The pool is at capacity and no pooled connection can be evicted.
    TemporarilyUnavailable,
    /// Any other underlying I/O or codec error.
    Other,
}

/// This crate specific `Error` type: an error kind.
#[derive(Debug, Clone, Copy, PartialEq, Eq, Structural)]
pub struct Error {
    /// The kind of this error.
    pub kind: ErrorKind,
}

impl Error {
    /// Makes an error of the given kind.
    pub fn new(kind: ErrorKind) -> (r: Self)
        ensures
            r.kind == kind,
    {
        Error { kind }
    }

    /// The kind of this error.
    pub fn kind(&self) -> (k: ErrorKind)
        ensures
            k == self.kind,
    {
        self.kind
    }

    /// Makes the error that a failure of the byte codec maps to: codec
    /// errors keep their kind where this crate has the same one, and
    /// everything else is `Other`.
    pub fn from_codec(e: &CodecError) -> (r: Error)
        ensures
            r.kind == ErrorKind::InvalidInput || r.kind == ErrorKind::UnexpectedEos || r.kind
                == ErrorKind::Other,
    {
        let kind = codec_error_kind(e);
        Error { kind: error_kind_for_codec(kind) }
    }
}

/// The kinds of error the byte codec distinguishes, as plain values.
#[derive(Debug, Clone, Copy, PartialEq, Eq, Structural)]
pub enum CodecErrorKind {
    /// The input handed to the codec is invalid.
    InvalidInput,
    /// The encoder or decoder is in an inconsistent state.
    InconsistentState,
    /// The stream ended although items remained to be coded.
    UnexpectedEos,
    /// The encoder cannot take more items.
    EncoderFull,
    /// The decoder cannot decode any more items.
    DecoderTerminated,
    /// A decoding process terminated incompletely.
    IncompleteDecoding,
    /// Any other codec error.
    Other,
}

/// The `bytecodec::Error` type, opaque to the verifier; values of it are
/// only carried to the trusted kind extraction below.
#[verifier::external_type_specification]
#[verifier::external_body]
pub struct ExCodecError(CodecError);

/// Relies on `bytecodec::Error::kind` (through its `TrackableError`
/// deref): tells the variants of the codec's error kind apart, one arm
/// each.
#[verifier::external_body]
fn codec_error_kind(e: &CodecError) -> CodecErrorKind {
    match *e.kind() {
        bytecodec::ErrorKind::InvalidInput => CodecErrorKind::InvalidInput,
        bytecodec::ErrorKind::InconsistentState => CodecErrorKind::InconsistentState,
        bytecodec::ErrorKind::UnexpectedEos => CodecErrorKind::UnexpectedEos,
        bytecodec::ErrorKind::EncoderFull => CodecErrorKind::EncoderFull,
        bytecodec::ErrorKind::DecoderTerminated => CodecErrorKind::DecoderTerminated,
        bytecodec::ErrorKind::IncompleteDecoding => CodecErrorKind::IncompleteDecoding,
        bytecodec::ErrorKind::Other => CodecErrorKind::Other,
    }
}

/// The error kind that a codec error kind maps to: `InvalidInput` and
/// `UnexpectedEos` carry over, everything else is `Other`.
pub open spec fn spec_error_kind_for_codec(kind: CodecErrorKind) -> ErrorKind {
    match kind {
        CodecErrorKind::InvalidInput => ErrorKind::InvalidInput,
        CodecErrorKind::UnexpectedEos => ErrorKind::UnexpectedEos,
        _ => ErrorKind::Other,
    }
}

/// Maps a codec error kind onto this crate's error taxonomy.
pub fn error_kind_for_codec(kind: CodecErrorKind) -> (r: ErrorKind)
    ensures
        r == spec_error_kind_for_codec(kind),
{
    match kind {
        CodecErrorKind::InvalidInput => ErrorKind::InvalidInput,
        CodecErrorKind::UnexpectedEos => ErrorKind::UnexpectedEos,
        _ => ErrorKind::Other,
    }
}

} // verus!
