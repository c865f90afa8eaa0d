use vstd::prelude::*;

verus! {

/// Why a message could not be decoded.
#[derive(Debug, Clone, Copy, PartialEq, Eq, Structural)]
pub enum DecodeError {
    /// A read ran past the end of the buffer.
    BufferTooShort,
    /// The bytes of a label are not valid UTF-8 text.
    MalformedLabel,
    /// A compression pointer does not point strictly backwards.
    CompressionLoop,
}

/// Whether the outcome `cut` of decoding a shortened buffer is in keeping with
/// the outcome `whole` of decoding all of it: the same outcome, or the
/// report that the buffer ended too soon.
pub open spec fn same_or_short<T>(cut: Result<T, DecodeError>, whole: Result<T, DecodeError>) -> bool {
    cut == whole || cut == Err::<T, DecodeError>(DecodeError::BufferTooShort)
}

} // verus!
