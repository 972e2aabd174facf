use vstd::prelude::*;

verus! {

/// Why a request was refused, before or while touching the block store.
///
/// Validation errors (everything but `NotFound`) are raised before any store
/// access; `NotFound` is the store's own failure.
#[derive(Clone, Copy, PartialEq, Eq, Structural, Debug)]
pub enum ApiError {
    /// The `format` option names no known codec.
    UnknownCodec,
    /// The `mhtype` option names no known digest function.
    UnknownHash,
    /// The `version` option is neither 0 nor 1.
    InvalidVersion,
    /// An option pair of the removal query string holds a malformed flag value.
    InvalidOption,
    /// An identifier string does not parse as a content identifier.
    InvalidCid,
    /// A v0 identifier was requested with a non-default codec or digest.
    InvalidV0,
    /// The content-type header carries no multipart boundary.
    MissingBoundary,
    /// No part of the multipart body carries an accepted field name.
    MissingMultipartField,
    /// The selected multipart part exceeds the configured bound.
    PayloadTooLarge,
    /// The block store holds no block under the identifier.
    NotFound,
}

/// The client-facing text of each error.
pub open spec fn message_spec(e: ApiError) -> Seq<char> {
    match e {
        ApiError::UnknownCodec => "unknown codec"@,
        ApiError::UnknownHash => "unknown hash"@,
        ApiError::InvalidVersion => "invalid identifier version"@,
        ApiError::InvalidOption => "invalid option"@,
        ApiError::InvalidCid => "invalid cid"@,
        ApiError::InvalidV0 => "v0 identifiers require dag-pb and sha2-256"@,
        ApiError::MissingBoundary => "missing 'boundary' on content-type"@,
        ApiError::MissingMultipartField => "missing required multipart field"@,
        ApiError::PayloadTooLarge => "payload too large"@,
        ApiError::NotFound => "block not found"@,
    }
}

impl ApiError {
    /// The client-facing text of this error.
    pub fn message(&self) -> (m: String)
        ensures
            m@ == message_spec(*self),
    {
        match self {
            ApiError::UnknownCodec => String::from_str("unknown codec"),
            ApiError::UnknownHash => String::from_str("unknown hash"),
            ApiError::InvalidVersion => String::from_str("invalid identifier version"),
            ApiError::InvalidOption => String::from_str("invalid option"),
            ApiError::InvalidCid => String::from_str("invalid cid"),
            ApiError::InvalidV0 => String::from_str("v0 identifiers require dag-pb and sha2-256"),
            ApiError::MissingBoundary => String::from_str("missing 'boundary' on content-type"),
            ApiError::MissingMultipartField => String::from_str(
                "missing required multipart field",
            ),
            ApiError::PayloadTooLarge => String::from_str("payload too large"),
            ApiError::NotFound => String::from_str("block not found"),
        }
    }
}

} // verus!
