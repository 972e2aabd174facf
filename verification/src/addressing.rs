use crate::errors::ApiError;
use crate::options::{Codec, DigestFunction, Version};
use vstd::prelude::*;

verus! {

/// The canonical text of an identifier assembled from a sha2-256 digest of
/// `data`, under the given version and codec. The digest and the multibase
/// encoding are functions of the inputs alone; the text is not stated further.
pub uninterp spec fn cid_text_sha2_256(version: Version, codec: Codec, data: Seq<u8>) -> Seq<char>;

/// The canonical text of a version 1 identifier assembled from a sha2-512
/// digest of `data` under the given codec.
pub uninterp spec fn cid_text_sha2_512(codec: Codec, data: Seq<u8>) -> Seq<char>;

/// What parsing a string as a content identifier yields: `None` when the
/// string is no identifier, otherwise the canonical text of the identifier
/// it denotes.
pub uninterp spec fn cid_canon(s: Seq<char>) -> Option<Seq<char>>;

/// The `boundary` parameter of a content-type header, when the header parses
/// as a media type carrying one.
pub uninterp spec fn boundary_param(content_type: Seq<char>) -> Option<Seq<char>>;

/// Whether a (version, codec, digest function) combination is structurally
/// valid: version 0 identifiers exist only over dag-pb and sha2-256.
pub open spec fn build_ok(version: Version, codec: Codec, digest_fn: DigestFunction) -> bool {
    version is V1 || (codec is DagProtobuf && digest_fn is Sha2_256)
}

/// The canonical text an identifier built from these inputs carries.
pub open spec fn cid_text_of(
    version: Version,
    codec: Codec,
    digest_fn: DigestFunction,
    data: Seq<u8>,
) -> Seq<char> {
    match digest_fn {
        DigestFunction::Sha2_256 => cid_text_sha2_256(version, codec, data),
        DigestFunction::Sha2_512 => cid_text_sha2_512(codec, data),
    }
}

/// Relies on multihash::Sha2_256::digest and on cid's Cid::new and Display
/// impl (cid 0.5): the digest and the base58btc/base32 text depend on the
/// inputs alone, and Cid::new succeeds whenever the version is 1, or the
/// codec is dag-pb and the multihash is sha2-256 — exactly what Cid::new
/// checks before refusing a version 0 identifier.
#[verifier::external_body]
fn cid_text_from_sha2_256(version: Version, codec: Codec, data: &[u8]) -> (r: String)
    requires
        version is V1 || codec is DagProtobuf,
    ensures
        r@ == cid_text_sha2_256(version, codec, data@),
{
    let hash = multihash::Sha2_256::digest(data);
    let v = match version {
        Version::V0 => cid::Version::V0,
        Version::V1 => cid::Version::V1,
    };
    let c = match codec {
        Codec::DagProtobuf => cid::Codec::DagProtobuf,
        Codec::DagCBOR => cid::Codec::DagCBOR,
        Codec::DagJSON => cid::Codec::DagJSON,
        Codec::Raw => cid::Codec::Raw,
    };
    cid::Cid::new(v, c, hash).unwrap().to_string()
}

/// Relies on multihash::Sha2_512::digest and on cid's Cid::new and Display
/// impl (cid 0.5): the text depends on the inputs alone, and Cid::new never
/// fails for a version 1 identifier.
#[verifier::external_body]
fn cid_text_from_sha2_512(codec: Codec, data: &[u8]) -> (r: String)
    ensures
        r@ == cid_text_sha2_512(codec, data@),
{
    let hash = multihash::Sha2_512::digest(data);
    let c = match codec {
        Codec::DagProtobuf => cid::Codec::DagProtobuf,
        Codec::DagCBOR => cid::Codec::DagCBOR,
        Codec::DagJSON => cid::Codec::DagJSON,
        Codec::Raw => cid::Codec::Raw,
    };
    cid::Cid::new(cid::Version::V1, c, hash).unwrap().to_string()
}

/// Relies on cid's TryFrom<&str> impl and Display impl (cid 0.5): whether a
/// string parses as a content identifier, and the canonical text of the
/// identifier it denotes, depend on the string alone.
#[verifier::external_body]
pub(crate) fn parse_canonical(s: &str) -> (r: Option<String>)
    ensures
        r is Some <==> cid_canon(s@) is Some,
        r matches Some(t) ==> Some(t@) == cid_canon(s@),
{
    match cid::Cid::try_from(s) {
        Ok(c) => Some(c.to_string()),
        Err(_) => None,
    }
}

/// Relies on mime's FromStr impl and Mime::get_param (mime 0.3): whether a
/// content-type header parses and carries a boundary parameter, and that
/// parameter's value, depend on the header text alone.
#[verifier::external_body]
pub(crate) fn boundary_of_content_type(content_type: &str) -> (r: Option<String>)
    ensures
        r is Some <==> boundary_param(content_type@) is Some,
        r matches Some(b) ==> Some(b@) == boundary_param(content_type@),
{
    let m: mime::Mime = match content_type.parse() {
        Ok(m) => m,
        Err(_) => return None,
    };
    m.get_param("boundary").map(|v| v.as_str().to_string())
}

/// A content identifier: a version and codec tag over a digest of the
/// addressed bytes, together with its canonical text. The addressed bytes
/// themselves are carried as ghost state so that well-formedness can tie the
/// text to them.
pub struct ContentId {
    pub version: Version,
    pub codec: Codec,
    pub digest_fn: DigestFunction,
    pub text: String,
    pub content: Ghost<Seq<u8>>,
}

impl ContentId {
    /// The invariant every constructed identifier carries: the combination is
    /// structurally valid and the text is the canonical text of the addressed
    /// bytes under that combination.
    pub open spec fn well_formed(&self) -> bool {
        &&& build_ok(self.version, self.codec, self.digest_fn)
        &&& self.text@ == cid_text_of(self.version, self.codec, self.digest_fn, self.content@)
    }
}

/// Combines a digest function, codec and version into a content identifier
/// over a byte buffer. Deterministic: identical inputs yield an identical
/// identifier. Fails exactly when a version 0 identifier is requested with a
/// non-default codec or digest function.
pub fn build(version: Version, codec: Codec, digest_fn: DigestFunction, data: &[u8]) -> (r: Result<
    ContentId,
    ApiError,
>)
    ensures
        r is Ok <==> build_ok(version, codec, digest_fn),
        r matches Ok(id) ==> {
            &&& id.version == version
            &&& id.codec == codec
            &&& id.digest_fn == digest_fn
            &&& id.content@ == data@
            &&& id.text@ == cid_text_of(version, codec, digest_fn, data@)
            &&& id.well_formed()
        },
        r is Err ==> r == Err::<ContentId, ApiError>(ApiError::InvalidV0),
{
    let valid = version == Version::V1 || (codec == Codec::DagProtobuf && digest_fn
        == DigestFunction::Sha2_256);
    if !valid {
        return Err(ApiError::InvalidV0);
    }
    let text = match digest_fn {
        DigestFunction::Sha2_256 => cid_text_from_sha2_256(version, codec, data),
        DigestFunction::Sha2_512 => cid_text_from_sha2_512(codec, data),
    };
    Ok(ContentId { version, codec, digest_fn, text, content: Ghost(data@) })
}

/// Parses one identifier string into its canonical text; a string that is no
/// identifier is refused before any store access.
pub fn parse_identifier(s: &str) -> (r: Result<String, ApiError>)
    ensures
        r is Ok <==> cid_canon(s@) is Some,
        r matches Ok(t) ==> Some(t@) == cid_canon(s@),
        r is Err ==> r == Err::<String, ApiError>(ApiError::InvalidCid),
{
    match parse_canonical(s) {
        Some(t) => Ok(t),
        None => Err(ApiError::InvalidCid),
    }
}

} // verus!
