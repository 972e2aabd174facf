use block_api::addressing::{build, parse_identifier};
use block_api::errors::ApiError;
use block_api::options::{Codec, DigestFunction, PutQuery, RmOptions, Version};

fn query(format: Option<&str>, mhtype: Option<&str>, version: Option<u8>) -> PutQuery {
    PutQuery {
        format: format.map(|s| s.to_string()),
        mhtype: mhtype.map(|s| s.to_string()),
        version,
    }
}

#[test]
fn format_defaults_to_dag_pb() {
    assert_eq!(query(None, None, None).format(), Ok(Codec::DagProtobuf));
}

#[test]
fn format_resolves_known_names() {
    assert_eq!(query(Some("dag-pb"), None, None).format(), Ok(Codec::DagProtobuf));
    assert_eq!(query(Some("dag-cbor"), None, None).format(), Ok(Codec::DagCBOR));
    assert_eq!(query(Some("dag-json"), None, None).format(), Ok(Codec::DagJSON));
    assert_eq!(query(Some("raw"), None, None).format(), Ok(Codec::Raw));
}

#[test]
fn format_refuses_unknown_name() {
    let r = query(Some("git-raw"), None, None).format();
    assert_eq!(r, Err(ApiError::UnknownCodec));
    assert_eq!(ApiError::UnknownCodec.message(), "unknown codec");
}

#[test]
fn digest_defaults_to_sha2_256() {
    assert_eq!(query(None, None, None).digest(), Ok(DigestFunction::Sha2_256));
}

#[test]
fn digest_resolves_known_names() {
    assert_eq!(query(None, Some("sha2-256"), None).digest(), Ok(DigestFunction::Sha2_256));
    assert_eq!(query(None, Some("sha2-512"), None).digest(), Ok(DigestFunction::Sha2_512));
}

#[test]
fn digest_refuses_unknown_name() {
    let r = query(None, Some("sha3-256"), None).digest();
    assert_eq!(r, Err(ApiError::UnknownHash));
    assert_eq!(ApiError::UnknownHash.message(), "unknown hash");
}

#[test]
fn version_defaults_to_v0() {
    assert_eq!(query(None, None, None).version(), Ok(Version::V0));
    assert_eq!(query(None, None, Some(1)).version(), Ok(Version::V1));
}

#[test]
fn version_refuses_other_numbers() {
    let r = query(None, None, Some(2)).version();
    assert_eq!(r, Err(ApiError::InvalidVersion));
    assert_eq!(ApiError::InvalidVersion.message(), "invalid identifier version");
}

#[test]
fn build_is_deterministic() {
    let a = build(Version::V0, Codec::DagProtobuf, DigestFunction::Sha2_256, b"hello").unwrap();
    let b = build(Version::V0, Codec::DagProtobuf, DigestFunction::Sha2_256, b"hello").unwrap();
    assert_eq!(a.text, b.text);
}

#[test]
fn build_differs_on_different_bytes() {
    let a = build(Version::V1, Codec::Raw, DigestFunction::Sha2_256, b"one").unwrap();
    let b = build(Version::V1, Codec::Raw, DigestFunction::Sha2_256, b"two").unwrap();
    assert_ne!(a.text, b.text);
}

#[test]
fn build_v0_matches_cid_crate() {
    let id = build(Version::V0, Codec::DagProtobuf, DigestFunction::Sha2_256, b"payload").unwrap();
    let expected =
        cid::Cid::new(cid::Version::V0, cid::Codec::DagProtobuf, multihash::Sha2_256::digest(b"payload"))
            .unwrap();
    assert_eq!(id.text, expected.to_string());
    assert!(id.text.starts_with("Qm"));
}

#[test]
fn build_v1_matches_cid_crate() {
    let id = build(Version::V1, Codec::Raw, DigestFunction::Sha2_512, b"payload").unwrap();
    let expected =
        cid::Cid::new(cid::Version::V1, cid::Codec::Raw, multihash::Sha2_512::digest(b"payload"))
            .unwrap();
    assert_eq!(id.text, expected.to_string());
    assert!(id.text.starts_with('b'));
}

#[test]
fn build_v0_refuses_nondefault_codec() {
    let r = build(Version::V0, Codec::Raw, DigestFunction::Sha2_256, b"x");
    assert!(matches!(r, Err(ApiError::InvalidV0)));
}

#[test]
fn build_v0_refuses_nondefault_hash() {
    let r = build(Version::V0, Codec::DagProtobuf, DigestFunction::Sha2_512, b"x");
    assert!(matches!(r, Err(ApiError::InvalidV0)));
    assert_eq!(ApiError::InvalidV0.message(), "v0 identifiers require dag-pb and sha2-256");
}

#[test]
fn parse_identifier_roundtrips_canonical_text() {
    let id = build(Version::V0, Codec::DagProtobuf, DigestFunction::Sha2_256, b"abc").unwrap();
    let canon = parse_identifier(&id.text).unwrap();
    assert_eq!(canon, id.text);
}

#[test]
fn parse_identifier_refuses_garbage() {
    let r = parse_identifier("not-a-cid");
    assert!(matches!(r, Err(ApiError::InvalidCid)));
    assert_eq!(ApiError::InvalidCid.message(), "invalid cid");
}

#[test]
fn rm_options_collects_args_in_order() {
    let o = RmOptions::parse("arg=QmA&arg=QmB&force=true&quiet=false").unwrap();
    assert_eq!(o.args, vec!["QmA".to_string(), "QmB".to_string()]);
    assert!(o.force);
    assert!(!o.quiet);
}

#[test]
fn rm_options_defaults() {
    let o = RmOptions::parse("").unwrap();
    assert!(o.args.is_empty());
    assert!(!o.force);
    assert!(!o.quiet);
}

#[test]
fn rm_options_later_flag_wins() {
    let o = RmOptions::parse("force=true&force=false&quiet=true").unwrap();
    assert!(!o.force);
    assert!(o.quiet);
}

#[test]
fn rm_options_ignores_unknown_keys() {
    let o = RmOptions::parse("other=zzz&arg=QmA").unwrap();
    assert_eq!(o.args, vec!["QmA".to_string()]);
}

#[test]
fn rm_options_refuses_bad_flag_value() {
    let r = RmOptions::parse("force=yes");
    assert!(matches!(r, Err(ApiError::InvalidOption)));
    assert_eq!(ApiError::InvalidOption.message(), "invalid option");
}
