use crate::addressing::{build_ok, cid_canon, cid_text_of};
use crate::encode::rm_line_spec;
use crate::errors::{message_spec, ApiError};
use crate::multipart::mp_collect_spec;
use crate::options::{digest_spec, format_spec, version_spec, Codec, DigestFunction, Version};
use crate::pipeline::{
    canon_all, get_spec, put_accepted_names, put_spec, rm_error_text, rm_removed_flags, rm_spec,
    stat_spec, MAX_PUT_BYTES,
};
use vstd::prelude::*;

verus! {

/// Building an identifier is deterministic: identical bytes and identical
/// options yield an identical identifier, across repeated calls.
pub proof fn lemma_build_deterministic(
    version: Version,
    codec: Codec,
    digest_fn: DigestFunction,
    data1: Seq<u8>,
    data2: Seq<u8>,
)
    requires
        data1 == data2,
    ensures
        cid_text_of(version, codec, digest_fn, data1) == cid_text_of(
            version,
            codec,
            digest_fn,
            data2,
        ),
{
}

/// A version 0 identifier with a non-default codec or digest function is
/// structurally invalid, so building one fails.
pub proof fn lemma_v0_requires_defaults(codec: Codec, digest_fn: DigestFunction)
    requires
        !(codec is DagProtobuf && digest_fn is Sha2_256),
    ensures
        !build_ok(Version::V0, codec, digest_fn),
{
}

/// Round trip: after a successful put, a get whose argument denotes the
/// returned identifier yields byte-for-byte the collected payload.
pub proof fn lemma_put_then_get(
    m: Map<Seq<char>, Seq<u8>>,
    format: Option<String>,
    mhtype: Option<String>,
    version_opt: Option<u8>,
    content_type: Seq<char>,
    body: Seq<u8>,
    arg: Seq<char>,
)
    requires
        put_spec(format, mhtype, version_opt, content_type, body) is Ok,
        cid_canon(arg) == Some(
            put_spec(format, mhtype, version_opt, content_type, body).unwrap().0,
        ),
    ensures
        ({
            let (key, data) = put_spec(format, mhtype, version_opt, content_type, body).unwrap();
            get_spec(m.insert(key, data), arg) == Ok::<Seq<u8>, ApiError>(data)
        }),
{
}

/// Idempotence: putting identical bytes twice yields the same identifier
/// both times — the outcome does not read the store at all — and the second
/// put leaves the store exactly as the first did.
pub proof fn lemma_put_idempotent(
    m: Map<Seq<char>, Seq<u8>>,
    format: Option<String>,
    mhtype: Option<String>,
    version_opt: Option<u8>,
    content_type: Seq<char>,
    body: Seq<u8>,
)
    requires
        put_spec(format, mhtype, version_opt, content_type, body) is Ok,
    ensures
        ({
            let (key, data) = put_spec(format, mhtype, version_opt, content_type, body).unwrap();
            m.insert(key, data).insert(key, data) == m.insert(key, data)
        }),
{
    let (key, data) = put_spec(format, mhtype, version_opt, content_type, body).unwrap();
    assert(m.insert(key, data).insert(key, data) =~= m.insert(key, data));
}

proof fn lemma_canon_all_len(args: Seq<Seq<char>>)
    requires
        canon_all(args) is Some,
    ensures
        canon_all(args).unwrap().len() == args.len(),
    decreases args.len(),
{
    if args.len() > 0 {
        lemma_canon_all_len(args.skip(1));
    }
}

proof fn lemma_rm_flags_len(m: Map<Seq<char>, Seq<u8>>, ids: Seq<Seq<char>>)
    ensures
        rm_removed_flags(m, ids).len() == ids.len(),
    decreases ids.len(),
{
    if ids.len() > 0 {
        lemma_rm_flags_len(m.remove(ids[0]), ids.skip(1));
    }
}

/// Batch removal preserves order: the result sequence carries one line per
/// input identifier, and the line at each position is determined by the
/// identifier and removal outcome at that same position — never by when a
/// sibling operation settles.
pub proof fn lemma_rm_preserves_order(
    m: Map<Seq<char>, Seq<u8>>,
    args: Seq<Seq<char>>,
    force: bool,
    quiet: bool,
)
    requires
        rm_spec(m, args, force, quiet) is Ok,
    ensures
        rm_spec(m, args, force, quiet).unwrap().0.len() == args.len(),
        forall|i: int|
            0 <= i < args.len() ==> rm_spec(m, args, force, quiet).unwrap().0[i] == rm_line_spec(
                canon_all(args).unwrap()[i],
                rm_error_text(rm_removed_flags(m, canon_all(args).unwrap())[i], force),
                quiet,
            ),
{
    lemma_canon_all_len(args);
}

/// One record of a batch removal depends only on its own identifier and its
/// own outcome: changing a sibling's outcome leaves the record unchanged.
pub proof fn lemma_rm_isolated(
    ids: Seq<Seq<char>>,
    flags1: Seq<bool>,
    flags2: Seq<bool>,
    force: bool,
    quiet: bool,
    i: int,
)
    requires
        0 <= i < ids.len(),
        i < flags1.len(),
        i < flags2.len(),
        flags1[i] == flags2[i],
    ensures
        crate::pipeline::rm_lines_spec(ids, flags1, force, quiet)[i]
            == crate::pipeline::rm_lines_spec(ids, flags2, force, quiet)[i],
{
}

/// Under `force`, a failed removal is reported with an empty error message;
/// without it, the failure message is reported; a successful removal always
/// reports an empty message.
pub proof fn lemma_force_suppresses_error(removed: bool)
    ensures
        rm_error_text(removed, true) == Seq::<char>::empty(),
        removed ==> rm_error_text(removed, false) == Seq::<char>::empty(),
        !removed ==> rm_error_text(removed, false) == message_spec(ApiError::NotFound),
{
}

/// Under `quiet`, a batch removal yields one empty line per input
/// identifier, the same count as the identifier list.
pub proof fn lemma_quiet_empty_lines(m: Map<Seq<char>, Seq<u8>>, args: Seq<Seq<char>>, force: bool)
    requires
        rm_spec(m, args, force, true) is Ok,
    ensures
        rm_spec(m, args, force, true).unwrap().0.len() == args.len(),
        forall|i: int|
            0 <= i < args.len() ==> rm_spec(m, args, force, true).unwrap().0[i] == Seq::<
                char,
            >::empty(),
{
    lemma_canon_all_len(args);
}

/// An oversized multipart payload is refused as such; combined with the put
/// pipeline's contract, the store is never touched by such a request.
pub proof fn lemma_oversized_put_refused(
    format: Option<String>,
    mhtype: Option<String>,
    version_opt: Option<u8>,
    content_type: Seq<char>,
    body: Seq<u8>,
)
    requires
        format_spec(format) is Ok,
        digest_spec(mhtype) is Ok,
        version_spec(version_opt) is Ok,
        crate::addressing::boundary_param(content_type) is Some,
        mp_collect_spec(
            put_accepted_names(),
            MAX_PUT_BYTES as nat,
            vstd::utf8::encode_utf8(crate::addressing::boundary_param(content_type).unwrap()),
            body,
        ) == Err::<Seq<u8>, ApiError>(ApiError::PayloadTooLarge),
    ensures
        put_spec(format, mhtype, version_opt, content_type, body) == Err::<
            (Seq<char>, Seq<u8>),
            ApiError,
        >(ApiError::PayloadTooLarge),
{
}

/// An unknown codec or hash name, or an invalid version number, is refused
/// without reading the request body: the outcome is the same failure
/// whatever the body holds.
pub proof fn lemma_invalid_options_refused(
    format: Option<String>,
    mhtype: Option<String>,
    version_opt: Option<u8>,
    content_type: Seq<char>,
    body1: Seq<u8>,
    body2: Seq<u8>,
)
    requires
        format_spec(format) is Err || digest_spec(mhtype) is Err || version_spec(version_opt)
            is Err,
    ensures
        put_spec(format, mhtype, version_opt, content_type, body1) is Err,
        put_spec(format, mhtype, version_opt, content_type, body1) == put_spec(
            format,
            mhtype,
            version_opt,
            content_type,
            body2,
        ),
{
}

/// A malformed identifier string is refused at once, with the same outcome
/// whatever the store holds: the store is never consulted.
pub proof fn lemma_malformed_identifier_refused(
    m1: Map<Seq<char>, Seq<u8>>,
    m2: Map<Seq<char>, Seq<u8>>,
    arg: Seq<char>,
)
    requires
        cid_canon(arg) is None,
    ensures
        get_spec(m1, arg) == Err::<Seq<u8>, ApiError>(ApiError::InvalidCid),
        get_spec(m1, arg) == get_spec(m2, arg),
        stat_spec(m1, arg) == Err::<(Seq<char>, nat), ApiError>(ApiError::InvalidCid),
        stat_spec(m1, arg) == stat_spec(m2, arg),
{
}

proof fn lemma_canon_all_refused(args: Seq<Seq<char>>, i: int)
    requires
        0 <= i < args.len(),
        cid_canon(args[i]) is None,
    ensures
        canon_all(args) is None,
    decreases args.len(),
{
    if i > 0 {
        lemma_canon_all_refused(args.skip(1), i - 1);
    }
}

/// One malformed identifier in a removal batch rejects the whole batch with
/// the same outcome whatever the store holds: zero removals are issued.
pub proof fn lemma_rm_batch_refused(
    m1: Map<Seq<char>, Seq<u8>>,
    m2: Map<Seq<char>, Seq<u8>>,
    args: Seq<Seq<char>>,
    force: bool,
    quiet: bool,
    i: int,
)
    requires
        0 <= i < args.len(),
        cid_canon(args[i]) is None,
    ensures
        rm_spec(m1, args, force, quiet) == Err::<
            (Seq<Seq<char>>, Map<Seq<char>, Seq<u8>>),
            ApiError,
        >(ApiError::InvalidCid),
        rm_spec(m1, args, force, quiet) == rm_spec(m2, args, force, quiet),
{
    lemma_canon_all_refused(args, i);
}

} // verus!
