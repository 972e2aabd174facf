use crate::addressing::{
    boundary_of_content_type, boundary_param, build, build_ok, cid_canon, cid_text_of,
    parse_identifier,
};
use crate::encode::{encode_key_size, encode_rm_line, key_size_json, rm_line_spec};
use crate::errors::{message_spec, ApiError};
use crate::multipart::{collect, mp_collect_spec};
use crate::options::{
    digest_spec, format_spec, version_spec, PutQuery, RmOptions,
};
use crate::store::{Block, MemStore};
use vstd::prelude::*;

verus! {

/// The bound on a collected multipart payload: one mebibyte.
pub const MAX_PUT_BYTES: usize = 1048576;

/// The query of a get request: one identifier string.
#[derive(Debug)]
pub struct GetQuery {
    pub arg: String,
}

/// The query of a stat request: one identifier string.
#[derive(Debug)]
pub struct StatQuery {
    pub arg: String,
}

/// The stat response: the identifier string as the caller wrote it, and the
/// byte length of the stored block.
#[derive(Debug)]
pub struct StatResponse {
    pub key: String,
    pub size: usize,
}

/// One record of a batch removal response: the identifier's canonical text
/// and the error text, empty on success.
#[derive(Debug)]
pub struct RmResponse {
    pub error: String,
    pub hash: String,
}

/// A response that carries no payload.
#[derive(Debug)]
pub struct EmptyResponse;

impl RmResponse {
    /// Encodes this record as one response line: empty under `quiet`,
    /// otherwise its newline-terminated JSON object.
    pub fn to_line(&self, quiet: bool) -> (r: String)
        ensures
            r@ == rm_line_spec(self.hash@, self.error@, quiet),
    {
        encode_rm_line(self.hash.as_str(), self.error.as_str(), quiet)
    }
}

/// What a get request returns: the stored bytes, or the reason it failed.
pub open spec fn get_spec(store: Map<Seq<char>, Seq<u8>>, arg: Seq<char>) -> Result<
    Seq<u8>,
    ApiError,
> {
    match cid_canon(arg) {
        None => Err(ApiError::InvalidCid),
        Some(id) => if store.contains_key(id) {
            Ok(store[id])
        } else {
            Err(ApiError::NotFound)
        },
    }
}

/// Fetches the block a query names: an unparsable identifier is refused
/// before the store is consulted.
pub fn get_query(store: &MemStore, query: &GetQuery) -> (r: Result<Vec<u8>, ApiError>)
    ensures
        match r {
            Ok(d) => get_spec(store@, query.arg@) == Ok::<Seq<u8>, ApiError>(d@),
            Err(e) => get_spec(store@, query.arg@) == Err::<Seq<u8>, ApiError>(e),
        },
{
    let id = match parse_identifier(query.arg.as_str()) {
        Ok(t) => t,
        Err(e) => {
            return Err(e);
        },
    };
    store.get_block(id.as_str())
}

/// What a stat request returns: the caller's identifier string and the byte
/// length of the stored block, or the reason it failed.
pub open spec fn stat_spec(store: Map<Seq<char>, Seq<u8>>, arg: Seq<char>) -> Result<
    (Seq<char>, nat),
    ApiError,
> {
    match cid_canon(arg) {
        None => Err(ApiError::InvalidCid),
        Some(id) => if store.contains_key(id) {
            Ok((arg, store[id].len()))
        } else {
            Err(ApiError::NotFound)
        },
    }
}

/// Measures the block a query names; the size comes from the retrieved
/// bytes, so a stat incurs a full fetch.
pub fn stat_query(store: &MemStore, query: &StatQuery) -> (r: Result<StatResponse, ApiError>)
    ensures
        match r {
            Ok(resp) => stat_spec(store@, query.arg@) == Ok::<(Seq<char>, nat), ApiError>(
                (resp.key@, resp.size as nat),
            ),
            Err(e) => stat_spec(store@, query.arg@) == Err::<(Seq<char>, nat), ApiError>(e),
        },
{
    let id = match parse_identifier(query.arg.as_str()) {
        Ok(t) => t,
        Err(e) => {
            return Err(e);
        },
    };
    let data = match store.get_block(id.as_str()) {
        Ok(d) => d,
        Err(e) => {
            return Err(e);
        },
    };
    Ok(StatResponse { key: String::from_str(query.arg.as_str()), size: data.len() })
}

impl StatResponse {
    /// Encodes this response as its JSON object.
    pub fn to_json(&self) -> (r: String)
        ensures
            r@ == key_size_json(self.key@, self.size as nat),
    {
        encode_key_size(self.key.as_str(), self.size)
    }
}

/// The multipart field names a put request may carry its payload under:
/// `data` and `file`.
pub open spec fn put_accepted_names() -> Seq<Seq<u8>> {
    seq![seq![100u8, 97u8, 116u8, 97u8], seq![102u8, 105u8, 108u8, 101u8]]
}

/// What a put request yields before the store is touched: the canonical text
/// of the identifier built over the collected payload, and the payload
/// itself; or the first failure, with all three addressing options validated
/// before the body is inspected.
pub open spec fn put_spec(
    format: Option<String>,
    mhtype: Option<String>,
    version_opt: Option<u8>,
    content_type: Seq<char>,
    body: Seq<u8>,
) -> Result<(Seq<char>, Seq<u8>), ApiError> {
    match format_spec(format) {
        Err(e) => Err(e),
        Ok(codec) => match digest_spec(mhtype) {
            Err(e) => Err(e),
            Ok(df) => match version_spec(version_opt) {
                Err(e) => Err(e),
                Ok(ver) => match boundary_param(content_type) {
                    None => Err(ApiError::MissingBoundary),
                    Some(b) => match mp_collect_spec(
                        put_accepted_names(),
                        MAX_PUT_BYTES as nat,
                        vstd::utf8::encode_utf8(b),
                        body,
                    ) {
                        Err(e) => Err(e),
                        Ok(data) => if !build_ok(ver, codec, df) {
                            Err(ApiError::InvalidV0)
                        } else {
                            Ok((cid_text_of(ver, codec, df, data), data))
                        },
                    },
                },
            },
        },
    }
}

/// Runs one put request: validates the addressing options, collects the
/// bounded multipart payload, builds the identifier, stores the block, and
/// reports the identifier text with the payload's byte length. Any failure
/// leaves the store untouched, and invalid options are refused before the
/// body is inspected.
pub fn inner_put(store: &mut MemStore, opts: &PutQuery, content_type: &str, body: &[u8]) -> (r:
    Result<String, ApiError>)
    ensures
        match put_spec(opts.format, opts.mhtype, opts.version, content_type@, body@) {
            Ok((key, data)) => {
                &&& r matches Ok(resp) && resp@ == key_size_json(key, data.len())
                &&& final(store)@ == old(store)@.insert(key, data)
            },
            Err(e) => {
                &&& r == Err::<String, ApiError>(e)
                &&& final(store)@ == old(store)@
            },
        },
{
    let codec = match opts.format() {
        Ok(c) => c,
        Err(e) => {
            return Err(e);
        },
    };
    let df = match opts.digest() {
        Ok(d) => d,
        Err(e) => {
            return Err(e);
        },
    };
    let ver = match opts.version() {
        Ok(v) => v,
        Err(e) => {
            return Err(e);
        },
    };
    let boundary = match boundary_of_content_type(content_type) {
        Some(b) => b,
        None => {
            return Err(ApiError::MissingBoundary);
        },
    };
    let mut name_data: Vec<u8> = Vec::new();
    name_data.push(100);
    name_data.push(97);
    name_data.push(116);
    name_data.push(97);
    let mut name_file: Vec<u8> = Vec::new();
    name_file.push(102);
    name_file.push(105);
    name_file.push(108);
    name_file.push(101);
    let mut accepted: Vec<Vec<u8>> = Vec::new();
    accepted.push(name_data);
    accepted.push(name_file);
    proof {
        assert(accepted.deep_view() =~~= put_accepted_names());
    }
    let data = match collect(&accepted, MAX_PUT_BYTES, boundary.as_str().as_bytes(), body) {
        Ok(d) => d,
        Err(e) => {
            return Err(e);
        },
    };
    let id = match build(ver, codec, df, data.as_slice()) {
        Ok(id) => id,
        Err(e) => {
            return Err(e);
        },
    };
    let size = data.len();
    let response = encode_key_size(id.text.as_str(), size);
    store.put_block(Block { id, data });
    Ok(response)
}

/// The canonical texts of a batch of identifier strings, when every one
/// parses; one malformed string spoils the whole batch.
pub open spec fn canon_all(args: Seq<Seq<char>>) -> Option<Seq<Seq<char>>>
    decreases args.len(),
{
    if args.len() == 0 {
        Some(Seq::empty())
    } else {
        match cid_canon(args[0]) {
            None => None,
            Some(id) => match canon_all(args.skip(1)) {
                None => None,
                Some(rest) => Some(seq![id] + rest),
            },
        }
    }
}

proof fn lemma_canon_all_snoc(args: Seq<Seq<char>>, x: Seq<char>)
    ensures
        canon_all(args.push(x)) == match canon_all(args) {
            None => None::<Seq<Seq<char>>>,
            Some(ids) => match cid_canon(x) {
                None => None::<Seq<Seq<char>>>,
                Some(id) => Some(ids.push(id)),
            },
        },
    decreases args.len(),
{
    if args.len() == 0 {
        assert(args.push(x)[0] == x);
        assert(args.push(x).skip(1) =~= Seq::<Seq<char>>::empty());
        assert(canon_all(args.push(x).skip(1)) == Some(Seq::<Seq<char>>::empty()));
        if cid_canon(x) is Some {
            let id = cid_canon(x).unwrap();
            assert(canon_all(args.push(x)) == Some(seq![id] + Seq::<Seq<char>>::empty()));
            assert(seq![id] + Seq::<Seq<char>>::empty() =~= Seq::<Seq<char>>::empty().push(id));
            assert(canon_all(args) == Some(Seq::<Seq<char>>::empty()));
        } else {
            assert(canon_all(args.push(x)) is None);
        }
    } else {
        assert(args.push(x)[0] == args[0]);
        assert(args.push(x).skip(1) =~= args.skip(1).push(x));
        lemma_canon_all_snoc(args.skip(1), x);
        if canon_all(args) is Some && cid_canon(x) is Some {
            let id0 = cid_canon(args[0]).unwrap();
            let rest = canon_all(args.skip(1)).unwrap();
            let id = cid_canon(x).unwrap();
            assert(seq![id0] + rest.push(id) =~= (seq![id0] + rest).push(id));
        }
    }
}

proof fn lemma_canon_all_fails(args: Seq<Seq<char>>, i: int)
    requires
        0 <= i < args.len(),
        cid_canon(args[i]) is None,
    ensures
        canon_all(args) is None,
    decreases args.len(),
{
    if i > 0 {
        lemma_canon_all_fails(args.skip(1), i - 1);
    }
}

/// Which removals of a batch succeed, in input order, under sequential
/// removal semantics: a later duplicate of an already removed identifier
/// fails.
pub open spec fn rm_removed_flags(m: Map<Seq<char>, Seq<u8>>, ids: Seq<Seq<char>>) -> Seq<bool>
    decreases ids.len(),
{
    if ids.len() == 0 {
        Seq::empty()
    } else {
        seq![m.contains_key(ids[0])] + rm_removed_flags(m.remove(ids[0]), ids.skip(1))
    }
}

/// The store left after removing a batch of identifiers.
pub open spec fn rm_final_map(m: Map<Seq<char>, Seq<u8>>, ids: Seq<Seq<char>>) -> Map<
    Seq<char>,
    Seq<u8>,
>
    decreases ids.len(),
{
    if ids.len() == 0 {
        m
    } else {
        rm_final_map(m.remove(ids[0]), ids.skip(1))
    }
}

/// The error text one removal record reports: empty on success, and empty on
/// failure too when `force` suppresses the report.
pub open spec fn rm_error_text(removed: bool, force: bool) -> Seq<char> {
    if removed || force {
        Seq::empty()
    } else {
        message_spec(ApiError::NotFound)
    }
}

/// The encoded removal response lines, one per input identifier, in input
/// order.
pub open spec fn rm_lines_spec(
    ids: Seq<Seq<char>>,
    flags: Seq<bool>,
    force: bool,
    quiet: bool,
) -> Seq<Seq<char>> {
    Seq::new(ids.len(), |i: int| rm_line_spec(ids[i], rm_error_text(flags[i], force), quiet))
}

/// What a batch removal returns: its response lines and the store it leaves,
/// or the parse failure that rejected the whole batch before any removal.
pub open spec fn rm_spec(
    m: Map<Seq<char>, Seq<u8>>,
    args: Seq<Seq<char>>,
    force: bool,
    quiet: bool,
) -> Result<(Seq<Seq<char>>, Map<Seq<char>, Seq<u8>>), ApiError> {
    match canon_all(args) {
        None => Err(ApiError::InvalidCid),
        Some(ids) => Ok(
            (rm_lines_spec(ids, rm_removed_flags(m, ids), force, quiet), rm_final_map(m, ids)),
        ),
    }
}

/// Removes every identifier of a batch and reports one line per identifier,
/// in input order. One malformed identifier rejects the whole batch before
/// any removal; a store failure on one item leaves its siblings untouched.
pub fn rm_query(store: &mut MemStore, options: &RmOptions) -> (r: Result<Vec<String>, ApiError>)
    ensures
        match r {
            Ok(lines) => rm_spec(old(store)@, options.args.deep_view(), options.force, options.quiet)
                == Ok::<(Seq<Seq<char>>, Map<Seq<char>, Seq<u8>>), ApiError>(
                (lines.deep_view(), final(store)@),
            ),
            Err(e) => {
                &&& rm_spec(old(store)@, options.args.deep_view(), options.force, options.quiet)
                    == Err::<(Seq<Seq<char>>, Map<Seq<char>, Seq<u8>>), ApiError>(e)
                &&& final(store)@ == old(store)@
            },
        },
{
    let ghost args_view = options.args.deep_view();
    let n = options.args.len();
    let mut canons: Vec<String> = Vec::new();
    let mut i: usize = 0;
    while i < n
        invariant
            i <= n,
            n == options.args.len(),
            args_view == options.args.deep_view(),
            canons.len() == i,
            canon_all(args_view.take(i as int)) == Some(canons.deep_view()),
        decreases n - i,
    {
        proof {
            assert(options.args[i as int]@ == args_view[i as int]);
        }
        match parse_identifier(options.args[i].as_str()) {
            Ok(t) => {
                let ghost pre = canons.deep_view();
                let ghost t_view = t@;
                canons.push(t);
                proof {
                    lemma_canon_all_snoc(args_view.take(i as int), args_view[i as int]);
                    assert(args_view.take(i as int).push(args_view[i as int]) =~= args_view.take(
                        i as int + 1,
                    ));
                    assert(canons.deep_view() =~= pre.push(t_view));
                }
            },
            Err(e) => {
                proof {
                    lemma_canon_all_fails(args_view, i as int);
                }
                return Err(e);
            },
        }
        i += 1;
    }
    proof {
        assert(args_view.take(n as int) =~= args_view);
    }
    let ghost ids = canons.deep_view();
    let ghost m0 = store@;
    let mut flags: Vec<bool> = Vec::new();
    proof {
        assert(ids.skip(0) =~= ids);
        assert(Seq::<bool>::empty() + rm_removed_flags(store@, ids) =~= rm_removed_flags(
            store@,
            ids,
        ));
    }
    let mut i: usize = 0;
    while i < n
        invariant
            i <= n,
            n == canons.len(),
            ids == canons.deep_view(),
            flags.len() == i,
            rm_removed_flags(m0, ids) == flags@ + rm_removed_flags(store@, ids.skip(i as int)),
            rm_final_map(m0, ids) == rm_final_map(store@, ids.skip(i as int)),
        decreases n - i,
    {
        let ghost m_cur = store@;
        proof {
            assert(ids.skip(i as int)[0] == ids[i as int]);
            assert(canons[i as int]@ == ids[i as int]);
        }
        let removed = match store.remove_block(canons[i].as_str()) {
            Ok(()) => true,
            Err(_) => false,
        };
        flags.push(removed);
        proof {
            assert(removed == m_cur.contains_key(ids[i as int]));
            assert(ids.skip(i as int).skip(1) =~= ids.skip(i as int + 1));
            assert(rm_removed_flags(m_cur, ids.skip(i as int)) == seq![removed]
                + rm_removed_flags(store@, ids.skip(i as int + 1)));
            assert(flags@ + rm_removed_flags(store@, ids.skip(i as int + 1)) =~= (flags@.drop_last()
                + seq![removed]) + rm_removed_flags(store@, ids.skip(i as int + 1)));
            assert(flags@.drop_last() + (seq![removed] + rm_removed_flags(
                store@,
                ids.skip(i as int + 1),
            )) =~= (flags@.drop_last() + seq![removed]) + rm_removed_flags(
                store@,
                ids.skip(i as int + 1),
            ));
        }
        i += 1;
    }
    proof {
        assert(ids.skip(n as int) =~= Seq::<Seq<char>>::empty());
        assert(flags@ + Seq::<bool>::empty() =~= flags@);
        assert(rm_removed_flags(m0, ids) == flags@);
        assert(rm_final_map(m0, ids) == store@);
    }
    let mut lines: Vec<String> = Vec::new();
    let mut i: usize = 0;
    while i < n
        invariant
            i <= n,
            n == canons.len(),
            n == flags.len(),
            ids == canons.deep_view(),
            lines.len() == i,
            forall|j: int|
                0 <= j < i ==> lines.deep_view()[j] == rm_line_spec(
                    ids[j],
                    rm_error_text(flags[j], options.force),
                    options.quiet,
                ),
        decreases n - i,
    {
        let err_text: &str = if flags[i] || options.force {
            ""
        } else {
            "block not found"
        };
        proof {
            reveal_strlit("");
            assert(""@ =~= Seq::<char>::empty());
            assert(err_text@ == rm_error_text(flags[i as int], options.force));
            assert(canons[i as int]@ == ids[i as int]);
        }
        let resp = RmResponse {
            error: String::from_str(err_text),
            hash: String::from_str(canons[i].as_str()),
        };
        let line = resp.to_line(options.quiet);
        let ghost pre = lines.deep_view();
        let ghost line_view = line@;
        lines.push(line);
        proof {
            assert(lines.deep_view() =~= pre.push(line_view));
        }
        i += 1;
    }
    proof {
        assert(lines.deep_view() =~= rm_lines_spec(ids, flags@, options.force, options.quiet));
    }
    Ok(lines)
}

/// Parses the raw query string of a removal request.
pub fn rm_options(query: &str) -> (r: Result<RmOptions, ApiError>)
    ensures
        match r {
            Ok(o) => crate::options::rm_options_spec(query@) == Ok::<
                (Seq<Seq<char>>, bool, bool),
                ApiError,
            >((o.args.deep_view(), o.force, o.quiet)),
            Err(e) => crate::options::rm_options_spec(query@) == Err::<
                (Seq<Seq<char>>, bool, bool),
                ApiError,
            >(e),
        },
{
    RmOptions::parse(query)
}

} // verus!
