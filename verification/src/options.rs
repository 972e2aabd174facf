use crate::errors::ApiError;
use vstd::prelude::*;

verus! {

/// Serialization codec a stored block is interpreted under.
#[derive(Clone, Copy, PartialEq, Eq, Structural, Debug)]
pub enum Codec {
    DagProtobuf,
    DagCBOR,
    DagJSON,
    Raw,
}

/// Digest function used to address a block.
#[derive(Clone, Copy, PartialEq, Eq, Structural, Debug)]
pub enum DigestFunction {
    Sha2_256,
    Sha2_512,
}

/// Content identifier version.
#[derive(Clone, Copy, PartialEq, Eq, Structural, Debug)]
pub enum Version {
    V0,
    V1,
}

/// Per-request addressing options, as they arrive in the query string of a
/// store request: all three are optional and default to dag-pb, sha2-256
/// and version 0.
#[derive(Debug)]
pub struct PutQuery {
    pub format: Option<String>,
    pub mhtype: Option<String>,
    pub version: Option<u8>,
}

/// Equality of two string slices by their character sequences.
pub fn str_eq(a: &str, b: &str) -> (r: bool)
    ensures
        r == (a@ == b@),
{
    let owned_a = String::from_str(a);
    let owned_b = String::from_str(b);
    owned_a == owned_b
}

/// The codec a codec name resolves to; unrecognized names are refused.
pub open spec fn codec_of_name(name: Seq<char>) -> Result<Codec, ApiError> {
    if name == "dag-cbor"@ {
        Ok(Codec::DagCBOR)
    } else if name == "dag-pb"@ {
        Ok(Codec::DagProtobuf)
    } else if name == "dag-json"@ {
        Ok(Codec::DagJSON)
    } else if name == "raw"@ {
        Ok(Codec::Raw)
    } else {
        Err(ApiError::UnknownCodec)
    }
}

/// The digest function a hash name resolves to; the recognized set is
/// sha2-256 and sha2-512.
pub open spec fn digest_of_name(name: Seq<char>) -> Result<DigestFunction, ApiError> {
    if name == "sha2-256"@ {
        Ok(DigestFunction::Sha2_256)
    } else if name == "sha2-512"@ {
        Ok(DigestFunction::Sha2_512)
    } else {
        Err(ApiError::UnknownHash)
    }
}

/// The identifier version a number resolves to; only 0 and 1 exist.
pub open spec fn version_of_number(n: u8) -> Result<Version, ApiError> {
    if n == 0 {
        Ok(Version::V0)
    } else if n == 1 {
        Ok(Version::V1)
    } else {
        Err(ApiError::InvalidVersion)
    }
}

/// What the `format` option resolves to, with its default.
pub open spec fn format_spec(format: Option<String>) -> Result<Codec, ApiError> {
    match format {
        None => Ok(Codec::DagProtobuf),
        Some(s) => codec_of_name(s@),
    }
}

/// What the `mhtype` option resolves to, with its default.
pub open spec fn digest_spec(mhtype: Option<String>) -> Result<DigestFunction, ApiError> {
    match mhtype {
        None => Ok(DigestFunction::Sha2_256),
        Some(s) => digest_of_name(s@),
    }
}

/// What the `version` option resolves to, with its default.
pub open spec fn version_spec(version: Option<u8>) -> Result<Version, ApiError> {
    match version {
        None => Ok(Version::V0),
        Some(n) => version_of_number(n),
    }
}

/// A batch removal request: the identifier strings in caller order, plus the
/// `force` and `quiet` flags.
#[derive(Debug)]
pub struct RmOptions {
    pub args: Vec<String>,
    pub force: bool,
    pub quiet: bool,
}

/// The pieces of a query string, split on `&`; the empty string is one empty
/// piece.
pub open spec fn pairs_of(s: Seq<char>) -> Seq<Seq<char>>
    decreases s.len(),
{
    if s.len() == 0 {
        seq![Seq::<char>::empty()]
    } else if s[0] == '&' {
        seq![Seq::<char>::empty()] + pairs_of(s.skip(1))
    } else {
        let rest = pairs_of(s.skip(1));
        seq![seq![s[0]] + rest[0]] + rest.skip(1)
    }
}

/// The key of one `key=value` piece: everything before the first `=`, or the
/// whole piece when it carries none.
pub open spec fn key_of(pair: Seq<char>) -> Seq<char>
    decreases pair.len(),
{
    if pair.len() == 0 {
        Seq::empty()
    } else if pair[0] == '=' {
        Seq::empty()
    } else {
        seq![pair[0]] + key_of(pair.skip(1))
    }
}

/// The value of one `key=value` piece: everything after the first `=`, or
/// empty when the piece carries none.
pub open spec fn value_of(pair: Seq<char>) -> Seq<char>
    decreases pair.len(),
{
    if pair.len() == 0 {
        Seq::empty()
    } else if pair[0] == '=' {
        pair.skip(1)
    } else {
        value_of(pair.skip(1))
    }
}

/// A flag value: only `true` and `false` are accepted.
pub open spec fn bool_of(v: Seq<char>) -> Result<bool, ApiError> {
    if v == "true"@ {
        Ok(true)
    } else if v == "false"@ {
        Ok(false)
    } else {
        Err(ApiError::InvalidOption)
    }
}

/// How one piece changes the accumulated options: `arg` appends an identifier
/// string, `force` and `quiet` set their flag, any other key is ignored.
pub open spec fn apply_pair(
    args: Seq<Seq<char>>,
    force: bool,
    quiet: bool,
    pair: Seq<char>,
) -> Result<(Seq<Seq<char>>, bool, bool), ApiError> {
    let key = key_of(pair);
    let value = value_of(pair);
    if key == "arg"@ {
        Ok((args.push(value), force, quiet))
    } else if key == "force"@ {
        match bool_of(value) {
            Ok(b) => Ok((args, b, quiet)),
            Err(e) => Err(e),
        }
    } else if key == "quiet"@ {
        match bool_of(value) {
            Ok(b) => Ok((args, force, b)),
            Err(e) => Err(e),
        }
    } else {
        Ok((args, force, quiet))
    }
}

/// Folds the pieces of a query string over the accumulated options, left to
/// right, stopping at the first malformed flag.
pub open spec fn fold_pairs(
    args: Seq<Seq<char>>,
    force: bool,
    quiet: bool,
    ps: Seq<Seq<char>>,
) -> Result<(Seq<Seq<char>>, bool, bool), ApiError>
    decreases ps.len(),
{
    if ps.len() == 0 {
        Ok((args, force, quiet))
    } else {
        match apply_pair(args, force, quiet, ps[0]) {
            Err(e) => Err(e),
            Ok(acc) => fold_pairs(acc.0, acc.1, acc.2, ps.skip(1)),
        }
    }
}

/// What a raw removal query string resolves to.
pub open spec fn rm_options_spec(query: Seq<char>) -> Result<
    (Seq<Seq<char>>, bool, bool),
    ApiError,
> {
    fold_pairs(Seq::empty(), false, false, pairs_of(query))
}

proof fn lemma_pairs_head(u: Seq<char>, k: int)
    requires
        0 <= k <= u.len(),
        forall|j: int| 0 <= j < k ==> u[j] != '&',
        k < u.len() ==> u[k] == '&',
    ensures
        k < u.len() ==> pairs_of(u) == seq![u.take(k)] + pairs_of(u.skip(k + 1)),
        k == u.len() ==> pairs_of(u) == seq![u.take(k)],
    decreases k,
{
    if k == 0 {
        if 0 < u.len() {
            assert(pairs_of(u) == seq![Seq::<char>::empty()] + pairs_of(u.skip(1)));
            assert(seq![Seq::<char>::empty()] + pairs_of(u.skip(1)) =~~= seq![u.take(0)]
                + pairs_of(u.skip(1)));
        } else {
            assert(u =~= Seq::<char>::empty());
            assert(pairs_of(u) == seq![Seq::<char>::empty()]);
            assert(seq![Seq::<char>::empty()] =~~= seq![u.take(0)]);
        }
    } else {
        let t = u.skip(1);
        lemma_pairs_head(t, k - 1);
        let rest = pairs_of(t);
        assert(pairs_of(u) == seq![seq![u[0]] + rest[0]] + rest.skip(1));
        if k < u.len() {
            assert(t.skip(k - 1 + 1) =~= u.skip(k + 1));
            assert(rest == seq![t.take(k - 1)] + pairs_of(u.skip(k + 1)));
            assert(rest[0] == t.take(k - 1));
            assert(seq![u[0]] + t.take(k - 1) =~= u.take(k));
            assert(rest.skip(1) =~= pairs_of(u.skip(k + 1)));
            assert(seq![seq![u[0]] + rest[0]] + rest.skip(1) =~~= seq![u.take(k)] + pairs_of(
                u.skip(k + 1),
            ));
        } else {
            assert(rest == seq![t.take(k - 1)]);
            assert(seq![u[0]] + t.take(k - 1) =~= u.take(k));
            assert(rest.skip(1) =~= Seq::<Seq<char>>::empty());
            assert(seq![seq![u[0]] + rest[0]] + rest.skip(1) =~~= seq![u.take(k)]);
        }
    }
}

proof fn lemma_pair_split(pair: Seq<char>, i: int)
    requires
        0 <= i <= pair.len(),
        forall|j: int| 0 <= j < i ==> pair[j] != '=',
    ensures
        key_of(pair) == pair.take(i) + key_of(pair.skip(i)),
        value_of(pair) == value_of(pair.skip(i)),
    decreases i,
{
    if i == 0 {
        assert(pair.skip(0) =~= pair);
        assert(pair.take(0) + key_of(pair) =~= key_of(pair));
    } else {
        let t = pair.skip(1);
        lemma_pair_split(t, i - 1);
        assert(key_of(pair) == seq![pair[0]] + key_of(t));
        assert(t.skip(i - 1) =~= pair.skip(i));
        assert(seq![pair[0]] + (t.take(i - 1) + key_of(pair.skip(i))) =~= pair.take(i) + key_of(
            pair.skip(i),
        ));
        assert(value_of(pair) == value_of(t));
    }
}

/// First occurrence of a character at or after `from`.
fn find_char_from(s: &str, c: char, from: usize) -> (r: Option<usize>)
    requires
        from <= s@.len(),
    ensures
        match r {
            Some(i) => {
                &&& from <= i < s@.len()
                &&& s@[i as int] == c
                &&& forall|j: int| from <= j < i ==> s@[j] != c
            },
            None => forall|j: int| from <= j < s@.len() ==> s@[j] != c,
        },
{
    let n = s.unicode_len();
    let mut i: usize = from;
    while i < n
        invariant
            from <= i <= n,
            n == s@.len(),
            forall|j: int| from <= j < i ==> s@[j] != c,
        decreases n - i,
    {
        if s.get_char(i) == c {
            return Some(i);
        }
        i += 1;
    }
    None
}

/// Applies one `key=value` piece to the accumulated options.
fn apply_pair_exec(args: &mut Vec<String>, force: &mut bool, quiet: &mut bool, pair: &str) -> (r:
    Result<(), ApiError>)
    ensures
        match apply_pair(old(args).deep_view(), *old(force), *old(quiet), pair@) {
            Ok(acc) => {
                &&& r is Ok
                &&& final(args).deep_view() == acc.0
                &&& *final(force) == acc.1
                &&& *final(quiet) == acc.2
            },
            Err(e) => {
                &&& r == Err::<(), ApiError>(e)
                &&& final(args)@ == old(args)@
                &&& *final(force) == *old(force)
                &&& *final(quiet) == *old(quiet)
            },
        },
{
    let n = pair.unicode_len();
    let (key, value) = match find_char_from(pair, '=', 0) {
        Some(i) => {
            proof {
                lemma_pair_split(pair@, i as int);
                assert(pair@.skip(i as int)[0] == '=');
                assert(key_of(pair@.skip(i as int)) == Seq::<char>::empty());
                assert(pair@.take(i as int) + Seq::<char>::empty() =~= pair@.take(i as int));
                assert(value_of(pair@.skip(i as int)) == pair@.skip(i as int).skip(1));
                assert(pair@.skip(i as int).skip(1) =~= pair@.subrange(i as int + 1, n as int));
            }
            (pair.substring_char(0, i), pair.substring_char(i + 1, n))
        },
        None => {
            proof {
                lemma_pair_split(pair@, n as int);
                assert(pair@.skip(n as int) =~= Seq::<char>::empty());
                assert(pair@.take(n as int) + key_of(Seq::<char>::empty()) =~= pair@);
                assert(pair@.take(n as int) =~= pair@);
                assert(value_of(Seq::<char>::empty()) == Seq::<char>::empty());
                reveal_strlit("");
                assert(""@ =~= Seq::<char>::empty());
            }
            (pair.substring_char(0, n), "")
        },
    };
    proof {
        assert(key@ == key_of(pair@));
        assert(value@ == value_of(pair@));
    }
    if str_eq(key, "arg") {
        args.push(String::from_str(value));
        proof {
            assert(args.deep_view() =~= old(args).deep_view().push(value@));
        }
        Ok(())
    } else if str_eq(key, "force") {
        if str_eq(value, "true") {
            *force = true;
            Ok(())
        } else if str_eq(value, "false") {
            *force = false;
            Ok(())
        } else {
            Err(ApiError::InvalidOption)
        }
    } else if str_eq(key, "quiet") {
        if str_eq(value, "true") {
            *quiet = true;
            Ok(())
        } else if str_eq(value, "false") {
            *quiet = false;
            Ok(())
        } else {
            Err(ApiError::InvalidOption)
        }
    } else {
        Ok(())
    }
}

impl RmOptions {
    /// Parses a raw removal query string into its identifier list and flags,
    /// refusing a malformed flag value.
    pub fn parse(query: &str) -> (r: Result<RmOptions, ApiError>)
        ensures
            match r {
                Ok(o) => rm_options_spec(query@) == Ok::<(Seq<Seq<char>>, bool, bool), ApiError>(
                    (o.args.deep_view(), o.force, o.quiet),
                ),
                Err(e) => rm_options_spec(query@) == Err::<(Seq<Seq<char>>, bool, bool), ApiError>(
                    e,
                ),
            },
    {
        let n = query.unicode_len();
        let mut args: Vec<String> = Vec::new();
        let mut force = false;
        let mut quiet = false;
        let mut pos: usize = 0;
        proof {
            assert(args.deep_view() =~= Seq::<Seq<char>>::empty());
            assert(query@.skip(0) =~= query@);
        }
        loop
            invariant
                pos <= n,
                n == query@.len(),
                rm_options_spec(query@) == fold_pairs(
                    args.deep_view(),
                    force,
                    quiet,
                    pairs_of(query@.skip(pos as int)),
                ),
            decreases n - pos,
        {
            let ghost u = query@.skip(pos as int);
            let ghost acc_args = args.deep_view();
            let ghost acc_force = force;
            let ghost acc_quiet = quiet;
            match find_char_from(query, '&', pos) {
                Some(i) => {
                    let piece = query.substring_char(pos, i);
                    proof {
                        assert forall|j: int| 0 <= j < i - pos implies u[j] != '&' by {
                            assert(u[j] == query@[pos + j]);
                        }
                        assert(u[i - pos] == query@[i as int]);
                        lemma_pairs_head(u, i - pos);
                        assert(u.take(i - pos) =~= piece@);
                        assert(u.skip(i - pos + 1) =~= query@.skip(i as int + 1));
                        assert(pairs_of(u) == seq![piece@] + pairs_of(query@.skip(i as int + 1)));
                        assert((seq![piece@] + pairs_of(query@.skip(i as int + 1)))[0] == piece@);
                        assert((seq![piece@] + pairs_of(query@.skip(i as int + 1))).skip(1)
                            =~= pairs_of(query@.skip(i as int + 1)));
                    }
                    match apply_pair_exec(&mut args, &mut force, &mut quiet, piece) {
                        Ok(()) => (),
                        Err(e) => {
                            return Err(e);
                        },
                    }
                    pos = i + 1;
                },
                None => {
                    let piece = query.substring_char(pos, n);
                    proof {
                        assert forall|j: int| 0 <= j < u.len() implies u[j] != '&' by {
                            assert(u[j] == query@[pos + j]);
                        }
                        lemma_pairs_head(u, u.len() as int);
                        assert(u.take(u.len() as int) =~= piece@);
                        assert(pairs_of(u) == seq![piece@]);
                        assert(seq![piece@][0] == piece@);
                        assert(seq![piece@].skip(1) =~= Seq::<Seq<char>>::empty());
                    }
                    match apply_pair_exec(&mut args, &mut force, &mut quiet, piece) {
                        Ok(()) => (),
                        Err(e) => {
                            return Err(e);
                        },
                    }
                    proof {
                        let a2 = apply_pair(acc_args, acc_force, acc_quiet, piece@);
                        let acc2 = a2.unwrap();
                        assert(fold_pairs(acc_args, acc_force, acc_quiet, pairs_of(u))
                            == fold_pairs(acc2.0, acc2.1, acc2.2, seq![piece@].skip(1)));
                        assert(fold_pairs(
                            acc2.0,
                            acc2.1,
                            acc2.2,
                            Seq::<Seq<char>>::empty(),
                        ) == Ok::<(Seq<Seq<char>>, bool, bool), ApiError>(
                            (acc2.0, acc2.1, acc2.2),
                        ));
                    }
                    return Ok(RmOptions { args, force, quiet });
                },
            }
        }
    }
}

impl PutQuery {
    /// Resolves the codec name, defaulting to dag-pb.
    pub fn format(&self) -> (r: Result<Codec, ApiError>)
        ensures
            r == format_spec(self.format),
    {
        match &self.format {
            None => Ok(Codec::DagProtobuf),
            Some(s) => {
                if str_eq(s.as_str(), "dag-cbor") {
                    Ok(Codec::DagCBOR)
                } else if str_eq(s.as_str(), "dag-pb") {
                    Ok(Codec::DagProtobuf)
                } else if str_eq(s.as_str(), "dag-json") {
                    Ok(Codec::DagJSON)
                } else if str_eq(s.as_str(), "raw") {
                    Ok(Codec::Raw)
                } else {
                    Err(ApiError::UnknownCodec)
                }
            },
        }
    }

    /// Resolves the digest function name, defaulting to sha2-256.
    pub fn digest(&self) -> (r: Result<DigestFunction, ApiError>)
        ensures
            r == digest_spec(self.mhtype),
    {
        match &self.mhtype {
            None => Ok(DigestFunction::Sha2_256),
            Some(s) => {
                if str_eq(s.as_str(), "sha2-256") {
                    Ok(DigestFunction::Sha2_256)
                } else if str_eq(s.as_str(), "sha2-512") {
                    Ok(DigestFunction::Sha2_512)
                } else {
                    Err(ApiError::UnknownHash)
                }
            },
        }
    }

    /// Resolves the identifier version, defaulting to 0.
    pub fn version(&self) -> (r: Result<Version, ApiError>)
        ensures
            r == version_spec(self.version),
    {
        match self.version {
            None => Ok(Version::V0),
            Some(n) => {
                if n == 0 {
                    Ok(Version::V0)
                } else if n == 1 {
                    Ok(Version::V1)
                } else {
                    Err(ApiError::InvalidVersion)
                }
            },
        }
    }
}

} // verus!
