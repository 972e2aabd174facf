use crate::errors::ApiError;
use vstd::prelude::*;
use vstd::slice::{slice_index_get, slice_subrange, slice_to_vec};

verus! {

/// Whether `pat` occurs in `b` at position `i`.
pub open spec fn match_at(b: Seq<u8>, pat: Seq<u8>, i: int) -> bool {
    &&& 0 <= i
    &&& i + pat.len() <= b.len()
    &&& b.subrange(i, i + pat.len()) == pat
}

/// The first occurrence of `pat` in `b` at or after `from`.
pub open spec fn find_at(b: Seq<u8>, pat: Seq<u8>, from: int) -> Option<int>
    recommends
        0 <= from,
    decreases b.len() - from,
{
    if pat.len() < 1 || from + pat.len() > b.len() {
        None
    } else if b.subrange(from, from + pat.len()) == pat {
        Some(from)
    } else {
        find_at(b, pat, from + 1)
    }
}

proof fn lemma_find_at_skip(b: Seq<u8>, pat: Seq<u8>, from: int, to: int)
    requires
        0 <= from <= to,
        forall|j: int| from <= j < to ==> !match_at(b, pat, j),
    ensures
        find_at(b, pat, from) == find_at(b, pat, to),
    decreases to - from,
{
    if from < to {
        if pat.len() < 1 || from + pat.len() > b.len() {
            assert(find_at(b, pat, from) is None);
            assert(find_at(b, pat, to) is None);
        } else {
            assert(!match_at(b, pat, from));
            assert(b.subrange(from, from + pat.len()) != pat);
            lemma_find_at_skip(b, pat, from + 1, to);
        }
    }
}

/// Compares `pat` against the bytes of `b` starting at `at`.
fn slice_eq_at(b: &[u8], pat: &[u8], at: usize) -> (r: bool)
    requires
        at + pat@.len() <= b@.len(),
    ensures
        r == match_at(b@, pat@, at as int),
{
    let m = pat.len();
    let bn = b.len();
    let mut j: usize = 0;
    while j < m
        invariant
            j <= m,
            m == pat@.len(),
            bn == b@.len(),
            at + m <= bn,
            forall|k: int| 0 <= k < j ==> b@[at + k] == pat@[k],
        decreases m - j,
    {
        if *slice_index_get(b, at + j) != *slice_index_get(pat, j) {
            proof {
                assert(b@.subrange(at as int, at + m) [j as int] == b@[at + j]);
                if match_at(b@, pat@, at as int) {
                    assert(b@.subrange(at as int, at + m) [j as int] == pat@[j as int]);
                }
            }
            return false;
        }
        j += 1;
    }
    proof {
        assert(b@.subrange(at as int, at + m) =~= pat@);
    }
    true
}

/// First occurrence of `pat` in `b` at or after `from`.
fn find_from(b: &[u8], pat: &[u8], from: usize) -> (r: Option<usize>)
    requires
        from <= b@.len(),
        pat@.len() >= 1,
    ensures
        match r {
            Some(i) => {
                &&& Some(i as int) == find_at(b@, pat@, from as int)
                &&& from <= i
                &&& i + pat@.len() <= b@.len()
                &&& match_at(b@, pat@, i as int)
            },
            None => find_at(b@, pat@, from as int) is None,
        },
{
    let n = b.len();
    let m = pat.len();
    if m > n {
        return None;
    }
    let mut i: usize = from;
    loop
        invariant
            from <= i <= n,
            1 <= m <= n,
            n == b@.len(),
            m == pat@.len(),
            forall|j: int| from <= j < i ==> !match_at(b@, pat@, j),
        decreases n - i,
    {
        if i > n - m {
            proof {
                lemma_find_at_skip(b@, pat@, from as int, i as int);
            }
            return None;
        }
        if slice_eq_at(b, pat, i) {
            proof {
                lemma_find_at_skip(b@, pat@, from as int, i as int);
            }
            return Some(i);
        }
        i += 1;
    }
}

/// The bytes separating a part's headers from its payload.
pub open spec fn header_sep() -> Seq<u8> {
    seq![13u8, 10u8, 13u8, 10u8]
}

/// The bytes of `name="`, as a content-disposition header writes a field
/// name.
pub open spec fn name_prefix() -> Seq<u8> {
    seq![110u8, 97u8, 109u8, 101u8, 61u8, 34u8]
}

/// The field name a part's header block declares, if any: the bytes between
/// `name="` and the next quote.
pub open spec fn part_name(headers: Seq<u8>) -> Option<Seq<u8>> {
    match find_at(headers, name_prefix(), 0) {
        None => None,
        Some(q) => match find_at(headers, seq![34u8], q + 6) {
            None => None,
            Some(z) => Some(headers.subrange(q + 6, z)),
        },
    }
}

/// Scans the parts of a multipart body from the delimiter occurrence at
/// `pos`: the first part whose field name is accepted yields its payload,
/// bounded by `max`; a terminator or malformed framing ends the scan with no
/// accepted part found.
pub open spec fn mp_scan(
    body: Seq<u8>,
    delim: Seq<u8>,
    names: Seq<Seq<u8>>,
    max: nat,
    pos: int,
) -> Result<Seq<u8>, ApiError>
    recommends
        0 <= pos,
    decreases body.len() - pos,
{
    let after = pos + delim.len();
    if after + 2 <= body.len() && body[after] == 45 && body[after + 1] == 45 {
        Err(ApiError::MissingMultipartField)
    } else if after + 2 <= body.len() && body[after] == 13 && body[after + 1] == 10 {
        match find_at(body, header_sep(), after + 2) {
            None => Err(ApiError::MissingMultipartField),
            Some(h) => {
                let c0 = h + 4;
                match find_at(body, seq![13u8, 10u8] + delim, c0) {
                    None => Err(ApiError::MissingMultipartField),
                    Some(e) => {
                        let selected = match part_name(body.subrange(after + 2, h)) {
                            Some(x) => names.contains(x),
                            None => false,
                        };
                        if selected {
                            if e - c0 <= max {
                                Ok(body.subrange(c0, e))
                            } else {
                                Err(ApiError::PayloadTooLarge)
                            }
                        } else if pos < e + 2 && e + 2 + delim.len() <= body.len() {
                            mp_scan(body, delim, names, max, e + 2)
                        } else {
                            Err(ApiError::MissingMultipartField)
                        }
                    },
                }
            },
        }
    } else {
        Err(ApiError::MissingMultipartField)
    }
}

/// What collecting one named part of a multipart body yields: the payload of
/// the first part carrying an accepted field name, the whole body scanned by
/// `--boundary` delimiters.
pub open spec fn mp_collect_spec(
    names: Seq<Seq<u8>>,
    max: nat,
    boundary: Seq<u8>,
    body: Seq<u8>,
) -> Result<Seq<u8>, ApiError> {
    let delim = seq![45u8, 45u8] + boundary;
    match find_at(body, delim, 0) {
        None => Err(ApiError::MissingMultipartField),
        Some(p) => mp_scan(body, delim, names, max, p),
    }
}

/// The field name of one part's header block.
fn part_name_exec<'a>(headers: &'a [u8]) -> (r: Option<&'a [u8]>)
    ensures
        match r {
            Some(s) => part_name(headers@) == Some(s@),
            None => part_name(headers@) is None,
        },
{
    let mut np: Vec<u8> = Vec::new();
    np.push(110);
    np.push(97);
    np.push(109);
    np.push(101);
    np.push(61);
    np.push(34);
    proof {
        assert(np@ =~= name_prefix());
    }
    let hn = headers.len();
    let q = match find_from(headers, np.as_slice(), 0) {
        None => {
            return None;
        },
        Some(q) => q,
    };
    proof {
        assert(q + 6 <= hn);
    }
    let mut qt: Vec<u8> = Vec::new();
    qt.push(34);
    proof {
        assert(qt@ =~= seq![34u8]);
    }
    let z = match find_from(headers, qt.as_slice(), q + 6) {
        None => {
            return None;
        },
        Some(z) => z,
    };
    Some(slice_subrange(headers, q + 6, z))
}

/// Whether `name` is one of the accepted field names.
fn contains_name(accepted: &Vec<Vec<u8>>, name: &[u8]) -> (r: bool)
    ensures
        r == accepted.deep_view().contains(name@),
{
    let n = accepted.len();
    let mut i: usize = 0;
    while i < n
        invariant
            i <= n,
            n == accepted.len(),
            forall|j: int| 0 <= j < i ==> accepted.deep_view()[j] != name@,
        decreases n - i,
    {
        let a = &accepted[i];
        proof {
            assert(accepted.deep_view()[i as int] == accepted@[i as int].deep_view());
            assert(accepted@[i as int].deep_view() =~= accepted@[i as int]@);
        }
        let eq = if a.len() == name.len() {
            slice_eq_at(a.as_slice(), name, 0)
        } else {
            false
        };
        if eq {
            proof {
                assert(a@.subrange(0, name@.len() as int) =~= a@);
                assert(accepted.deep_view()[i as int] == name@);
            }
            return true;
        }
        proof {
            if a@.len() == name@.len() {
                assert(a@.subrange(0, name@.len() as int) =~= a@);
            }
            assert(accepted.deep_view()[i as int] != name@);
        }
        i += 1;
    }
    false
}

/// The concatenation of a sequence of body chunks, in arrival order.
pub open spec fn flatten(chunks: Seq<Seq<u8>>) -> Seq<u8>
    decreases chunks.len(),
{
    if chunks.len() == 0 {
        Seq::empty()
    } else {
        chunks[0] + flatten(chunks.skip(1))
    }
}

proof fn lemma_flatten_snoc(chunks: Seq<Seq<u8>>, x: Seq<u8>)
    ensures
        flatten(chunks.push(x)) == flatten(chunks) + x,
    decreases chunks.len(),
{
    if chunks.len() == 0 {
        assert(chunks.push(x)[0] == x);
        assert(chunks.push(x).skip(1) =~= Seq::<Seq<u8>>::empty());
        assert(x + flatten(Seq::<Seq<u8>>::empty()) =~= flatten(chunks) + x);
        assert(flatten(chunks.push(x)) == x + flatten(Seq::<Seq<u8>>::empty()));
    } else {
        assert(chunks.push(x)[0] == chunks[0]);
        assert(chunks.push(x).skip(1) =~= chunks.skip(1).push(x));
        lemma_flatten_snoc(chunks.skip(1), x);
        assert(flatten(chunks.push(x)) == chunks[0] + (flatten(chunks.skip(1)) + x));
        assert(chunks[0] + (flatten(chunks.skip(1)) + x) =~= flatten(chunks) + x);
    }
}

/// Concatenates the chunks of a streamed body into one owned buffer, in
/// arrival order.
pub fn concat_chunks(chunks: &Vec<Vec<u8>>) -> (r: Vec<u8>)
    ensures
        r@ == flatten(chunks.deep_view()),
{
    let ghost cs = chunks.deep_view();
    let mut out: Vec<u8> = Vec::new();
    proof {
        assert(out@ =~= flatten(cs.take(0)));
    }
    let n = chunks.len();
    let mut i: usize = 0;
    while i < n
        invariant
            i <= n,
            n == chunks.len(),
            cs == chunks.deep_view(),
            out@ == flatten(cs.take(i as int)),
        decreases n - i,
    {
        let mut piece = slice_to_vec(chunks[i].as_slice());
        proof {
            assert(chunks@[i as int]@ =~= cs[i as int]);
        }
        out.append(&mut piece);
        proof {
            lemma_flatten_snoc(cs.take(i as int), cs[i as int]);
            assert(cs.take(i as int).push(cs[i as int]) =~= cs.take(i as int + 1));
        }
        i += 1;
    }
    proof {
        assert(cs.take(n as int) =~= cs);
    }
    out
}

/// Collects the payload of the first multipart part whose field name is in
/// the accepted set, refusing a payload over `max_bytes` and a body carrying
/// no such part. The whole body is inspected here; no block store is touched.
#[verifier::loop_isolation(false)]
pub fn collect(accepted: &Vec<Vec<u8>>, max_bytes: usize, boundary: &[u8], body: &[u8]) -> (r:
    Result<Vec<u8>, ApiError>)
    ensures
        match r {
            Ok(v) => mp_collect_spec(accepted.deep_view(), max_bytes as nat, boundary@, body@)
                == Ok::<Seq<u8>, ApiError>(v@),
            Err(e) => mp_collect_spec(accepted.deep_view(), max_bytes as nat, boundary@, body@)
                == Err::<Seq<u8>, ApiError>(e),
        },
{
    let ghost names = accepted.deep_view();
    let mut delim: Vec<u8> = Vec::new();
    delim.push(45);
    delim.push(45);
    let mut bvec = slice_to_vec(boundary);
    delim.append(&mut bvec);
    proof {
        assert(delim@ =~= seq![45u8, 45u8] + boundary@);
    }
    let dl = delim.len();
    let n = body.len();
    let mut pos: usize;
    match find_from(body, delim.as_slice(), 0) {
        None => {
            return Err(ApiError::MissingMultipartField);
        },
        Some(p) => {
            pos = p;
        },
    }
    let mut sep: Vec<u8> = Vec::new();
    sep.push(13);
    sep.push(10);
    sep.push(13);
    sep.push(10);
    proof {
        assert(sep@ =~= header_sep());
    }
    let mut cd: Vec<u8> = Vec::new();
    cd.push(13);
    cd.push(10);
    let mut d2 = slice_to_vec(delim.as_slice());
    cd.append(&mut d2);
    proof {
        assert(cd@ =~= seq![13u8, 10u8] + delim@);
    }
    loop
        invariant
            pos + dl <= n,
            n == body@.len(),
            dl == delim@.len(),
            sep@ == header_sep(),
            cd@ == seq![13u8, 10u8] + delim@,
            names == accepted.deep_view(),
            mp_collect_spec(names, max_bytes as nat, boundary@, body@) == mp_scan(
                body@,
                delim@,
                names,
                max_bytes as nat,
                pos as int,
            ),
        decreases n - pos,
    {
        proof {
            assert(pos + dl <= n);
        }
        let after = pos + dl;
        if n - after < 2 {
            return Err(ApiError::MissingMultipartField);
        }
        let b0 = *slice_index_get(body, after);
        let b1 = *slice_index_get(body, after + 1);
        if b0 == 45 && b1 == 45 {
            return Err(ApiError::MissingMultipartField);
        }
        if !(b0 == 13 && b1 == 10) {
            return Err(ApiError::MissingMultipartField);
        }
        let h = match find_from(body, sep.as_slice(), after + 2) {
            None => {
                return Err(ApiError::MissingMultipartField);
            },
            Some(h) => h,
        };
        let c0 = h + 4;
        let e = match find_from(body, cd.as_slice(), c0) {
            None => {
                return Err(ApiError::MissingMultipartField);
            },
            Some(e) => e,
        };
        let headers = slice_subrange(body, after + 2, h);
        let selected = match part_name_exec(headers) {
            Some(nm) => contains_name(accepted, nm),
            None => false,
        };
        if selected {
            if e - c0 <= max_bytes {
                return Ok(slice_to_vec(slice_subrange(body, c0, e)));
            } else {
                return Err(ApiError::PayloadTooLarge);
            }
        }
        proof {
            assert(e + 2 + delim@.len() <= body@.len());
            assert(pos < e + 2);
            assert(mp_scan(body@, delim@, names, max_bytes as nat, pos as int) == mp_scan(
                body@,
                delim@,
                names,
                max_bytes as nat,
                e + 2,
            ));
        }
        pos = e + 2;
    }
}

} // verus!
