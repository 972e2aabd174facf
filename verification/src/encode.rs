use vstd::prelude::*;

verus! {

/// How one character is written inside a JSON string: quote and backslash are
/// escaped, every other character stands as itself.
pub open spec fn json_escaped_char(c: char) -> Seq<char> {
    if c == '"' {
        seq!['\\', '"']
    } else if c == '\\' {
        seq!['\\', '\\']
    } else {
        seq![c]
    }
}

/// A character sequence as it is written inside a JSON string.
pub open spec fn json_escaped(s: Seq<char>) -> Seq<char>
    decreases s.len(),
{
    if s.len() == 0 {
        Seq::empty()
    } else {
        json_escaped_char(s[0]) + json_escaped(s.skip(1))
    }
}

proof fn lemma_json_escaped_snoc(s: Seq<char>, c: char)
    ensures
        json_escaped(s.push(c)) == json_escaped(s) + json_escaped_char(c),
    decreases s.len(),
{
    assert(s.push(c).len() == s.len() + 1);
    assert(s.push(c)[0] == if s.len() == 0 { c } else { s[0] });
    if s.len() == 0 {
        assert(s.push(c).skip(1) =~= Seq::<char>::empty());
        assert(json_escaped(s.push(c)) == json_escaped_char(c) + json_escaped(
            Seq::<char>::empty(),
        ));
        assert(json_escaped_char(c) + json_escaped(Seq::<char>::empty()) =~= json_escaped(s)
            + json_escaped_char(c));
    } else {
        assert(s.push(c).skip(1) =~= s.skip(1).push(c));
        lemma_json_escaped_snoc(s.skip(1), c);
        assert(json_escaped(s.push(c)) == json_escaped_char(s[0]) + (json_escaped(s.skip(1))
            + json_escaped_char(c)));
        assert(json_escaped_char(s[0]) + (json_escaped(s.skip(1)) + json_escaped_char(c))
            =~= json_escaped(s) + json_escaped_char(c));
    }
}

/// Appends `s`, escaped for a JSON string, to `out`.
fn append_json_escaped(out: &mut String, s: &str)
    ensures
        final(out)@ == old(out)@ + json_escaped(s@),
{
    let n = s.unicode_len();
    let mut i: usize = 0;
    while i < n
        invariant
            n == s@.len(),
            i <= n,
            out@ == old(out)@ + json_escaped(s@.take(i as int)),
        decreases n - i,
    {
        let c = s.get_char(i);
        if c == '"' {
            out.append("\\\"");
            proof {
                reveal_strlit("\\\"");
                assert("\\\""@ =~= json_escaped_char(s@[i as int]));
            }
        } else if c == '\\' {
            out.append("\\\\");
            proof {
                reveal_strlit("\\\\");
                assert("\\\\"@ =~= json_escaped_char(s@[i as int]));
            }
        } else {
            out.append(s.substring_char(i, i + 1));
            proof {
                assert(s@.subrange(i as int, i as int + 1) =~= json_escaped_char(s@[i as int]));
            }
        }
        proof {
            lemma_json_escaped_snoc(s@.take(i as int), s@[i as int]);
            assert(s@.take(i as int).push(s@[i as int]) =~= s@.take(i as int + 1));
        }
        i += 1;
    }
    proof {
        assert(s@.take(n as int) =~= s@);
    }
}

/// The decimal digit character for one digit value.
pub open spec fn dec_digit(n: nat) -> char
    recommends
        n < 10,
{
    if n == 0 {
        '0'
    } else if n == 1 {
        '1'
    } else if n == 2 {
        '2'
    } else if n == 3 {
        '3'
    } else if n == 4 {
        '4'
    } else if n == 5 {
        '5'
    } else if n == 6 {
        '6'
    } else if n == 7 {
        '7'
    } else if n == 8 {
        '8'
    } else {
        '9'
    }
}

/// The decimal text of a number, most significant digit first.
pub open spec fn dec_rep(n: nat) -> Seq<char>
    decreases n,
{
    if n < 10 {
        seq![dec_digit(n)]
    } else {
        dec_rep(n / 10) + seq![dec_digit(n % 10)]
    }
}

fn digit_str(d: usize) -> (r: &'static str)
    requires
        d < 10,
    ensures
        r@ == seq![dec_digit(d as nat)],
{
    proof {
        reveal_strlit("0");
        reveal_strlit("1");
        reveal_strlit("2");
        reveal_strlit("3");
        reveal_strlit("4");
        reveal_strlit("5");
        reveal_strlit("6");
        reveal_strlit("7");
        reveal_strlit("8");
        reveal_strlit("9");
        assert("0"@ =~= seq![dec_digit(0)]);
        assert("1"@ =~= seq![dec_digit(1)]);
        assert("2"@ =~= seq![dec_digit(2)]);
        assert("3"@ =~= seq![dec_digit(3)]);
        assert("4"@ =~= seq![dec_digit(4)]);
        assert("5"@ =~= seq![dec_digit(5)]);
        assert("6"@ =~= seq![dec_digit(6)]);
        assert("7"@ =~= seq![dec_digit(7)]);
        assert("8"@ =~= seq![dec_digit(8)]);
        assert("9"@ =~= seq![dec_digit(9)]);
    }
    if d == 0 {
        "0"
    } else if d == 1 {
        "1"
    } else if d == 2 {
        "2"
    } else if d == 3 {
        "3"
    } else if d == 4 {
        "4"
    } else if d == 5 {
        "5"
    } else if d == 6 {
        "6"
    } else if d == 7 {
        "7"
    } else if d == 8 {
        "8"
    } else {
        "9"
    }
}

/// Appends the decimal text of `n` to `out`.
fn append_dec(out: &mut String, n: usize)
    ensures
        final(out)@ == old(out)@ + dec_rep(n as nat),
    decreases n,
{
    if n < 10 {
        out.append(digit_str(n));
    } else {
        append_dec(out, n / 10);
        out.append(digit_str(n % 10));
        proof {
            assert(old(out)@ + dec_rep((n / 10) as nat) + seq![dec_digit((n % 10) as nat)] =~= old(
                out,
            )@ + dec_rep(n as nat));
        }
    }
}

/// One line of a batch removal response: empty under `quiet`, otherwise a
/// newline-terminated JSON record of the error text and the identifier.
pub open spec fn rm_line_spec(hash: Seq<char>, error: Seq<char>, quiet: bool) -> Seq<char> {
    if quiet {
        Seq::empty()
    } else {
        "{\"Error\":\""@ + json_escaped(error) + "\",\"Hash\":\""@ + json_escaped(hash)
            + "\"}\n"@
    }
}

/// Encodes one removal result line.
pub fn encode_rm_line(hash: &str, error: &str, quiet: bool) -> (r: String)
    ensures
        r@ == rm_line_spec(hash@, error@, quiet),
{
    if quiet {
        return String::new();
    }
    let mut out = String::from_str("{\"Error\":\"");
    append_json_escaped(&mut out, error);
    out.append("\",\"Hash\":\"");
    append_json_escaped(&mut out, hash);
    out.append("\"}\n");
    proof {
        assert(out@ =~= rm_line_spec(hash@, error@, false));
    }
    out
}

/// The JSON object reporting an identifier and a byte length, as the put and
/// stat responses carry it.
pub open spec fn key_size_json(key: Seq<char>, size: nat) -> Seq<char> {
    "{\"Key\":\""@ + json_escaped(key) + "\",\"Size\":"@ + dec_rep(size) + "}"@
}

/// Encodes an identifier-and-size response object.
pub fn encode_key_size(key: &str, size: usize) -> (r: String)
    ensures
        r@ == key_size_json(key@, size as nat),
{
    let mut out = String::from_str("{\"Key\":\"");
    append_json_escaped(&mut out, key);
    out.append("\",\"Size\":");
    append_dec(&mut out, size);
    out.append("}");
    proof {
        assert(out@ =~= key_size_json(key@, size as nat));
    }
    out
}

} // verus!
