//! The on-disk form of the configuration: a pretty-printed JSON object with
//! the two string fields `GITHUB_TOKEN` and `REPO_PATH`.
//!
//! `config_json_chars` states the exact text that is written; the parser
//! accepts a JSON object with exactly those two keys (in either order), with
//! the usual JSON whitespace and string escapes. Escaped surrogate pairs are
//! not accepted: characters outside the basic plane must stand as themselves
//! in the UTF-8 text, which is how the writer puts them there.

use vstd::prelude::*;
use vstd::string::*;

verus! {

// ---------------------------------------------------------------------------
// Characters
// ---------------------------------------------------------------------------

/// The whitespace characters that JSON allows between tokens.
pub open spec fn is_ws_char(c: char) -> bool {
    c == ' ' || c == '\n' || c == '\r' || c == '\t'
}

/// A character that stands for itself inside a JSON string literal.
pub open spec fn is_plain_char(c: char) -> bool {
    c != '"' && c != '\\' && (c as u32) >= 0x20
}

/// The lower-case hexadecimal digit for a value below 16.
pub open spec fn hex_digit_char(d: u32) -> char {
    if d == 0 {
        '0'
    } else if d == 1 {
        '1'
    } else if d == 2 {
        '2'
    } else if d == 3 {
        '3'
    } else if d == 4 {
        '4'
    } else if d == 5 {
        '5'
    } else if d == 6 {
        '6'
    } else if d == 7 {
        '7'
    } else if d == 8 {
        '8'
    } else if d == 9 {
        '9'
    } else if d == 10 {
        'a'
    } else if d == 11 {
        'b'
    } else if d == 12 {
        'c'
    } else if d == 13 {
        'd'
    } else if d == 14 {
        'e'
    } else {
        'f'
    }
}

/// The value of a hexadecimal digit; both cases are accepted.
pub open spec fn hex_char_val(c: char) -> Option<u32> {
    if 48 <= (c as u32) && (c as u32) <= 57 {
        Some(((c as u32) - 48) as u32)
    } else if 97 <= (c as u32) && (c as u32) <= 102 {
        Some(((c as u32) - 87) as u32)
    } else if 65 <= (c as u32) && (c as u32) <= 70 {
        Some(((c as u32) - 55) as u32)
    } else {
        None
    }
}

// ---------------------------------------------------------------------------
// Writing
// ---------------------------------------------------------------------------

/// How one character is written inside a JSON string literal: the short
/// escapes for the quote, the backslash and the common control characters,
/// `\u00..` for the remaining control characters, and the character itself
/// otherwise.
pub open spec fn esc_char(c: char) -> Seq<char> {
    if c == '"' {
        seq!['\\', '"']
    } else if c == '\\' {
        seq!['\\', '\\']
    } else if c == '\u{8}' {
        seq!['\\', 'b']
    } else if c == '\t' {
        seq!['\\', 't']
    } else if c == '\n' {
        seq!['\\', 'n']
    } else if c == '\u{c}' {
        seq!['\\', 'f']
    } else if c == '\r' {
        seq!['\\', 'r']
    } else if (c as u32) < 0x20 {
        seq!['\\', 'u', '0', '0', hex_digit_char(((c as u32) / 16) as u32), hex_digit_char(
            ((c as u32) % 16) as u32,
        )]
    } else {
        seq![c]
    }
}

/// A whole string escaped, character by character.
pub open spec fn escape_chars(s: Seq<char>) -> Seq<char>
    decreases s.len(),
{
    if s.len() == 0 {
        Seq::empty()
    } else {
        esc_char(s[0]) + escape_chars(s.skip(1))
    }
}

/// A JSON string literal: the escaped text between two quotes.
pub open spec fn quote_chars(s: Seq<char>) -> Seq<char> {
    seq!['"'] + escape_chars(s) + seq!['"']
}

/// The exact text of the configuration file for the given field values:
/// a pretty-printed JSON object with the two fixed keys.
pub open spec fn config_json_chars(token: Seq<char>, path: Seq<char>) -> Seq<char> {
    "{\n  \"GITHUB_TOKEN\": "@ + quote_chars(token) + ",\n  \"REPO_PATH\": "@ + quote_chars(path)
        + "\n}"@
}

// ---------------------------------------------------------------------------
// Reading
// ---------------------------------------------------------------------------

/// Drops leading JSON whitespace.
pub open spec fn skip_ws_chars(s: Seq<char>) -> Seq<char>
    decreases s.len(),
{
    if s.len() > 0 && is_ws_char(s[0]) {
        skip_ws_chars(s.skip(1))
    } else {
        s
    }
}

/// Puts a decoded prefix in front of a partial parse.
pub open spec fn with_prefix(p: Seq<char>, r: Option<(Seq<char>, Seq<char>)>) -> Option<
    (Seq<char>, Seq<char>),
> {
    match r {
        Some((t, rest)) => Some((p + t, rest)),
        None => None,
    }
}

/// Reads a JSON string body up to and over its closing quote; the opening
/// quote has already been consumed. Returns the decoded text and what
/// follows the closing quote. Raw control characters, unknown escapes and
/// `\u` escapes of surrogate code points are refused.
pub open spec fn parse_string_chars(s: Seq<char>) -> Option<(Seq<char>, Seq<char>)>
    decreases s.len(),
{
    if s.len() == 0 {
        None
    } else if s[0] == '"' {
        Some((Seq::empty(), s.skip(1)))
    } else if s[0] == '\\' {
        if s.len() < 2 {
            None
        } else if s[1] == '"' || s[1] == '\\' || s[1] == '/' {
            with_prefix(seq![s[1]], parse_string_chars(s.skip(2)))
        } else if s[1] == 'b' {
            with_prefix(seq!['\u{8}'], parse_string_chars(s.skip(2)))
        } else if s[1] == 't' {
            with_prefix(seq!['\t'], parse_string_chars(s.skip(2)))
        } else if s[1] == 'n' {
            with_prefix(seq!['\n'], parse_string_chars(s.skip(2)))
        } else if s[1] == 'f' {
            with_prefix(seq!['\u{c}'], parse_string_chars(s.skip(2)))
        } else if s[1] == 'r' {
            with_prefix(seq!['\r'], parse_string_chars(s.skip(2)))
        } else if s[1] == 'u' {
            if s.len() < 6 {
                None
            } else {
                match (hex_char_val(s[2]), hex_char_val(s[3]), hex_char_val(s[4]), hex_char_val(
                    s[5],
                )) {
                    (Some(h0), Some(h1), Some(h2), Some(h3)) => {
                        let code = h0 * 0x1000 + h1 * 0x100 + h2 * 0x10 + h3;
                        if 0xD800 <= code && code < 0xE000 {
                            None
                        } else {
                            with_prefix(
                                seq![(code as u32) as char],
                                parse_string_chars(s.skip(6)),
                            )
                        }
                    },
                    _ => None,
                }
            }
        } else {
            None
        }
    } else if (s[0] as u32) < 0x20 {
        None
    } else {
        with_prefix(seq![s[0]], parse_string_chars(s.skip(1)))
    }
}

/// Reads one `"key": "value"` member, leading whitespace included, and
/// returns the decoded key, the decoded value and what follows the value.
pub open spec fn parse_member_chars(s: Seq<char>) -> Option<((Seq<char>, Seq<char>), Seq<char>)> {
    let w = skip_ws_chars(s);
    if w.len() == 0 || w[0] != '"' {
        None
    } else {
        match parse_string_chars(w.skip(1)) {
            None => None,
            Some((key, x)) => {
                let y = skip_ws_chars(x);
                if y.len() == 0 || y[0] != ':' {
                    None
                } else {
                    let z = skip_ws_chars(y.skip(1));
                    if z.len() == 0 || z[0] != '"' {
                        None
                    } else {
                        match parse_string_chars(z.skip(1)) {
                            None => None,
                            Some((val, rest)) => Some(((key, val), rest)),
                        }
                    }
                }
            },
        }
    }
}

/// Reads a whole configuration document: an object with exactly the members
/// `GITHUB_TOKEN` and `REPO_PATH`, in either order, and nothing but
/// whitespace after the closing brace. Returns the token and the path.
pub open spec fn spec_parse_config(s: Seq<char>) -> Option<(Seq<char>, Seq<char>)> {
    let u = skip_ws_chars(s);
    if u.len() == 0 || u[0] != '{' {
        None
    } else {
        match parse_member_chars(u.skip(1)) {
            None => None,
            Some(((k1, v1), r1)) => {
                let a = skip_ws_chars(r1);
                if a.len() == 0 || a[0] != ',' {
                    None
                } else {
                    match parse_member_chars(a.skip(1)) {
                        None => None,
                        Some(((k2, v2), r2)) => {
                            let b = skip_ws_chars(r2);
                            if b.len() == 0 || b[0] != '}' {
                                None
                            } else if skip_ws_chars(b.skip(1)).len() != 0 {
                                None
                            } else if k1 == "GITHUB_TOKEN"@ && k2 == "REPO_PATH"@ {
                                Some((v1, v2))
                            } else if k1 == "REPO_PATH"@ && k2 == "GITHUB_TOKEN"@ {
                                Some((v2, v1))
                            } else {
                                None
                            }
                        },
                    }
                }
            },
        }
    }
}

// ---------------------------------------------------------------------------
// Lemmas about escaping
// ---------------------------------------------------------------------------

/// Escaping one character alone gives exactly its escape sequence.
proof fn lemma_escape_singleton(c: char)
    ensures
        escape_chars(seq![c]) == esc_char(c),
{
    let s = seq![c];
    assert(s.skip(1) =~= Seq::<char>::empty());
    assert(esc_char(c) + escape_chars(s.skip(1)) =~= esc_char(c));
}

/// Escaping distributes over concatenation.
proof fn lemma_escape_concat(a: Seq<char>, b: Seq<char>)
    ensures
        escape_chars(a + b) == escape_chars(a) + escape_chars(b),
    decreases a.len(),
{
    if a.len() == 0 {
        assert(a + b =~= b);
        assert(escape_chars(a) + escape_chars(b) =~= escape_chars(b));
    } else {
        assert((a + b)[0] == a[0]);
        assert((a + b).skip(1) =~= a.skip(1) + b);
        lemma_escape_concat(a.skip(1), b);
        assert(esc_char(a[0]) + (escape_chars(a.skip(1)) + escape_chars(b)) =~= (esc_char(a[0])
            + escape_chars(a.skip(1))) + escape_chars(b));
    }
}

/// A string of plain characters is its own escaped form.
proof fn lemma_escape_plain(s: Seq<char>)
    requires
        forall|i: int| 0 <= i < s.len() ==> is_plain_char(#[trigger] s[i]),
    ensures
        escape_chars(s) == s,
    decreases s.len(),
{
    if s.len() > 0 {
        assert(esc_char(s[0]) =~= seq![s[0]]);
        lemma_escape_plain(s.skip(1));
        assert(seq![s[0]] + s.skip(1) =~= s);
    }
}

// ---------------------------------------------------------------------------
// Writing, executable
// ---------------------------------------------------------------------------

/// The lower-case hexadecimal digit for a value below 16.
fn hex_digit(d: u32) -> (c: char)
    requires
        d < 16,
    ensures
        c == hex_digit_char(d),
{
    if d == 0 {
        '0'
    } else if d == 1 {
        '1'
    } else if d == 2 {
        '2'
    } else if d == 3 {
        '3'
    } else if d == 4 {
        '4'
    } else if d == 5 {
        '5'
    } else if d == 6 {
        '6'
    } else if d == 7 {
        '7'
    } else if d == 8 {
        '8'
    } else if d == 9 {
        '9'
    } else if d == 10 {
        'a'
    } else if d == 11 {
        'b'
    } else if d == 12 {
        'c'
    } else if d == 13 {
        'd'
    } else if d == 14 {
        'e'
    } else {
        'f'
    }
}

/// Appends the escaped form of one character.
fn append_escaped_char(out: &mut String, c: char)
    ensures
        final(out)@ == old(out)@ + esc_char(c),
{
    if c == '"' {
        push_char(out, '\\');
        push_char(out, '"');
        assert(out@ =~= old(out)@ + esc_char(c));
    } else if c == '\\' {
        push_char(out, '\\');
        push_char(out, '\\');
        assert(out@ =~= old(out)@ + esc_char(c));
    } else if c == '\u{8}' {
        push_char(out, '\\');
        push_char(out, 'b');
        assert(out@ =~= old(out)@ + esc_char(c));
    } else if c == '\t' {
        push_char(out, '\\');
        push_char(out, 't');
        assert(out@ =~= old(out)@ + esc_char(c));
    } else if c == '\n' {
        push_char(out, '\\');
        push_char(out, 'n');
        assert(out@ =~= old(out)@ + esc_char(c));
    } else if c == '\u{c}' {
        push_char(out, '\\');
        push_char(out, 'f');
        assert(out@ =~= old(out)@ + esc_char(c));
    } else if c == '\r' {
        push_char(out, '\\');
        push_char(out, 'r');
        assert(out@ =~= old(out)@ + esc_char(c));
    } else if (c as u32) < 0x20 {
        let u = c as u32;
        push_char(out, '\\');
        push_char(out, 'u');
        push_char(out, '0');
        push_char(out, '0');
        push_char(out, hex_digit(u / 16));
        push_char(out, hex_digit(u % 16));
        assert(out@ =~= old(out)@ + esc_char(c));
    } else {
        push_char(out, c);
        assert(out@ =~= old(out)@ + esc_char(c));
    }
}

/// Appends a string as a JSON string literal, quotes included.
fn append_quoted(out: &mut String, s: &str)
    ensures
        final(out)@ == old(out)@ + quote_chars(s@),
{
    push_char(out, '"');
    assert(out@ =~= old(out)@ + seq!['"'] + escape_chars(s@.take(0)));
    let n = s.unicode_len();
    let mut i: usize = 0;
    while i < n
        invariant
            n == s@.len(),
            i <= n,
            out@ == old(out)@ + seq!['"'] + escape_chars(s@.take(i as int)),
        decreases n - i,
    {
        let c = s.get_char(i);
        append_escaped_char(out, c);
        proof {
            assert(s@.take(i + 1) =~= s@.take(i as int) + seq![s@[i as int]]);
            lemma_escape_concat(s@.take(i as int), seq![s@[i as int]]);
            lemma_escape_singleton(s@[i as int]);
            assert(out@ =~= old(out)@ + seq!['"'] + escape_chars(s@.take(i + 1)));
        }
        i = i + 1;
    }
    push_char(out, '"');
    proof {
        assert(s@.take(n as int) =~= s@);
        assert(out@ =~= old(out)@ + quote_chars(s@));
    }
}

/// Writes the configuration file text for the given field values.
pub fn config_to_json(token: &str, path: &str) -> (r: String)
    ensures
        r@ == config_json_chars(token@, path@),
{
    let mut out = String::new();
    out.append("{\n  \"GITHUB_TOKEN\": ");
    append_quoted(&mut out, token);
    out.append(",\n  \"REPO_PATH\": ");
    append_quoted(&mut out, path);
    out.append("\n}");
    proof {
        assert(out@ =~= config_json_chars(token@, path@));
    }
    out
}

// ---------------------------------------------------------------------------
// Reading, executable
// ---------------------------------------------------------------------------

/// The characters of a string, one by one.
fn chars_of(s: &str) -> (v: Vec<char>)
    ensures
        v@ == s@,
{
    let n = s.unicode_len();
    let mut v: Vec<char> = Vec::new();
    let mut i: usize = 0;
    while i < n
        invariant
            n == s@.len(),
            i <= n,
            v@ == s@.take(i as int),
        decreases n - i,
    {
        v.push(s.get_char(i));
        proof {
            assert(v@ =~= s@.take(i + 1));
        }
        i = i + 1;
    }
    proof {
        assert(v@ =~= s@);
    }
    v
}

fn is_ws(c: char) -> (r: bool)
    ensures
        r == is_ws_char(c),
{
    c == ' ' || c == '\n' || c == '\r' || c == '\t'
}

/// The first position at or after `i` that does not hold JSON whitespace.
fn skip_ws(v: &Vec<char>, i: usize) -> (j: usize)
    requires
        i <= v@.len(),
    ensures
        i <= j <= v@.len(),
        skip_ws_chars(v@.skip(i as int)) == v@.skip(j as int),
{
    let mut j: usize = i;
    while j < v.len() && is_ws(v[j])
        invariant
            i <= j <= v@.len(),
            skip_ws_chars(v@.skip(i as int)) == skip_ws_chars(v@.skip(j as int)),
        decreases v@.len() - j,
    {
        proof {
            assert(v@.skip(j as int)[0] == v@[j as int]);
            assert(v@.skip(j as int).skip(1) =~= v@.skip(j + 1));
        }
        j = j + 1;
    }
    proof {
        if j < v@.len() {
            assert(v@.skip(j as int)[0] == v@[j as int]);
        }
        assert(skip_ws_chars(v@.skip(j as int)) == v@.skip(j as int));
    }
    j
}

/// The value of a hexadecimal digit; both cases are accepted.
fn hex_val(c: char) -> (r: Option<u32>)
    ensures
        r == hex_char_val(c),
{
    let u = c as u32;
    if 48 <= u && u <= 57 {
        Some(u - 48)
    } else if 97 <= u && u <= 102 {
        Some(u - 87)
    } else if 65 <= u && u <= 70 {
        Some(u - 55)
    } else {
        None
    }
}

/// Reads a JSON string body starting right after its opening quote, at
/// position `i`; returns the decoded text and the position after the
/// closing quote.
#[verifier::rlimit(50)]
fn parse_string(v: &Vec<char>, i: usize) -> (r: Option<(String, usize)>)
    requires
        i <= v@.len(),
    ensures
        match r {
            Some(tj) => i <= tj.1 <= v@.len() && parse_string_chars(v@.skip(i as int)) == Some(
                (tj.0@, v@.skip(tj.1 as int)),
            ),
            None => parse_string_chars(v@.skip(i as int)) is None,
        },
{
    let ghost orig = v@.skip(i as int);
    let mut acc = String::new();
    let mut cur: usize = i;
    loop
        invariant
            i <= cur <= v@.len(),
            orig == v@.skip(i as int),
            parse_string_chars(orig) == with_prefix(acc@, parse_string_chars(v@.skip(cur as int))),
        decreases v@.len() - cur,
    {
        let ghost u = v@.skip(cur as int);
        if cur == v.len() {
            return None;
        }
        proof {
            assert(u[0] == v@[cur as int]);
        }
        let c = v[cur];
        if c == '"' {
            proof {
                assert(u.skip(1) =~= v@.skip(cur + 1));
                assert(acc@ + Seq::<char>::empty() =~= acc@);
            }
            return Some((acc, cur + 1));
        } else if c == '\\' {
            if cur + 1 == v.len() {
                return None;
            }
            proof {
                assert(u[1] == v@[cur + 1]);
            }
            let e = v[cur + 1];
            let decoded: char;
            if e == '"' || e == '\\' || e == '/' {
                decoded = e;
            } else if e == 'b' {
                decoded = '\u{8}';
            } else if e == 't' {
                decoded = '\t';
            } else if e == 'n' {
                decoded = '\n';
            } else if e == 'f' {
                decoded = '\u{c}';
            } else if e == 'r' {
                decoded = '\r';
            } else if e == 'u' {
                if v.len() - cur < 6 {
                    return None;
                }
                proof {
                    assert(u[2] == v@[cur + 2]);
                    assert(u[3] == v@[cur + 3]);
                    assert(u[4] == v@[cur + 4]);
                    assert(u[5] == v@[cur + 5]);
                }
                let h0 = hex_val(v[cur + 2]);
                let h1 = hex_val(v[cur + 3]);
                let h2 = hex_val(v[cur + 4]);
                let h3 = hex_val(v[cur + 5]);
                match (h0, h1, h2, h3) {
                    (Some(a), Some(b), Some(cc), Some(d)) => {
                        let code: u32 = a * 0x1000 + b * 0x100 + cc * 0x10 + d;
                        if 0xD800 <= code && code < 0xE000 {
                            return None;
                        }
                        proof {
                            assert(a <= 15 && b <= 15 && cc <= 15 && d <= 15);
                            assert(code <= 0xFFFF);
                        }
                        match char_from_u32(code) {
                            Some(ch) => {
                                let ghost acc0 = acc@;
                                push_char(&mut acc, ch);
                                proof {
                                    vstd::utf8::char_u32_cast(ch, code);
                                    assert(u.skip(6) =~= v@.skip(cur + 6));
                                    assert(acc@ =~= acc0 + seq![ch]);
                                    lemma_with_prefix_assoc(
                                        acc0,
                                        seq![ch],
                                        parse_string_chars(v@.skip(cur + 6)),
                                    );
                                }
                                cur = cur + 6;
                            },
                            None => {
                                proof {
                                    assert(false);
                                }
                                return None;
                            },
                        }
                        continue;
                    },
                    _ => {
                        return None;
                    },
                }
            } else {
                return None;
            }
            let ghost acc0 = acc@;
            push_char(&mut acc, decoded);
            proof {
                assert(u.skip(2) =~= v@.skip(cur + 2));
                assert(acc@ =~= acc0 + seq![decoded]);
                lemma_with_prefix_assoc(acc0, seq![decoded], parse_string_chars(v@.skip(cur + 2)));
            }
            cur = cur + 2;
        } else if (c as u32) < 0x20 {
            return None;
        } else {
            let ghost acc0 = acc@;
            push_char(&mut acc, c);
            proof {
                assert(u.skip(1) =~= v@.skip(cur + 1));
                assert(acc@ =~= acc0 + seq![c]);
                lemma_with_prefix_assoc(acc0, seq![c], parse_string_chars(v@.skip(cur + 1)));
            }
            cur = cur + 1;
        }
    }
}

/// Prefixing twice is prefixing with the concatenation.
proof fn lemma_with_prefix_assoc(a: Seq<char>, b: Seq<char>, r: Option<(Seq<char>, Seq<char>)>)
    ensures
        with_prefix(a, with_prefix(b, r)) == with_prefix(a + b, r),
{
    match r {
        Some((t, rest)) => {
            assert(a + (b + t) =~= (a + b) + t);
        },
        None => {
        },
    }
}

/// Reads one `"key": "value"` member starting at position `i`; returns the
/// decoded key and value and the position after the value.
fn parse_member(v: &Vec<char>, i: usize) -> (r: Option<((String, String), usize)>)
    requires
        i <= v@.len(),
    ensures
        match r {
            Some(kvj) => i <= kvj.1 <= v@.len() && parse_member_chars(v@.skip(i as int)) == Some(
                ((kvj.0.0@, kvj.0.1@), v@.skip(kvj.1 as int)),
            ),
            None => parse_member_chars(v@.skip(i as int)) is None,
        },
{
    let j1 = skip_ws(v, i);
    if j1 == v.len() {
        return None;
    }
    proof {
        assert(v@.skip(j1 as int)[0] == v@[j1 as int]);
    }
    if v[j1] != '"' {
        return None;
    }
    proof {
        assert(v@.skip(j1 as int).skip(1) =~= v@.skip(j1 + 1));
    }
    let ps1 = parse_string(v, j1 + 1);
    match ps1 {
        None => None,
        Some((key, j2)) => {
            let j3 = skip_ws(v, j2);
            if j3 == v.len() {
                return None;
            }
            proof {
                assert(v@.skip(j3 as int)[0] == v@[j3 as int]);
            }
            if v[j3] != ':' {
                return None;
            }
            proof {
                assert(v@.skip(j3 as int).skip(1) =~= v@.skip(j3 + 1));
            }
            let j4 = skip_ws(v, j3 + 1);
            if j4 == v.len() {
                return None;
            }
            proof {
                assert(v@.skip(j4 as int)[0] == v@[j4 as int]);
            }
            if v[j4] != '"' {
                return None;
            }
            proof {
                assert(v@.skip(j4 as int).skip(1) =~= v@.skip(j4 + 1));
            }
            let ps2 = parse_string(v, j4 + 1);
            match ps2 {
                None => None,
                Some((val, j5)) => Some(((key, val), j5)),
            }
        },
    }
}

/// Reads a whole configuration document and returns the token and the path,
/// exactly as `spec_parse_config` says.
pub fn config_from_json(s: &str) -> (r: Option<(String, String)>)
    ensures
        match spec_parse_config(s@) {
            Some(tp) => r matches Some(x) && x.0@ == tp.0 && x.1@ == tp.1,
            None => r is None,
        },
{
    let v = chars_of(s);
    proof {
        assert(v@.skip(0) =~= s@);
    }
    let j0 = skip_ws(&v, 0);
    if j0 == v.len() {
        return None;
    }
    proof {
        assert(v@.skip(j0 as int)[0] == v@[j0 as int]);
    }
    if v[j0] != '{' {
        return None;
    }
    proof {
        assert(v@.skip(j0 as int).skip(1) =~= v@.skip(j0 + 1));
    }
    let m1 = parse_member(&v, j0 + 1);
    match m1 {
        None => None,
        Some(((k1, v1), r1)) => {
            let ja = skip_ws(&v, r1);
            if ja == v.len() {
                return None;
            }
            proof {
                assert(v@.skip(ja as int)[0] == v@[ja as int]);
            }
            if v[ja] != ',' {
                return None;
            }
            proof {
                assert(v@.skip(ja as int).skip(1) =~= v@.skip(ja + 1));
            }
            let m2 = parse_member(&v, ja + 1);
            match m2 {
                None => None,
                Some(((k2, v2), r2)) => {
                    let jb = skip_ws(&v, r2);
                    if jb == v.len() {
                        return None;
                    }
                    proof {
                        assert(v@.skip(jb as int)[0] == v@[jb as int]);
                    }
                    if v[jb] != '}' {
                        return None;
                    }
                    proof {
                        assert(v@.skip(jb as int).skip(1) =~= v@.skip(jb + 1));
                    }
                    let je = skip_ws(&v, jb + 1);
                    if je != v.len() {
                        proof {
                            assert(v@.skip(je as int).len() != 0);
                        }
                        return None;
                    }
                    proof {
                        assert(v@.skip(je as int).len() == 0);
                    }
                    let gt_key: String = "GITHUB_TOKEN".to_owned();
                    let rp_key: String = "REPO_PATH".to_owned();
                    if k1 == gt_key && k2 == rp_key {
                        Some((v1, v2))
                    } else if k1 == rp_key && k2 == gt_key {
                        Some((v2, v1))
                    } else {
                        None
                    }
                },
            }
        },
    }
}

// ---------------------------------------------------------------------------
// The round-trip law
// ---------------------------------------------------------------------------

proof fn lemma_skip_ws_step(s: Seq<char>)
    requires
        s.len() > 0,
        is_ws_char(s[0]),
    ensures
        skip_ws_chars(s) == skip_ws_chars(s.skip(1)),
{
}

proof fn lemma_skip_ws_stop(s: Seq<char>)
    requires
        s.len() == 0 || !is_ws_char(s[0]),
    ensures
        skip_ws_chars(s) == s,
{
}

/// Reading back a written hexadecimal digit gives the value again.
proof fn lemma_hex_round(d: u32)
    requires
        d < 16,
    ensures
        hex_char_val(hex_digit_char(d)) == Some(d),
{
}

/// Reading a written string body undoes the escaping: for any text
/// and any continuation, the parser takes the escaped text up to the closing
/// quote and decodes it to the text itself.
proof fn lemma_parse_escaped(s: Seq<char>, rest: Seq<char>)
    ensures
        parse_string_chars(escape_chars(s) + seq!['"'] + rest) == Some((s, rest)),
    decreases s.len(),
{
    if s.len() == 0 {
        let u = escape_chars(s) + seq!['"'] + rest;
        assert(u =~= seq!['"'] + rest);
        assert(u[0] == '"');
        assert(u.skip(1) =~= rest);
        assert(Seq::<char>::empty() =~= s);
    } else {
        let c = s[0];
        let tail = escape_chars(s.skip(1)) + seq!['"'] + rest;
        lemma_parse_escaped(s.skip(1), rest);
        let u = escape_chars(s) + seq!['"'] + rest;
        assert(u =~= esc_char(c) + tail);
        assert(seq![c] + s.skip(1) =~= s);
        if c == '"' || c == '\\' {
            assert(u[0] == '\\' && u[1] == c);
            assert(u.skip(2) =~= tail);
        } else if c == '\u{8}' {
            assert(u[0] == '\\' && u[1] == 'b');
            assert(u.skip(2) =~= tail);
        } else if c == '\t' {
            assert(u[0] == '\\' && u[1] == 't');
            assert(u.skip(2) =~= tail);
        } else if c == '\n' {
            assert(u[0] == '\\' && u[1] == 'n');
            assert(u.skip(2) =~= tail);
        } else if c == '\u{c}' {
            assert(u[0] == '\\' && u[1] == 'f');
            assert(u.skip(2) =~= tail);
        } else if c == '\r' {
            assert(u[0] == '\\' && u[1] == 'r');
            assert(u.skip(2) =~= tail);
        } else if (c as u32) < 0x20 {
            let hi = ((c as u32) / 16) as u32;
            let lo = ((c as u32) % 16) as u32;
            assert(u[0] == '\\' && u[1] == 'u' && u[2] == '0' && u[3] == '0');
            assert(u[4] == hex_digit_char(hi) && u[5] == hex_digit_char(lo));
            assert(hex_char_val('0') == Some(0u32));
            lemma_hex_round(hi);
            lemma_hex_round(lo);
            assert(hi * 0x10 + lo == c as u32) by {
                vstd::arithmetic::div_mod::lemma_fundamental_div_mod(c as u32 as int, 16);
            }
            vstd::utf8::char_u32_cast(c, c as u32);
            assert(u.skip(6) =~= tail);
        } else {
            assert(u[0] == c);
            assert(u.skip(1) =~= tail);
        }
    }
}

/// Reading a written member of the pretty-printed object gives its key and
/// value back, for a key of plain characters.
#[verifier::rlimit(100)]
proof fn lemma_parse_member_pretty(key: Seq<char>, val: Seq<char>, rest: Seq<char>)
    requires
        key.len() > 0,
        forall|i: int| 0 <= i < key.len() ==> is_plain_char(#[trigger] key[i]),
    ensures
        parse_member_chars(
            seq!['\n', ' ', ' ', '"'] + key + seq!['"', ':', ' '] + quote_chars(val) + rest,
        ) == Some(((key, val), rest)),
{
    let s = seq!['\n', ' ', ' ', '"'] + key + seq!['"', ':', ' '] + quote_chars(val) + rest;
    let after_colon = seq![' '] + quote_chars(val) + rest;
    let x = seq![':'] + after_colon;
    let w = seq!['"'] + key + seq!['"'] + x;
    lemma_skip_ws_step(s);
    assert(s.skip(1) =~= seq![' ', ' ', '"'] + key + seq!['"', ':', ' '] + quote_chars(val)
        + rest);
    lemma_skip_ws_step(s.skip(1));
    assert(s.skip(1).skip(1) =~= seq![' ', '"'] + key + seq!['"', ':', ' '] + quote_chars(val)
        + rest);
    lemma_skip_ws_step(s.skip(1).skip(1));
    assert(s.skip(1).skip(1).skip(1) =~= w);
    lemma_skip_ws_stop(w);
    assert(skip_ws_chars(s) == w);
    assert(w[0] == '"');
    lemma_escape_plain(key);
    lemma_parse_escaped(key, x);
    assert(w.skip(1) =~= escape_chars(key) + seq!['"'] + x);
    assert(parse_string_chars(w.skip(1)) == Some((key, x)));
    lemma_skip_ws_stop(x);
    assert(x[0] == ':');
    assert(x.skip(1) =~= after_colon);
    lemma_skip_ws_step(after_colon);
    assert(after_colon.skip(1) =~= quote_chars(val) + rest);
    lemma_skip_ws_stop(quote_chars(val) + rest);
    let z = quote_chars(val) + rest;
    assert(z[0] == '"');
    lemma_parse_escaped(val, rest);
    assert(z.skip(1) =~= escape_chars(val) + seq!['"'] + rest);
    assert(parse_string_chars(z.skip(1)) == Some((val, rest)));
}

/// The round-trip law: the text that `config_to_json` writes for any pair of
/// field values is read back by the parser as exactly that pair. Saving a
/// configuration and loading it again therefore yields an equal
/// configuration.
pub proof fn lemma_save_load_round_trip(token: Seq<char>, path: Seq<char>)
    ensures
        spec_parse_config(config_json_chars(token, path)) == Some((token, path)),
{
    reveal_strlit("{\n  \"GITHUB_TOKEN\": ");
    reveal_strlit(",\n  \"REPO_PATH\": ");
    reveal_strlit("\n}");
    reveal_strlit("GITHUB_TOKEN");
    reveal_strlit("REPO_PATH");
    let gt = "GITHUB_TOKEN"@;
    let rp = "REPO_PATH"@;
    assert(gt.len() == 12);
    assert(rp.len() == 9);
    assert(forall|i: int| 0 <= i < gt.len() ==> is_plain_char(#[trigger] gt[i]));
    assert(forall|i: int| 0 <= i < rp.len() ==> is_plain_char(#[trigger] rp[i]));
    let s = config_json_chars(token, path);
    let l3 = seq!['\n', '}'];
    let rest1 = ",\n  \"REPO_PATH\": "@ + quote_chars(path) + "\n}"@;
    assert(s[0] == '{');
    lemma_skip_ws_stop(s);
    lemma_parse_member_pretty(gt, token, rest1);
    assert(s.skip(1) =~= seq!['\n', ' ', ' ', '"'] + gt + seq!['"', ':', ' '] + quote_chars(token)
        + rest1);
    assert(parse_member_chars(s.skip(1)) == Some(((gt, token), rest1)));
    lemma_skip_ws_stop(rest1);
    assert(rest1[0] == ',');
    lemma_parse_member_pretty(rp, path, l3);
    assert(rest1.skip(1) =~= seq!['\n', ' ', ' ', '"'] + rp + seq!['"', ':', ' '] + quote_chars(
        path,
    ) + l3);
    assert(parse_member_chars(rest1.skip(1)) == Some(((rp, path), l3)));
    lemma_skip_ws_step(l3);
    assert(l3.skip(1) =~= seq!['}']);
    lemma_skip_ws_stop(seq!['}']);
    assert(skip_ws_chars(l3) == seq!['}']);
    assert(seq!['}'].skip(1) =~= Seq::<char>::empty());
    lemma_skip_ws_stop(Seq::<char>::empty());
    assert(spec_parse_config(s) == Some((token, path)));
}

// ---------------------------------------------------------------------------
// Trusted items
// ---------------------------------------------------------------------------

/// Relies on String::push: appends exactly the given character.
#[verifier::external_body]
pub(crate) fn push_char(s: &mut String, c: char)
    ensures
        final(s)@ == old(s)@.push(c),
{
    s.push(c);
}

/// Relies on char::from_u32: `Some` exactly when the number is a Unicode
/// scalar value (not a surrogate, not above the largest code point), and the
/// character then casts back to the same number.
#[verifier::external_body]
fn char_from_u32(v: u32) -> (r: Option<char>)
    ensures
        r matches Some(c) ==> c as u32 == v,
        r is None <==> (0xD800 <= v && v < 0xE000) || v > 0x10FFFF,
{
    char::from_u32(v)
}

} // verus!
