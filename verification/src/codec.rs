//! The registry's persisted form: one structured text document holding an
//! object with a single `projects` member that maps each project name to
//! its `{name, db_uri}` record. Saving renders a canonical pretty-printed
//! document; loading accepts any document of that shape — with arbitrary
//! whitespace between tokens, the record's two members in either order,
//! and the full string-escape set — and parsing the rendered form of a
//! well-formed registry reproduces it exactly.

use vstd::prelude::*;

use crate::config::JabConfig;
use crate::config::ProjectConfig;
use crate::config::ProjectConfigV;
use crate::config::unique_names;

verus! {

/// Malformed persisted registry content, distinct from an I/O failure so
/// a caller can tell a missing file from a corrupt one.
#[derive(Clone, Copy, Debug, PartialEq, Eq)]
pub struct ParseError;

/// The lower-case hexadecimal digit of a value below sixteen.
pub open spec fn hex_digit(n: int) -> char {
    if n == 0 {
        '0'
    } else if n == 1 {
        '1'
    } else if n == 2 {
        '2'
    } else if n == 3 {
        '3'
    } else if n == 4 {
        '4'
    } else if n == 5 {
        '5'
    } else if n == 6 {
        '6'
    } else if n == 7 {
        '7'
    } else if n == 8 {
        '8'
    } else if n == 9 {
        '9'
    } else if n == 10 {
        'a'
    } else if n == 11 {
        'b'
    } else if n == 12 {
        'c'
    } else if n == 13 {
        'd'
    } else if n == 14 {
        'e'
    } else {
        'f'
    }
}

/// How one character is written inside a string literal of the document:
/// quote and backslash get a backslash, the named control characters get
/// their short escapes, any other control character a four-digit escape,
/// and everything else stands for itself.
pub open spec fn esc_char(c: char) -> Seq<char> {
    if c == '"' {
        seq!['\\', '"']
    } else if c == '\\' {
        seq!['\\', '\\']
    } else if c == '\n' {
        seq!['\\', 'n']
    } else if c == '\r' {
        seq!['\\', 'r']
    } else if c == '\t' {
        seq!['\\', 't']
    } else if c == '\u{8}' {
        seq!['\\', 'b']
    } else if c == '\u{c}' {
        seq!['\\', 'f']
    } else if (c as u32) < 0x20 {
        seq!['\\', 'u', '0', '0', hex_digit(((c as u32) as int) / 16), hex_digit(
            ((c as u32) as int) % 16,
        )]
    } else {
        seq![c]
    }
}

/// The escaped body of a string literal of the document.
pub open spec fn esc(s: Seq<char>) -> Seq<char>
    decreases s.len(),
{
    if s.len() == 0 {
        Seq::empty()
    } else {
        esc_char(s[0]) + esc(s.subrange(1, s.len() as int))
    }
}

/// A string literal of the document: the escaped body between quotes.
#[verifier::opaque]
pub open spec fn quoted(s: Seq<char>) -> Seq<char> {
    seq!['"'] + esc(s) + seq!['"']
}

/// One rendered member: a quoted key, a colon and a space, a quoted value.
#[verifier::opaque]
pub open spec fn render_member(k: Seq<char>, v: Seq<char>) -> Seq<char> {
    quoted(k) + ": "@ + quoted(v)
}

/// One rendered record: the name member, then the connection string.
#[verifier::opaque]
pub open spec fn render_record(c: ProjectConfigV) -> Seq<char> {
    "{\n      "@ + render_member("name"@, c.name) + ",\n      "@ + render_member(
        "db_uri"@,
        c.db_uri,
    ) + "\n    }"@
}

/// One rendered entry without its leading indentation: the project's name
/// as the key, then its record.
#[verifier::opaque]
pub open spec fn entry_body(c: ProjectConfigV) -> Seq<char> {
    quoted(c.name) + ": "@ + render_record(c)
}

/// One rendered entry, indented.
pub open spec fn render_entry(c: ProjectConfigV) -> Seq<char> {
    "    "@ + entry_body(c)
}

/// The rendered entries in registry order, separated by a comma and a
/// line break.
pub open spec fn render_entries(s: Seq<ProjectConfigV>) -> Seq<char>
    decreases s.len(),
{
    if s.len() == 0 {
        Seq::empty()
    } else if s.len() == 1 {
        render_entry(s[0])
    } else {
        render_entry(s[0]) + ",\n"@ + render_entries(s.subrange(1, s.len() as int))
    }
}

/// The entry bodies as the parser walks them: joined by a comma, a line
/// break and the next entry's indentation.
pub open spec fn entry_bodies(s: Seq<ProjectConfigV>) -> Seq<char>
    decreases s.len(),
{
    if s.len() == 0 {
        Seq::empty()
    } else if s.len() == 1 {
        entry_body(s[0])
    } else {
        entry_body(s[0]) + ",\n    "@ + entry_bodies(s.subrange(1, s.len() as int))
    }
}

/// The whole rendered document.
pub open spec fn spec_render(s: Seq<ProjectConfigV>) -> Seq<char> {
    if s.len() == 0 {
        "{\n  "@ + quoted("projects"@) + ": {}\n}"@
    } else {
        "{\n  "@ + quoted("projects"@) + ": {\n"@ + render_entries(s) + "\n  }\n}"@
    }
}

/// The views of a sequence of stored records.
pub open spec fn configs_view(v: Seq<ProjectConfig>) -> Seq<ProjectConfigV> {
    Seq::new(v.len(), |i: int| v[i]@)
}

/// The whitespace the document may carry between tokens.
pub open spec fn is_ws(c: char) -> bool {
    c == ' ' || c == '\n' || c == '\t' || c == '\r'
}

/// The first position at or after `i` holding a non-whitespace character,
/// or the end of the input.
pub open spec fn skip_ws(s: Seq<char>, i: int) -> int
    decreases s.len() - i,
{
    if 0 <= i && i < s.len() && is_ws(s[i]) {
        skip_ws(s, i + 1)
    } else {
        i
    }
}

/// The value of one hexadecimal digit, upper or lower case.
pub open spec fn hex_val(c: char) -> Option<int> {
    let u = (c as u32) as int;
    if 48 <= u && u <= 57 {
        Some(u - 48)
    } else if 97 <= u && u <= 102 {
        Some(u - 87)
    } else if 65 <= u && u <= 70 {
        Some(u - 55)
    } else {
        None
    }
}

/// The value of four hexadecimal digits at position `i`.
pub open spec fn hex4(s: Seq<char>, i: int) -> Option<int> {
    if i < 0 || i + 4 > s.len() {
        None
    } else {
        match (hex_val(s[i]), hex_val(s[i + 1]), hex_val(s[i + 2]), hex_val(s[i + 3])) {
            (Some(a), Some(b), Some(c), Some(d)) => Some(a * 0x1000 + b * 0x100 + c * 0x10 + d),
            _ => None,
        }
    }
}

/// The character a short escape stands for.
pub open spec fn short_escape(e: char) -> char {
    if e == 'n' {
        '\n'
    } else if e == 'r' {
        '\r'
    } else if e == 't' {
        '\t'
    } else if e == 'b' {
        '\u{8}'
    } else {
        '\u{c}'
    }
}

/// The body of a string literal from position `i` up to its closing
/// quote: the unescaped characters and the position after the quote.
/// Accepts the full escape set — `\"`, `\\`, `\/`, `\n`, `\r`, `\t`,
/// `\b`, `\f`, `\uXXXX` with surrogate pairs — and rejects unescaped
/// control characters and unpaired surrogates.
#[verifier::opaque]
pub open spec fn parse_str_body(s: Seq<char>, i: int) -> Option<(Seq<char>, int)>
    decreases s.len() - i,
{
    if i < 0 || i >= s.len() {
        None
    } else if s[i] == '"' {
        Some((Seq::empty(), i + 1))
    } else if s[i] == '\\' {
        if i + 1 >= s.len() {
            None
        } else {
            let e = s[i + 1];
            if e == '"' || e == '\\' || e == '/' {
                match parse_str_body(s, i + 2) {
                    Some(r) => Some((seq![e] + r.0, r.1)),
                    None => None,
                }
            } else if e == 'n' || e == 'r' || e == 't' || e == 'b' || e == 'f' {
                match parse_str_body(s, i + 2) {
                    Some(r) => Some((seq![short_escape(e)] + r.0, r.1)),
                    None => None,
                }
            } else if e == 'u' {
                match hex4(s, i + 2) {
                    None => None,
                    Some(hi) => if hi < 0xD800 || hi >= 0xE000 {
                        match parse_str_body(s, i + 6) {
                            Some(r) => Some((seq![((hi as u32) as char)] + r.0, r.1)),
                            None => None,
                        }
                    } else if hi < 0xDC00 {
                        if i + 8 <= s.len() && s[i + 6] == '\\' && s[i + 7] == 'u' {
                            match hex4(s, i + 8) {
                                None => None,
                                Some(lo) => if 0xDC00 <= lo && lo < 0xE000 {
                                    match parse_str_body(s, i + 12) {
                                        Some(r) => Some(
                                            (
                                                seq![(((0x10000 + (hi - 0xD800) * 0x400 + (lo
                                                    - 0xDC00)) as u32) as char)] + r.0,
                                                r.1,
                                            ),
                                        ),
                                        None => None,
                                    }
                                } else {
                                    None
                                },
                            }
                        } else {
                            None
                        }
                    } else {
                        None
                    },
                }
            } else {
                None
            }
        }
    } else if (s[i] as u32) < 0x20 {
        None
    } else {
        match parse_str_body(s, i + 1) {
            Some(r) => Some((seq![s[i]] + r.0, r.1)),
            None => None,
        }
    }
}

/// A whole string literal at position `i`: an opening quote, then its body.
pub open spec fn parse_string(s: Seq<char>, i: int) -> Option<(Seq<char>, int)> {
    if 0 <= i && i < s.len() && s[i] == '"' {
        parse_str_body(s, i + 1)
    } else {
        None
    }
}

/// One member at position `i`: a quoted key, a colon, a quoted value,
/// with any whitespace around the colon.
#[verifier::opaque]
pub open spec fn parse_member(s: Seq<char>, i: int) -> Option<((Seq<char>, Seq<char>), int)> {
    match parse_string(s, i) {
        None => None,
        Some(kv) => {
            let j = skip_ws(s, kv.1);
            if j < s.len() && s[j] == ':' {
                let j2 = skip_ws(s, j + 1);
                match parse_string(s, j2) {
                    None => None,
                    Some(vv) => Some(((kv.0, vv.0), vv.1)),
                }
            } else {
                None
            }
        },
    }
}

/// One record at position `i`: an object holding exactly the members
/// `name` and `db_uri`, in either order.
#[verifier::opaque]
pub open spec fn parse_record(s: Seq<char>, i: int) -> Option<(ProjectConfigV, int)> {
    if 0 <= i && i < s.len() && s[i] == '{' {
        let i1 = skip_ws(s, i + 1);
        match parse_member(s, i1) {
            None => None,
            Some(m1) => {
                let j = skip_ws(s, m1.1);
                if j < s.len() && s[j] == ',' {
                    let j2 = skip_ws(s, j + 1);
                    match parse_member(s, j2) {
                        None => None,
                        Some(m2) => {
                            let k = skip_ws(s, m2.1);
                            if k < s.len() && s[k] == '}' {
                                if m1.0.0 == "name"@ && m2.0.0 == "db_uri"@ {
                                    Some(((ProjectConfigV { name: m1.0.1, db_uri: m2.0.1 }), k + 1))
                                } else if m1.0.0 == "db_uri"@ && m2.0.0 == "name"@ {
                                    Some(((ProjectConfigV { name: m2.0.1, db_uri: m1.0.1 }), k + 1))
                                } else {
                                    None
                                }
                            } else {
                                None
                            }
                        },
                    }
                } else {
                    None
                }
            },
        }
    } else {
        None
    }
}

/// One registry entry at position `i`: a quoted key, a colon, a record
/// whose name member repeats the key.
#[verifier::opaque]
pub open spec fn parse_entry(s: Seq<char>, i: int) -> Option<(ProjectConfigV, int)> {
    match parse_string(s, i) {
        None => None,
        Some(kv) => {
            let j = skip_ws(s, kv.1);
            if j < s.len() && s[j] == ':' {
                let j2 = skip_ws(s, j + 1);
                match parse_record(s, j2) {
                    None => None,
                    Some(rv) => if rv.0.name == kv.0 {
                        Some(rv)
                    } else {
                        None
                    },
                }
            } else {
                None
            }
        },
    }
}

/// One or more entries separated by commas, starting at position `i`
/// (which holds the first entry's opening quote); the returned position
/// stands after the whitespace that follows the last entry. `fuel`
/// bounds the recursion; one unit per entry suffices.
#[verifier::opaque]
pub open spec fn parse_entries(s: Seq<char>, i: int, fuel: nat) -> Option<
    (Seq<ProjectConfigV>, int),
>
    decreases fuel,
{
    if fuel == 0 {
        None
    } else {
        match parse_entry(s, i) {
            None => None,
            Some(e) => {
                let k = skip_ws(s, e.1);
                if k < s.len() && s[k] == ',' {
                    let m = skip_ws(s, k + 1);
                    match parse_entries(s, m, (fuel - 1) as nat) {
                        None => None,
                        Some(rest) => Some((seq![e.0] + rest.0, rest.1)),
                    }
                } else {
                    Some((seq![e.0], k))
                }
            },
        }
    }
}

/// The whole document: an object whose single member `projects` holds an
/// object of entries with pairwise distinct names (possibly none), with
/// any whitespace between tokens, consumed to the end of the input.
pub open spec fn spec_parse(s: Seq<char>) -> Option<Seq<ProjectConfigV>> {
    let i0 = skip_ws(s, 0);
    if i0 < s.len() && s[i0] == '{' {
        let i1 = skip_ws(s, i0 + 1);
        match parse_string(s, i1) {
            None => None,
            Some(pk) => if pk.0 == "projects"@ {
                let i2 = skip_ws(s, pk.1);
                if i2 < s.len() && s[i2] == ':' {
                    let i3 = skip_ws(s, i2 + 1);
                    if i3 < s.len() && s[i3] == '{' {
                        let i4 = skip_ws(s, i3 + 1);
                        if i4 < s.len() && s[i4] == '}' {
                            let i5 = skip_ws(s, i4 + 1);
                            if i5 < s.len() && s[i5] == '}' && skip_ws(s, i5 + 1) == s.len() {
                                Some(Seq::empty())
                            } else {
                                None
                            }
                        } else {
                            match parse_entries(s, i4, s.len()) {
                                None => None,
                                Some(es) => if es.1 < s.len() && s[es.1] == '}' {
                                    let j1 = skip_ws(s, es.1 + 1);
                                    if j1 < s.len() && s[j1] == '}' && skip_ws(s, j1 + 1)
                                        == s.len() && unique_names(es.0) {
                                        Some(es.0)
                                    } else {
                                        None
                                    }
                                } else {
                                    None
                                },
                            }
                        }
                    } else {
                        None
                    }
                } else {
                    None
                }
            } else {
                None
            },
        }
    } else {
        None
    }
}

/// Relies on char::from_u32: the result is the character of the given
/// code point, and exists exactly for Unicode scalar values.
#[verifier::external_body]
fn char_from_code(code: u32) -> (r: Option<char>)
    ensures
        match r {
            Some(c) => vstd::utf8::is_scalar(code) && c as u32 == code,
            None => !vstd::utf8::is_scalar(code),
        },
{
    char::from_u32(code)
}

/// Relies on String::push: appends exactly the one character.
#[verifier::external_body]
fn push_char(out: &mut String, c: char)
    ensures
        final(out)@ == old(out)@ + seq![c],
{
    out.push(c);
}

/// A fresh string holding `c` followed by `tail`.
fn prepend_char(c: char, tail: String) -> (r: String)
    ensures
        r@ == seq![c] + tail@,
{
    let mut t = String::new();
    push_char(&mut t, c);
    t.append(tail.as_str());
    proof {
        assert(t@ =~= seq![c] + tail@);
    }
    t
}

/// The first non-whitespace position, as `skip_ws` has it.
fn exec_skip_ws(s: &str, s_len: usize, i: usize) -> (r: usize)
    requires
        s_len == s@.len(),
        i <= s_len,
    ensures
        r as int == skip_ws(s@, i as int),
        i <= r <= s_len,
    decreases s_len - i,
{
    if i < s_len {
        let c = s.get_char(i);
        if c == ' ' || c == '\n' || c == '\t' || c == '\r' {
            return exec_skip_ws(s, s_len, i + 1);
        }
    }
    i
}

/// One hexadecimal digit's value, as `hex_val` has it.
fn exec_hex_val(c: char) -> (r: Option<u32>)
    ensures
        (match r {
            Some(v) => hex_val(c) == Some(v as int) && v < 16,
            None => hex_val(c) is None,
        }),
{
    let u = c as u32;
    if u >= 48 && u <= 57 {
        Some(u - 48)
    } else if u >= 97 && u <= 102 {
        Some(u - 87)
    } else if u >= 65 && u <= 70 {
        Some(u - 55)
    } else {
        None
    }
}

/// Four hexadecimal digits' value, as `hex4` has it.
fn exec_hex4(s: &str, s_len: usize, i: usize) -> (r: Option<u32>)
    requires
        s_len == s@.len(),
        i <= s_len,
    ensures
        (match r {
            Some(v) => hex4(s@, i as int) == Some(v as int) && v < 0x10000,
            None => hex4(s@, i as int) is None,
        }),
{
    if s_len - i < 4 {
        return None;
    }
    let a = match exec_hex_val(s.get_char(i)) {
        Some(v) => v,
        None => {
            return None;
        },
    };
    let b = match exec_hex_val(s.get_char(i + 1)) {
        Some(v) => v,
        None => {
            return None;
        },
    };
    let c = match exec_hex_val(s.get_char(i + 2)) {
        Some(v) => v,
        None => {
            return None;
        },
    };
    let d = match exec_hex_val(s.get_char(i + 3)) {
        Some(v) => v,
        None => {
            return None;
        },
    };
    Some(a * 0x1000 + b * 0x100 + c * 0x10 + d)
}

/// The body of a string literal, as `parse_str_body` has it.
fn exec_parse_str_body(s: &str, s_len: usize, i: usize) -> (r: Option<(String, usize)>)
    requires
        s_len == s@.len(),
        i <= s_len,
    ensures
        (match r {
            Some(p) => parse_str_body(s@, i as int) == Some((p.0@, p.1 as int)) && i <= p.1
                <= s@.len(),
            None => parse_str_body(s@, i as int) is None,
        }),
    decreases s@.len() - i,
{
    proof {
        reveal(parse_str_body);
    }
    if i >= s_len {
        return None;
    }
    let c = s.get_char(i);
    if c == '"' {
        return Some((String::new(), i + 1));
    }
    if c == '\\' {
        if i + 1 >= s_len {
            return None;
        }
        let e = s.get_char(i + 1);
        if e == '"' || e == '\\' || e == '/' {
            match exec_parse_str_body(s, s_len, i + 2) {
                Some((tail, j)) => {
                    return Some((prepend_char(e, tail), j));
                },
                None => {
                    return None;
                },
            }
        }
        if e == 'n' || e == 'r' || e == 't' || e == 'b' || e == 'f' {
            let ch = if e == 'n' {
                '\n'
            } else if e == 'r' {
                '\r'
            } else if e == 't' {
                '\t'
            } else if e == 'b' {
                '\u{8}'
            } else {
                '\u{c}'
            };
            match exec_parse_str_body(s, s_len, i + 2) {
                Some((tail, j)) => {
                    return Some((prepend_char(ch, tail), j));
                },
                None => {
                    return None;
                },
            }
        }
        if e == 'u' {
            let hi = match exec_hex4(s, s_len, i + 2) {
                Some(v) => v,
                None => {
                    return None;
                },
            };
            if hi < 0xD800 || hi >= 0xE000 {
                let ch = match char_from_code(hi) {
                    Some(ch) => ch,
                    None => {
                        proof {
                            assert(false);
                        }
                        return None;
                    },
                };
                proof {
                    vstd::utf8::char_u32_cast(ch, hi);
                    assert(ch == (((hi as int) as u32) as char));
                }
                match exec_parse_str_body(s, s_len, i + 6) {
                    Some((tail, j)) => {
                        return Some((prepend_char(ch, tail), j));
                    },
                    None => {
                        return None;
                    },
                }
            }
            if hi < 0xDC00 {
                if s_len - i >= 8 && s.get_char(i + 6) == '\\' && s.get_char(i + 7) == 'u' {
                    let lo = match exec_hex4(s, s_len, i + 8) {
                        Some(v) => v,
                        None => {
                            return None;
                        },
                    };
                    if lo >= 0xDC00 && lo < 0xE000 {
                        let code: u32 = 0x10000 + (hi - 0xD800) * 0x400 + (lo - 0xDC00);
                        let ch = match char_from_code(code) {
                            Some(ch) => ch,
                            None => {
                                proof {
                                    assert(false);
                                }
                                return None;
                            },
                        };
                        proof {
                            vstd::utf8::char_u32_cast(ch, code);
                            assert(ch == (((0x10000 + (hi as int - 0xD800) * 0x400 + (lo as int
                                - 0xDC00)) as u32) as char));
                        }
                        match exec_parse_str_body(s, s_len, i + 12) {
                            Some((tail, j)) => {
                                return Some((prepend_char(ch, tail), j));
                            },
                            None => {
                                return None;
                            },
                        }
                    }
                    return None;
                }
                return None;
            }
            return None;
        }
        return None;
    }
    if (c as u32) < 0x20 {
        return None;
    }
    match exec_parse_str_body(s, s_len, i + 1) {
        Some((tail, j)) => Some((prepend_char(c, tail), j)),
        None => None,
    }
}

/// A whole string literal, as `parse_string` has it.
fn exec_parse_string(s: &str, s_len: usize, i: usize) -> (r: Option<(String, usize)>)
    requires
        s_len == s@.len(),
        i <= s_len,
    ensures
        (match r {
            Some(p) => parse_string(s@, i as int) == Some((p.0@, p.1 as int)) && i <= p.1
                <= s@.len(),
            None => parse_string(s@, i as int) is None,
        }),
{
    if i < s_len {
        let c = s.get_char(i);
        if c == '"' {
            return exec_parse_str_body(s, s_len, i + 1);
        }
    }
    None
}

/// One member, as `parse_member` has it.
fn exec_parse_member(s: &str, s_len: usize, i: usize) -> (r: Option<((String, String), usize)>)
    requires
        s_len == s@.len(),
        i <= s_len,
    ensures
        (match r {
            Some(p) => parse_member(s@, i as int) == Some(((p.0.0@, p.0.1@), p.1 as int)) && p.1
                <= s_len,
            None => parse_member(s@, i as int) is None,
        }),
{
    proof {
        reveal(parse_member);
    }
    let (k, j) = match exec_parse_string(s, s_len, i) {
        Some(p) => p,
        None => {
            return None;
        },
    };
    let j1 = exec_skip_ws(s, s_len, j);
    if j1 < s_len && s.get_char(j1) == ':' {
        let j2 = exec_skip_ws(s, s_len, j1 + 1);
        match exec_parse_string(s, s_len, j2) {
            Some((v, j3)) => Some(((k, v), j3)),
            None => None,
        }
    } else {
        None
    }
}

/// One record, as `parse_record` has it.
fn exec_parse_record(s: &str, s_len: usize, i: usize) -> (r: Option<(ProjectConfig, usize)>)
    requires
        s_len == s@.len(),
        i <= s_len,
    ensures
        (match r {
            Some(p) => parse_record(s@, i as int) == Some((p.0@, p.1 as int)) && p.1 <= s_len,
            None => parse_record(s@, i as int) is None,
        }),
{
    proof {
        reveal(parse_record);
    }
    if i < s_len && s.get_char(i) == '{' {
        let i1 = exec_skip_ws(s, s_len, i + 1);
        let (m1, j) = match exec_parse_member(s, s_len, i1) {
            Some(p) => p,
            None => {
                return None;
            },
        };
        let j1 = exec_skip_ws(s, s_len, j);
        if j1 < s_len && s.get_char(j1) == ',' {
            let j2 = exec_skip_ws(s, s_len, j1 + 1);
            let (m2, k) = match exec_parse_member(s, s_len, j2) {
                Some(p) => p,
                None => {
                    return None;
                },
            };
            let k1 = exec_skip_ws(s, s_len, k);
            if k1 < s_len && s.get_char(k1) == '}' {
                let name_key = String::from_str("name");
                let uri_key = String::from_str("db_uri");
                if m1.0 == name_key && m2.0 == uri_key {
                    return Some((ProjectConfig { name: m1.1, db_uri: m2.1 }, k1 + 1));
                }
                if m1.0 == uri_key && m2.0 == name_key {
                    return Some((ProjectConfig { name: m2.1, db_uri: m1.1 }, k1 + 1));
                }
                return None;
            }
            return None;
        }
        return None;
    }
    None
}

/// One registry entry, as `parse_entry` has it.
fn exec_parse_entry(s: &str, s_len: usize, i: usize) -> (r: Option<(ProjectConfig, usize)>)
    requires
        s_len == s@.len(),
        i <= s_len,
    ensures
        (match r {
            Some(p) => parse_entry(s@, i as int) == Some((p.0@, p.1 as int)) && p.1 <= s_len,
            None => parse_entry(s@, i as int) is None,
        }),
{
    proof {
        reveal(parse_entry);
    }
    let (k, j) = match exec_parse_string(s, s_len, i) {
        Some(p) => p,
        None => {
            return None;
        },
    };
    let j1 = exec_skip_ws(s, s_len, j);
    if j1 < s_len && s.get_char(j1) == ':' {
        let j2 = exec_skip_ws(s, s_len, j1 + 1);
        match exec_parse_record(s, s_len, j2) {
            Some((rec, j3)) => {
                if rec.name == k {
                    Some((rec, j3))
                } else {
                    None
                }
            },
            None => None,
        }
    } else {
        None
    }
}

/// One or more entries, as `parse_entries` has it.
fn exec_parse_entries(s: &str, s_len: usize, i: usize, fuel: usize) -> (r: Option<
    (Vec<ProjectConfig>, usize),
>)
    requires
        s_len == s@.len(),
        i <= s_len,
    ensures
        (match r {
            Some(p) => parse_entries(s@, i as int, fuel as nat) == Some(
                (configs_view(p.0@), p.1 as int),
            ) && p.1 <= s_len,
            None => parse_entries(s@, i as int, fuel as nat) is None,
        }),
    decreases fuel,
{
    proof {
        reveal(parse_entries);
    }
    if fuel == 0 {
        return None;
    }
    let (c, j) = match exec_parse_entry(s, s_len, i) {
        Some(p) => p,
        None => {
            return None;
        },
    };
    let k = exec_skip_ws(s, s_len, j);
    if k < s_len && s.get_char(k) == ',' {
        let m = exec_skip_ws(s, s_len, k + 1);
        match exec_parse_entries(s, s_len, m, fuel - 1) {
            None => None,
            Some((mut rest, e)) => {
                let ghost r0 = rest@;
                rest.insert(0, c);
                proof {
                    assert(configs_view(rest@) =~= seq![c@] + configs_view(r0));
                }
                Some((rest, e))
            },
        }
    } else {
        let mut v: Vec<ProjectConfig> = Vec::new();
        v.push(c);
        proof {
            assert(configs_view(v@) =~= seq![c@]);
        }
        Some((v, k))
    }
}

/// Whether the records carry pairwise distinct names.
fn names_unique(v: &Vec<ProjectConfig>) -> (r: bool)
    ensures
        r == unique_names(configs_view(v@)),
{
    let ghost cv = configs_view(v@);
    let mut p: usize = 0;
    while p < v.len()
        invariant
            cv == configs_view(v@),
            p <= v@.len(),
            forall|a: int, b: int|
                0 <= a < b < v@.len() && a < p ==> (#[trigger] cv[a]).name != (
                #[trigger] cv[b]).name,
        decreases v@.len() - p,
    {
        let mut q: usize = p + 1;
        while q < v.len()
            invariant
                cv == configs_view(v@),
                p < q,
                p < v@.len(),
                q <= v@.len(),
                forall|b: int| p < b < q ==> (#[trigger] cv[b]).name != cv[p as int].name,
            decreases v@.len() - q,
        {
            if v[p].name == v[q].name {
                proof {
                    assert(cv[p as int].name == cv[q as int].name);
                    assert(!unique_names(cv));
                }
                return false;
            }
            q = q + 1;
        }
        p = p + 1;
    }
    true
}

impl JabConfig {
    /// The persisted document read back into a registry. Success is owed
    /// exactly on the documents `spec_parse` accepts; every other input
    /// fails with a `ParseError`. With `lemma_parse_of_render`, loading
    /// what `to_json` saved reproduces the saved registry.
    pub fn from_json(s: &str) -> (r: Result<JabConfig, ParseError>)
        ensures
            (match r {
                Ok(c) => spec_parse(s@) == Some(c@) && c.wf(),
                Err(_) => spec_parse(s@) is None,
            }),
    {
        let s_len = s.unicode_len();
        let i0 = exec_skip_ws(s, s_len, 0);
        if !(i0 < s_len) {
            return Err(ParseError);
        }
        if s.get_char(i0) != '{' {
            return Err(ParseError);
        }
        let i1 = exec_skip_ws(s, s_len, i0 + 1);
        let (pk, p) = match exec_parse_string(s, s_len, i1) {
            Some(q) => q,
            None => {
                return Err(ParseError);
            },
        };
        if !(pk == String::from_str("projects")) {
            return Err(ParseError);
        }
        let i2 = exec_skip_ws(s, s_len, p);
        if !(i2 < s_len) {
            return Err(ParseError);
        }
        if s.get_char(i2) != ':' {
            return Err(ParseError);
        }
        let i3 = exec_skip_ws(s, s_len, i2 + 1);
        if !(i3 < s_len) {
            return Err(ParseError);
        }
        if s.get_char(i3) != '{' {
            return Err(ParseError);
        }
        let i4 = exec_skip_ws(s, s_len, i3 + 1);
        if i4 < s_len && s.get_char(i4) == '}' {
            let i5 = exec_skip_ws(s, s_len, i4 + 1);
            if i5 < s_len && s.get_char(i5) == '}' && exec_skip_ws(s, s_len, i5 + 1) == s_len {
                return Ok(JabConfig::new());
            }
            return Err(ParseError);
        }
        let (v, j) = match exec_parse_entries(s, s_len, i4, s_len) {
            Some(q) => q,
            None => {
                return Err(ParseError);
            },
        };
        if !(j < s_len) {
            return Err(ParseError);
        }
        if s.get_char(j) != '}' {
            return Err(ParseError);
        }
        let j1 = exec_skip_ws(s, s_len, j + 1);
        if !(j1 < s_len) {
            return Err(ParseError);
        }
        if s.get_char(j1) != '}' {
            return Err(ParseError);
        }
        if exec_skip_ws(s, s_len, j1 + 1) != s_len {
            return Err(ParseError);
        }
        if !names_unique(&v) {
            return Err(ParseError);
        }
        let c = JabConfig { projects: v };
        proof {
            assert(c@ =~= configs_view(c.projects@));
        }
        Ok(c)
    }
}

/// `skip_ws` lands on `j` when everything from `i` to `j` is whitespace
/// and `j` holds none (or is the end).
proof fn lemma_skip_ws_run(s: Seq<char>, i: int, j: int)
    requires
        0 <= i <= j <= s.len(),
        forall|k: int| i <= k < j ==> is_ws(#[trigger] s[k]),
        j == s.len() || !is_ws(s[j]),
    ensures
        skip_ws(s, i) == j,
    decreases j - i,
{
    if i < j {
        lemma_skip_ws_run(s, i + 1, j);
    }
}

/// A hexadecimal digit reads back as its value.
proof fn lemma_hex_digit_val(n: int)
    requires
        0 <= n < 16,
    ensures
        hex_val(hex_digit(n)) == Some(n),
{
}

/// A string body parses back to exactly the characters it escapes: with
/// the escaped form of `x` and a closing quote standing after `pre`,
/// parsing from there yields `x` and stops after the quote.
#[verifier::rlimit(100)]
proof fn lemma_parse_body_of_esc(pre: Seq<char>, x: Seq<char>, post: Seq<char>)
    ensures
        parse_str_body(pre + esc(x) + seq!['"'] + post, pre.len() as int) == Some(
            (x, pre.len() + esc(x).len() + 1int),
        ),
    decreases x.len(),
{
    reveal(parse_str_body);
    let s = pre + esc(x) + seq!['"'] + post;
    if x.len() == 0 {
        assert(esc(x) =~= Seq::<char>::empty());
        assert(s[pre.len() as int] == '"');
        assert(x =~= Seq::<char>::empty());
    } else {
        let c = x[0];
        let x1 = x.subrange(1, x.len() as int);
        assert(esc(x) == esc_char(c) + esc(x1));
        let i = pre.len() as int;
        let pre2 = pre + esc_char(c);
        assert(s =~= pre2 + esc(x1) + seq!['"'] + post);
        lemma_parse_body_of_esc(pre2, x1, post);
        assert(parse_str_body(s, pre2.len() as int) == Some(
            (x1, pre2.len() + esc(x1).len() + 1int),
        ));
        assert(pre2.len() + esc(x1).len() + 1 == pre.len() + esc(x).len() + 1);
        assert(seq![c] + x1 =~= x);
        if c == '"' || c == '\\' {
            assert(esc_char(c) =~= seq!['\\', c]);
            assert(s[i] == '\\');
            assert(s[i + 1] == c);
        } else if c == '\n' {
            assert(esc_char(c) =~= seq!['\\', 'n']);
            assert(s[i] == '\\');
            assert(s[i + 1] == 'n');
            assert(short_escape('n') == c);
        } else if c == '\r' {
            assert(esc_char(c) =~= seq!['\\', 'r']);
            assert(s[i] == '\\');
            assert(s[i + 1] == 'r');
        } else if c == '\t' {
            assert(esc_char(c) =~= seq!['\\', 't']);
            assert(s[i] == '\\');
            assert(s[i + 1] == 't');
        } else if c == '\u{8}' {
            assert(esc_char(c) =~= seq!['\\', 'b']);
            assert(s[i] == '\\');
            assert(s[i + 1] == 'b');
        } else if c == '\u{c}' {
            assert(esc_char(c) =~= seq!['\\', 'f']);
            assert(s[i] == '\\');
            assert(s[i + 1] == 'f');
        } else if (c as u32) < 0x20 {
            let u = (c as u32) as int;
            let d1 = hex_digit(u / 16);
            let d2 = hex_digit(u % 16);
            assert(esc_char(c) =~= seq!['\\', 'u', '0', '0', d1, d2]);
            assert(s[i] == '\\');
            assert(s[i + 1] == 'u');
            assert(s[i + 2] == '0');
            assert(s[i + 3] == '0');
            assert(s[i + 4] == d1);
            assert(s[i + 5] == d2);
            assert(hex_val('0') == Some(0int));
            lemma_hex_digit_val(u / 16);
            lemma_hex_digit_val(u % 16);
            assert(u == 16 * (u / 16) + u % 16);
            assert(hex4(s, i + 2) == Some(u));
            assert(u < 0xD800);
            vstd::utf8::char_u32_cast(c, c as u32);
            assert(((u as u32) as char) == c);
        } else {
            assert(esc_char(c) =~= seq![c]);
            assert(s[i] == c);
            assert(c != '"' && c != '\\');
        }
    }
}

/// A quoted string starts and ends with a quote.
proof fn lemma_quoted_facts(x: Seq<char>)
    ensures
        quoted(x).len() >= 2,
        quoted(x)[0] == '"',
{
    reveal(quoted);
}

/// A rendered member starts with its key's opening quote.
proof fn lemma_render_member_facts(k: Seq<char>, v: Seq<char>)
    ensures
        render_member(k, v).len() >= 4,
        render_member(k, v)[0] == '"',
{
    reveal(render_member);
    lemma_quoted_facts(k);
    lemma_quoted_facts(v);
}

/// A rendered record starts with its opening brace.
proof fn lemma_render_record_facts(c: ProjectConfigV)
    ensures
        render_record(c).len() >= 1,
        render_record(c)[0] == '{',
{
    reveal(render_record);
    reveal_strlit("{\n      ");
}

/// A quoted string parses back to exactly the characters it quotes.
proof fn lemma_parse_string_of_quoted(pre: Seq<char>, x: Seq<char>, post: Seq<char>)
    ensures
        parse_string(pre + quoted(x) + post, pre.len() as int) == Some(
            (x, (pre.len() + quoted(x).len()) as int),
        ),
{
    reveal(quoted);
    let s = pre + quoted(x) + post;
    let i = pre.len() as int;
    let pre2 = pre + seq!['"'];
    assert(s =~= pre2 + esc(x) + seq!['"'] + post);
    assert(s[i] == '"');
    lemma_parse_body_of_esc(pre2, x, post);
    assert(parse_str_body(s, i + 1) == Some((x, pre2.len() + esc(x).len() + 1int)));
    assert(pre2.len() + esc(x).len() + 1 == pre.len() + quoted(x).len());
}

/// A rendered member parses back to exactly its key and value.
proof fn lemma_parse_member_of_render(pre: Seq<char>, k: Seq<char>, v: Seq<char>, post: Seq<char>)
    ensures
        parse_member(pre + render_member(k, v) + post, pre.len() as int) == Some(
            ((k, v), (pre.len() + render_member(k, v).len()) as int),
        ),
{
    reveal(parse_member);
    reveal(render_member);
    reveal_strlit(": ");
    let s = pre + render_member(k, v) + post;
    lemma_quoted_facts(v);
    assert(s =~= pre + quoted(k) + (": "@ + quoted(v) + post));
    lemma_parse_string_of_quoted(pre, k, ": "@ + quoted(v) + post);
    let p1 = (pre.len() + quoted(k).len()) as int;
    assert(s =~= (pre + quoted(k)) + ": "@ + (quoted(v) + post));
    assert(s[p1] == ':');
    lemma_skip_ws_run(s, p1, p1);
    assert(s[p1 + 1] == ' ');
    assert(s[p1 + 2] == quoted(v)[0]);
    lemma_skip_ws_run(s, p1 + 1, p1 + 2);
    assert(s =~= pre + quoted(k) + ": "@ + quoted(v) + post);
    lemma_parse_string_of_quoted(pre + quoted(k) + ": "@, v, post);
    assert(parse_string(s, p1 + 2) == Some((v, (pre.len() + render_member(k, v).len()) as int)));
}

/// A rendered record parses back to exactly the record it renders.
#[verifier::rlimit(100)]
proof fn lemma_parse_record_of_render(pre: Seq<char>, c: ProjectConfigV, post: Seq<char>)
    ensures
        parse_record(pre + render_record(c) + post, pre.len() as int) == Some(
            (c, (pre.len() + render_record(c).len()) as int),
        ),
{
    reveal(parse_record);
    reveal(render_record);
    reveal_strlit("{\n      ");
    reveal_strlit(",\n      ");
    reveal_strlit("\n    }");
    let s = pre + render_record(c) + post;
    let m1 = render_member("name"@, c.name);
    let m2 = render_member("db_uri"@, c.db_uri);
    let a = "{\n      "@;
    let b = ",\n      "@;
    let z = "\n    }"@;
    let i = pre.len() as int;
    assert(s =~= pre + a + (m1 + b + m2 + z + post));
    assert(s[i] == '{');
    assert forall|k: int| i + 1 <= k < i + 8 implies is_ws(#[trigger] s[k]) by {
        assert(s[k] == a[k - i]);
    }
    lemma_render_member_facts("name"@, c.name);
    assert(s[i + 8] == m1[0]);
    assert(m1[0] == '"');
    lemma_skip_ws_run(s, i + 1, i + 8);
    assert(s =~= pre + a + m1 + (b + m2 + z + post));
    lemma_parse_member_of_render(pre + a, "name"@, c.name, b + m2 + z + post);
    let q1 = (pre.len() + 8 + m1.len()) as int;
    assert(parse_member(s, i + 8) == Some((("name"@, c.name), q1)));
    assert(s =~= (pre + a + m1) + b + (m2 + z + post));
    assert(s[q1] == ',');
    lemma_skip_ws_run(s, q1, q1);
    assert forall|k: int| q1 + 1 <= k < q1 + 8 implies is_ws(#[trigger] s[k]) by {
        assert(s[k] == b[k - q1]);
    }
    lemma_render_member_facts("db_uri"@, c.db_uri);
    assert(s[q1 + 8] == m2[0]);
    assert(m2[0] == '"');
    lemma_skip_ws_run(s, q1 + 1, q1 + 8);
    assert(s =~= pre + a + m1 + b + m2 + (z + post));
    lemma_parse_member_of_render(pre + a + m1 + b, "db_uri"@, c.db_uri, z + post);
    let q2 = q1 + 8 + m2.len();
    assert(parse_member(s, q1 + 8) == Some((("db_uri"@, c.db_uri), q2 as int)));
    assert(s =~= (pre + a + m1 + b + m2) + z + post);
    assert forall|k: int| q2 <= k < q2 + 5 implies is_ws(#[trigger] s[k]) by {
        assert(s[k] == z[k - q2]);
    }
    assert(s[q2 + 5] == '}');
    lemma_skip_ws_run(s, q2, q2 + 5);
    assert((ProjectConfigV { name: c.name, db_uri: c.db_uri }) == c);
    assert(q2 + 6 == pre.len() + render_record(c).len());
}

/// A rendered entry body parses back to exactly the record it renders.
proof fn lemma_parse_entry_of_render(pre: Seq<char>, c: ProjectConfigV, post: Seq<char>)
    ensures
        parse_entry(pre + entry_body(c) + post, pre.len() as int) == Some(
            (c, (pre.len() + entry_body(c).len()) as int),
        ),
{
    reveal(parse_entry);
    reveal(entry_body);
    reveal_strlit(": ");
    reveal_strlit("{\n      ");
    let s = pre + entry_body(c) + post;
    assert(s =~= pre + quoted(c.name) + (": "@ + render_record(c) + post));
    lemma_parse_string_of_quoted(pre, c.name, ": "@ + render_record(c) + post);
    assert(s =~= pre + quoted(c.name) + ": "@ + render_record(c) + post);
    let p1 = (pre.len() + quoted(c.name).len()) as int;
    assert(s =~= (pre + quoted(c.name)) + ": "@ + (render_record(c) + post));
    assert(s[p1] == ':');
    lemma_skip_ws_run(s, p1, p1);
    assert(s[p1 + 1] == ' ');
    lemma_render_record_facts(c);
    assert(s[p1 + 2] == render_record(c)[0]);
    lemma_skip_ws_run(s, p1 + 1, p1 + 2);
    lemma_parse_record_of_render(pre + quoted(c.name) + ": "@, c, post);
    assert(parse_record(s, p1 + 2) == Some((c, (pre.len() + entry_body(c).len()) as int)));
}

/// Every entry body starts with a quote and takes at least one character.
proof fn lemma_entry_bodies_facts(s: Seq<ProjectConfigV>)
    requires
        s.len() > 0,
    ensures
        entry_bodies(s).len() >= s.len(),
        entry_bodies(s)[0] == '"',
    decreases s.len(),
{
    reveal(entry_body);
    lemma_quoted_facts(s[0].name);
    assert(entry_body(s[0])[0] == quoted(s[0].name)[0]);
    assert(entry_body(s[0]).len() >= 2);
    if s.len() > 1 {
        lemma_entry_bodies_facts(s.subrange(1, s.len() as int));
    }
}

/// The rendered entries are the indentation of the first entry followed
/// by the entry bodies.
proof fn lemma_render_entries_bodies(s: Seq<ProjectConfigV>)
    requires
        s.len() > 0,
    ensures
        render_entries(s) == "    "@ + entry_bodies(s),
    decreases s.len(),
{
    reveal_strlit("    ");
    reveal_strlit(",\n");
    reveal_strlit(",\n    ");
    if s.len() > 1 {
        let rest = s.subrange(1, s.len() as int);
        lemma_render_entries_bodies(rest);
        assert(",\n"@ + "    "@ =~= ",\n    "@);
        assert(render_entry(s[0]) + ",\n"@ + ("    "@ + entry_bodies(rest)) =~= "    "@ + (
        entry_body(s[0]) + ",\n    "@ + entry_bodies(rest)));
    }
}

/// Rendered entries parse back to exactly the records they render, with
/// the parser stopping on the closing brace that follows them.
#[verifier::rlimit(100)]
proof fn lemma_parse_entries_of_render(pre: Seq<char>, entries: Seq<ProjectConfigV>, fuel: nat)
    requires
        entries.len() > 0,
        fuel >= entries.len(),
    ensures
        parse_entries(pre + entry_bodies(entries) + "\n  }\n}"@, pre.len() as int, fuel) == Some(
            (entries, (pre.len() + entry_bodies(entries).len() + 3) as int),
        ),
    decreases entries.len(),
{
    reveal(parse_entries);
    reveal_strlit("\n  }\n}");
    reveal_strlit(",\n    ");
    let tail = "\n  }\n}"@;
    let s = pre + entry_bodies(entries) + tail;
    let e0 = entries[0];
    if entries.len() == 1 {
        assert(entry_bodies(entries) == entry_body(e0));
        assert(s =~= pre + entry_body(e0) + tail);
        lemma_parse_entry_of_render(pre, e0, tail);
        let j = (pre.len() + entry_body(e0).len()) as int;
        assert(parse_entry(s, pre.len() as int) == Some((e0, j)));
        assert(s =~= (pre + entry_body(e0)) + tail);
        assert forall|k: int| j <= k < j + 3 implies is_ws(#[trigger] s[k]) by {
            assert(s[k] == tail[k - j]);
        }
        assert(s[j + 3] == '}');
        lemma_skip_ws_run(s, j, j + 3);
        assert(seq![e0] =~= entries);
    } else {
        let rest = entries.subrange(1, entries.len() as int);
        let sep = ",\n    "@;
        assert(entry_bodies(entries) == entry_body(e0) + sep + entry_bodies(rest));
        assert(s =~= pre + entry_body(e0) + (sep + entry_bodies(rest) + tail));
        lemma_parse_entry_of_render(pre, e0, sep + entry_bodies(rest) + tail);
        let j = (pre.len() + entry_body(e0).len()) as int;
        assert(s =~= (pre + entry_body(e0)) + sep + (entry_bodies(rest) + tail));
        assert(parse_entry(s, pre.len() as int) == Some((e0, j)));
        assert(s[j] == ',');
        lemma_skip_ws_run(s, j, j);
        assert forall|k: int| j + 1 <= k < j + 6 implies is_ws(#[trigger] s[k]) by {
            assert(s[k] == sep[k - j]);
        }
        lemma_entry_bodies_facts(rest);
        assert(s[j + 6] == entry_bodies(rest)[0]);
        lemma_skip_ws_run(s, j + 1, j + 6);
        let pre2 = pre + entry_body(e0) + sep;
        assert(pre2.len() == j + 6);
        assert(s =~= pre2 + entry_bodies(rest) + tail);
        lemma_parse_entries_of_render(pre2, rest, (fuel - 1) as nat);
        assert(parse_entries(s, j + 6, (fuel - 1) as nat) == Some(
            (rest, (pre2.len() + entry_bodies(rest).len() + 3) as int),
        ));
        assert(seq![e0] + rest =~= entries);
        assert(pre2.len() + entry_bodies(rest).len() == pre.len() + entry_bodies(entries).len());
    }
}

/// Saving and loading reproduce the registry: the rendered document of
/// any well-formed registry parses back to exactly that registry.
#[verifier::rlimit(100)]
pub proof fn lemma_parse_of_render(entries: Seq<ProjectConfigV>)
    requires
        unique_names(entries),
    ensures
        spec_parse(spec_render(entries)) == Some(entries),
{
    reveal_strlit("{\n  ");
    reveal_strlit(": {}\n}");
    reveal_strlit(": {\n");
    reveal_strlit("\n  }\n}");
    reveal_strlit("    ");
    let hd = "{\n  "@;
    let pq = quoted("projects"@);
    let s = spec_render(entries);
    lemma_quoted_facts("projects"@);
    if entries.len() == 0 {
        let z = ": {}\n}"@;
        assert(s == hd + pq + z);
        assert(s =~= hd + (pq + z));
        assert(s =~= hd + pq + z);
        assert(s[0] == '{');
        lemma_skip_ws_run(s, 0, 0);
        assert forall|k: int| 1 <= k < 4 implies is_ws(#[trigger] s[k]) by {
            assert(s[k] == hd[k]);
        }
        assert(s[4] == pq[0]);
        lemma_skip_ws_run(s, 1, 4);
        assert(s =~= hd + quoted("projects"@) + z);
        lemma_parse_string_of_quoted(hd, "projects"@, z);
        let p = (4 + pq.len()) as int;
        assert(parse_string(s, 4) == Some(("projects"@, p)));
        assert(s =~= (hd + pq) + z);
        assert(s[p] == ':');
        lemma_skip_ws_run(s, p, p);
        assert(s[p + 1] == ' ');
        assert(s[p + 2] == '{');
        lemma_skip_ws_run(s, p + 1, p + 2);
        assert(s[p + 3] == '}');
        lemma_skip_ws_run(s, p + 3, p + 3);
        assert(s[p + 4] == '\n');
        assert(s[p + 5] == '}');
        lemma_skip_ws_run(s, p + 4, p + 5);
        assert(p + 6 == s.len());
        lemma_skip_ws_run(s, p + 6, p + 6);
        assert(Seq::<ProjectConfigV>::empty() =~= entries);
    } else {
        let mid = ": {\n"@;
        let tail = "\n  }\n}"@;
        lemma_render_entries_bodies(entries);
        let bodies = entry_bodies(entries);
        assert(s == hd + pq + mid + render_entries(entries) + tail);
        assert(s =~= hd + pq + mid + "    "@ + bodies + tail);
        assert(s =~= hd + (pq + mid + "    "@ + bodies + tail));
        assert(s[0] == '{');
        lemma_skip_ws_run(s, 0, 0);
        assert forall|k: int| 1 <= k < 4 implies is_ws(#[trigger] s[k]) by {
            assert(s[k] == hd[k]);
        }
        assert(s[4] == pq[0]);
        lemma_skip_ws_run(s, 1, 4);
        assert(s =~= hd + quoted("projects"@) + (mid + "    "@ + bodies + tail));
        lemma_parse_string_of_quoted(hd, "projects"@, mid + "    "@ + bodies + tail);
        let p = (4 + pq.len()) as int;
        assert(parse_string(s, 4) == Some(("projects"@, p)));
        assert(s =~= (hd + pq) + mid + ("    "@ + bodies + tail));
        assert(s[p] == ':');
        lemma_skip_ws_run(s, p, p);
        assert(s[p + 1] == ' ');
        assert(s[p + 2] == '{');
        lemma_skip_ws_run(s, p + 1, p + 2);
        lemma_entry_bodies_facts(entries);
        assert(s =~= (hd + pq + mid) + "    "@ + (bodies + tail));
        assert forall|k: int| p + 3 <= k < p + 8 implies is_ws(#[trigger] s[k]) by {
            if k == p + 3 {
                assert(s[k] == mid[3]);
            } else {
                assert(s[k] == "    "@[k - (p + 4)]);
            }
        }
        assert(s[p + 8] == bodies[0]);
        lemma_skip_ws_run(s, p + 3, p + 8);
        assert(s[p + 8] == '"');
        let pre4 = hd + pq + mid + "    "@;
        assert(pre4.len() == p + 8);
        assert(s =~= pre4 + bodies + tail);
        assert(s.len() >= entries.len());
        lemma_parse_entries_of_render(pre4, entries, s.len() as nat);
        let j = (pre4.len() + bodies.len() + 3) as int;
        assert(parse_entries(s, p + 8, s.len() as nat) == Some((entries, j)));
        assert(s =~= (pre4 + bodies) + tail);
        assert(s[j] == tail[3]);
        assert(s[j] == '}');
        assert(s[j + 1] == tail[4]);
        assert(s[j + 2] == tail[5]);
        lemma_skip_ws_run(s, j + 1, j + 2);
        assert(s[j + 2] == '}');
        assert(j + 3 == s.len());
        lemma_skip_ws_run(s, j + 3, j + 3);
    }
}

/// A full save/load cycle reproduces an equivalent mapping: the document
/// rendered from any well-formed registry parses back to entries that
/// denote exactly the mapping the registry denoted.
pub proof fn lemma_round_trip_mapping(s: Seq<ProjectConfigV>)
    requires
        unique_names(s),
    ensures
        match spec_parse(spec_render(s)) {
            Some(t) => crate::config::as_map(t) == crate::config::as_map(s),
            None => false,
        },
{
    lemma_parse_of_render(s);
}

/// Appends the named hexadecimal digit.
fn append_hex_digit(out: &mut String, n: u32)
    requires
        n < 16,
    ensures
        final(out)@ == old(out)@ + seq![hex_digit(n as int)],
{
    if n == 0 {
        out.append("0");
        proof {
            reveal_strlit("0");
            assert(out@ =~= old(out)@ + seq![hex_digit(n as int)]);
        }
    } else if n == 1 {
        out.append("1");
        proof {
            reveal_strlit("1");
            assert(out@ =~= old(out)@ + seq![hex_digit(n as int)]);
        }
    } else if n == 2 {
        out.append("2");
        proof {
            reveal_strlit("2");
            assert(out@ =~= old(out)@ + seq![hex_digit(n as int)]);
        }
    } else if n == 3 {
        out.append("3");
        proof {
            reveal_strlit("3");
            assert(out@ =~= old(out)@ + seq![hex_digit(n as int)]);
        }
    } else if n == 4 {
        out.append("4");
        proof {
            reveal_strlit("4");
            assert(out@ =~= old(out)@ + seq![hex_digit(n as int)]);
        }
    } else if n == 5 {
        out.append("5");
        proof {
            reveal_strlit("5");
            assert(out@ =~= old(out)@ + seq![hex_digit(n as int)]);
        }
    } else if n == 6 {
        out.append("6");
        proof {
            reveal_strlit("6");
            assert(out@ =~= old(out)@ + seq![hex_digit(n as int)]);
        }
    } else if n == 7 {
        out.append("7");
        proof {
            reveal_strlit("7");
            assert(out@ =~= old(out)@ + seq![hex_digit(n as int)]);
        }
    } else if n == 8 {
        out.append("8");
        proof {
            reveal_strlit("8");
            assert(out@ =~= old(out)@ + seq![hex_digit(n as int)]);
        }
    } else if n == 9 {
        out.append("9");
        proof {
            reveal_strlit("9");
            assert(out@ =~= old(out)@ + seq![hex_digit(n as int)]);
        }
    } else if n == 10 {
        out.append("a");
        proof {
            reveal_strlit("a");
            assert(out@ =~= old(out)@ + seq![hex_digit(n as int)]);
        }
    } else if n == 11 {
        out.append("b");
        proof {
            reveal_strlit("b");
            assert(out@ =~= old(out)@ + seq![hex_digit(n as int)]);
        }
    } else if n == 12 {
        out.append("c");
        proof {
            reveal_strlit("c");
            assert(out@ =~= old(out)@ + seq![hex_digit(n as int)]);
        }
    } else if n == 13 {
        out.append("d");
        proof {
            reveal_strlit("d");
            assert(out@ =~= old(out)@ + seq![hex_digit(n as int)]);
        }
    } else if n == 14 {
        out.append("e");
        proof {
            reveal_strlit("e");
            assert(out@ =~= old(out)@ + seq![hex_digit(n as int)]);
        }
    } else {
        out.append("f");
        proof {
            reveal_strlit("f");
            assert(out@ =~= old(out)@ + seq![hex_digit(n as int)]);
        }
    }
}

/// Appends `esc` of the tail of `s` from position `i` on.
fn append_esc(out: &mut String, s: &str, i: usize)
    requires
        i <= s@.len(),
    ensures
        final(out)@ == old(out)@ + esc(s@.subrange(i as int, s@.len() as int)),
    decreases s@.len() - i,
{
    let n = s.unicode_len();
    if i < n {
        let c = s.get_char(i);
        if c == '"' {
            out.append("\\\"");
            proof {
                reveal_strlit("\\\"");
                assert("\\\""@ =~= esc_char(c));
            }
        } else if c == '\\' {
            out.append("\\\\");
            proof {
                reveal_strlit("\\\\");
                assert("\\\\"@ =~= esc_char(c));
            }
        } else if c == '\n' {
            out.append("\\n");
            proof {
                reveal_strlit("\\n");
                assert("\\n"@ =~= esc_char(c));
            }
        } else if c == '\r' {
            out.append("\\r");
            proof {
                reveal_strlit("\\r");
                assert("\\r"@ =~= esc_char(c));
            }
        } else if c == '\t' {
            out.append("\\t");
            proof {
                reveal_strlit("\\t");
                assert("\\t"@ =~= esc_char(c));
            }
        } else if c == '\u{8}' {
            out.append("\\b");
            proof {
                reveal_strlit("\\b");
                assert("\\b"@ =~= esc_char(c));
            }
        } else if c == '\u{c}' {
            out.append("\\f");
            proof {
                reveal_strlit("\\f");
                assert("\\f"@ =~= esc_char(c));
            }
        } else if (c as u32) < 0x20 {
            let ghost before = out@;
            let u = c as u32;
            out.append("\\u00");
            append_hex_digit(out, u / 16);
            append_hex_digit(out, u % 16);
            proof {
                reveal_strlit("\\u00");
                assert((u / 16) as int == ((c as u32) as int) / 16);
                assert((u % 16) as int == ((c as u32) as int) % 16);
                assert(out@ =~= before + esc_char(c));
            }
        } else {
            let piece = s.substring_char(i, i + 1);
            out.append(piece);
            proof {
                assert(s@.subrange(i as int, i as int + 1) =~= esc_char(c));
            }
        }
        append_esc(out, s, i + 1);
        proof {
            let rest = s@.subrange(i as int, s@.len() as int);
            assert(rest[0] == s@[i as int]);
            assert(rest.subrange(1, rest.len() as int) =~= s@.subrange(
                i as int + 1,
                s@.len() as int,
            ));
            assert(out@ =~= old(out)@ + esc(rest));
        }
    } else {
        proof {
            assert(s@.subrange(i as int, s@.len() as int) =~= Seq::<char>::empty());
        }
    }
}

/// Appends the quoted, escaped form of `s`.
fn append_quoted(out: &mut String, s: &str)
    ensures
        final(out)@ == old(out)@ + quoted(s@),
{
    out.append("\"");
    append_esc(out, s, 0);
    out.append("\"");
    proof {
        reveal(quoted);
        reveal_strlit("\"");
        assert("\""@ =~= seq!['"']);
        assert(s@.subrange(0, s@.len() as int) =~= s@);
        assert(out@ =~= old(out)@ + quoted(s@));
    }
}

/// Appends one rendered member.
fn append_member(out: &mut String, k: &str, v: &str)
    ensures
        final(out)@ == old(out)@ + render_member(k@, v@),
{
    append_quoted(out, k);
    out.append(": ");
    append_quoted(out, v);
    proof {
        reveal(render_member);
        assert(out@ =~= old(out)@ + render_member(k@, v@));
    }
}

/// Appends one rendered registry entry.
fn append_entry(out: &mut String, c: &ProjectConfig)
    ensures
        final(out)@ == old(out)@ + render_entry(c@),
{
    out.append("    ");
    append_quoted(out, c.name.as_str());
    out.append(": ");
    out.append("{\n      ");
    append_member(out, "name", c.name.as_str());
    out.append(",\n      ");
    append_member(out, "db_uri", c.db_uri.as_str());
    out.append("\n    }");
    proof {
        reveal(entry_body);
        reveal(render_record);
        assert(out@ =~= old(out)@ + render_entry(c@));
    }
}

/// Appends the rendered entries from position `i` on.
fn append_entries(out: &mut String, v: &Vec<ProjectConfig>, i: usize)
    requires
        i <= v@.len(),
    ensures
        final(out)@ == old(out)@ + render_entries(
            configs_view(v@).subrange(i as int, v@.len() as int),
        ),
    decreases v@.len() - i,
{
    let ghost tail = configs_view(v@).subrange(i as int, v@.len() as int);
    if i < v.len() {
        append_entry(out, &v[i]);
        proof {
            assert(tail[0] == v@[i as int]@);
        }
        if i + 1 < v.len() {
            out.append(",\n");
            append_entries(out, v, i + 1);
            proof {
                assert(tail.subrange(1, tail.len() as int) =~= configs_view(v@).subrange(
                    i as int + 1,
                    v@.len() as int,
                ));
                assert(out@ =~= old(out)@ + render_entries(tail));
            }
        } else {
            proof {
                assert(tail.len() == 1);
                assert(out@ =~= old(out)@ + render_entries(tail));
            }
        }
    } else {
        proof {
            assert(tail =~= Seq::<ProjectConfigV>::empty());
        }
    }
}

impl JabConfig {
    /// The registry rendered as the persisted document.
    pub fn to_json(&self) -> (r: String)
        ensures
            r@ == spec_render(self@),
    {
        let mut out = String::from_str("{\n  ");
        append_quoted(&mut out, "projects");
        if self.projects.len() == 0 {
            out.append(": {}\n}");
            proof {
                assert(self@.len() == 0);
                assert(out@ =~= spec_render(self@));
            }
            return out;
        }
        out.append(": {\n");
        append_entries(&mut out, &self.projects, 0);
        out.append("\n  }\n}");
        proof {
            assert(configs_view(self.projects@).subrange(0, self.projects@.len() as int)
                =~= self@);
            assert(out@ =~= spec_render(self@));
        }
        out
    }

    /// The canonical rendering of a registry with zero entries, used to
    /// seed a fresh installation.
    pub fn empty_config_str() -> (r: String)
        ensures
            r@ == spec_render(Seq::<ProjectConfigV>::empty()),
    {
        let mut out = String::from_str("{\n  ");
        append_quoted(&mut out, "projects");
        out.append(": {}\n}");
        proof {
            assert(out@ =~= spec_render(Seq::<ProjectConfigV>::empty()));
        }
        out
    }
}

} // verus!
