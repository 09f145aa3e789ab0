//! The video catalog format: a JSON array of records with the fields `id`
//! (non-negative integer), `title`, `speaker` and `url` (strings), in any
//! field order. The grammar is stated by spec functions; the executable
//! parser returns exactly what the grammar admits. Strings carry the
//! standard JSON escapes, `\uXXXX` included (a surrogate pair is combined, a
//! lone surrogate refused); a member with a key outside the record's four is
//! skipped, whatever JSON value it holds; a duplicate, missing or mistyped
//! field makes the record malformed.

use vstd::prelude::*;
use crate::digits::{dec_digits, digit_val, digits_val, is_digit};
use crate::video::{Video, VideoView, views_of};

verus! {

/// JSON insignificant whitespace.
pub open spec fn is_json_ws(c: char) -> bool {
    c == ' ' || c == '\t' || c == '\n' || c == '\r'
}

/// First position at or after `i` that holds no whitespace.
pub open spec fn skip_ws(s: Seq<char>, i: int) -> int
    decreases s.len() - i when 0 <= i <= s.len()
{
    if i < s.len() && is_json_ws(s[i]) {
        skip_ws(s, i + 1)
    } else {
        i
    }
}

/// The character named by a simple escape: one of `" \ / b f n r t` after a
/// backslash.
pub open spec fn is_simple_escape(c: char) -> bool {
    c == '"' || c == '\\' || c == '/' || c == 'b' || c == 'f' || c == 'n' || c == 'r' || c == 't'
}

/// What a simple escape stands for.
pub open spec fn escape_char(c: char) -> char {
    if c == 'b' {
        '\u{0008}'
    } else if c == 'f' {
        '\u{000C}'
    } else if c == 'n' {
        '\n'
    } else if c == 'r' {
        '\r'
    } else if c == 't' {
        '\t'
    } else {
        c
    }
}

/// An ASCII hexadecimal digit.
pub open spec fn is_hex(c: char) -> bool {
    ('0' <= c && c <= '9') || ('a' <= c && c <= 'f') || ('A' <= c && c <= 'F')
}

/// Value of one hexadecimal digit.
pub open spec fn hex_val(c: char) -> int {
    if '0' <= c && c <= '9' {
        c as int - '0' as int
    } else if 'a' <= c && c <= 'f' {
        c as int - 'a' as int + 10
    } else {
        c as int - 'A' as int + 10
    }
}

/// Value of the four hexadecimal digits at `p`.
pub open spec fn hex4(s: Seq<char>, p: int) -> int {
    4096 * hex_val(s[p]) + 256 * hex_val(s[p + 1]) + 16 * hex_val(s[p + 2]) + hex_val(s[p + 3])
}

/// A character's code point.
pub open spec fn code_point(c: char) -> u32 {
    c as u32
}

/// The character with the given code point.
pub open spec fn char_of(cp: u32) -> char {
    choose|c: char| code_point(c) == cp
}

/// A `\u` escape at `p` (just after the `u`): four hexadecimal digits naming
/// a code point, a high surrogate followed by a second `\u` low surrogate
/// standing for the combined code point, and a lone surrogate refused.
pub open spec fn parse_u_escape(s: Seq<char>, p: int) -> Option<(char, int)> {
    if p + 4 <= s.len() && is_hex(s[p]) && is_hex(s[p + 1]) && is_hex(s[p + 2]) && is_hex(
        s[p + 3],
    ) {
        let cp = hex4(s, p);
        if cp < 0xD800 || cp >= 0xE000 {
            Some((char_of(cp as u32), p + 4))
        } else if cp < 0xDC00 {
            if p + 10 <= s.len() && s[p + 4] == '\\' && s[p + 5] == 'u' && is_hex(s[p + 6])
                && is_hex(s[p + 7]) && is_hex(s[p + 8]) && is_hex(s[p + 9]) {
                let lo = hex4(s, p + 6);
                if 0xDC00 <= lo && lo < 0xE000 {
                    Some((char_of((0x10000 + (cp - 0xD800) * 0x400 + (lo - 0xDC00)) as u32), p + 10))
                } else {
                    None
                }
            } else {
                None
            }
        } else {
            None
        }
    } else {
        None
    }
}

/// The decoded characters from `j` up to the closing quote, and the position
/// after that quote. An unescaped control character, an unknown escape, a
/// lone surrogate or a missing quote is refused.
pub open spec fn parse_string_chars(s: Seq<char>, j: int) -> Option<(Seq<char>, int)>
    decreases s.len() - j when 0 <= j <= s.len()
{
    if j >= s.len() {
        None
    } else if s[j] == '"' {
        Some((Seq::empty(), j + 1))
    } else if s[j] == '\\' {
        if j + 1 < s.len() {
            let c = s[j + 1];
            if is_simple_escape(c) {
                match parse_string_chars(s, j + 2) {
                    Some((cs, e)) => Some((seq![escape_char(c)] + cs, e)),
                    None => None,
                }
            } else if c == 'u' {
                match parse_u_escape(s, j + 2) {
                    Some((ch, m)) => if j < m <= s.len() {
                        match parse_string_chars(s, m) {
                            Some((cs, e)) => Some((seq![ch] + cs, e)),
                            None => None,
                        }
                    } else {
                        None
                    },
                    None => None,
                }
            } else {
                None
            }
        } else {
            None
        }
    } else if (s[j] as u32) < 32 {
        None
    } else {
        match parse_string_chars(s, j + 1) {
            Some((cs, e)) => Some((seq![s[j]] + cs, e)),
            None => None,
        }
    }
}

/// A string literal at `i`: its decoded characters and the position after it.
pub open spec fn spec_parse_string(s: Seq<char>, i: int) -> Option<(Seq<char>, int)> {
    if 0 <= i < s.len() && s[i] == '"' {
        parse_string_chars(s, i + 1)
    } else {
        None
    }
}

/// First position at or after `j` that holds no digit.
pub open spec fn digits_end(s: Seq<char>, j: int) -> int
    decreases s.len() - j when 0 <= j <= s.len()
{
    if j < s.len() && is_digit(s[j]) {
        digits_end(s, j + 1)
    } else {
        j
    }
}

/// A non-negative integer at `i`: digits without a leading zero, fitting the
/// id type, and the position after them.
pub open spec fn spec_parse_number(s: Seq<char>, i: int) -> Option<(u64, int)> {
    let e = digits_end(s, i);
    if e == i {
        None
    } else if s[i] == '0' && e > i + 1 {
        None
    } else if digits_val(s.subrange(i, e)) > u64::MAX {
        None
    } else {
        Some((digits_val(s.subrange(i, e)) as u64, e))
    }
}

/// The fraction part of a number at `i`, if one stands there.
pub open spec fn skip_frac(s: Seq<char>, i: int) -> Option<int> {
    if i < s.len() && s[i] == '.' {
        let e = digits_end(s, i + 1);
        if e > i + 1 {
            Some(e)
        } else {
            None
        }
    } else {
        Some(i)
    }
}

/// The exponent part of a number at `i`, if one stands there.
pub open spec fn skip_exp(s: Seq<char>, i: int) -> Option<int> {
    if i < s.len() && (s[i] == 'e' || s[i] == 'E') {
        let p = if i + 1 < s.len() && (s[i + 1] == '+' || s[i + 1] == '-') {
            i + 2
        } else {
            i + 1
        };
        let e = digits_end(s, p);
        if e > p {
            Some(e)
        } else {
            None
        }
    } else {
        Some(i)
    }
}

/// A JSON number at `i`, by shape alone: optional sign, integer part without
/// a leading zero, optional fraction and exponent. Its value is discarded.
pub open spec fn skip_number(s: Seq<char>, i: int) -> Option<int> {
    let p = if i < s.len() && s[i] == '-' {
        i + 1
    } else {
        i
    };
    let e1 = digits_end(s, p);
    if e1 == p {
        None
    } else if s[p] == '0' && e1 > p + 1 {
        None
    } else {
        match skip_frac(s, e1) {
            Some(e2) => skip_exp(s, e2),
            None => None,
        }
    }
}

/// Any JSON value at `i`, read for its extent alone: a member of the record
/// with an unknown key carries one, and it is skipped.
pub open spec fn skip_value(s: Seq<char>, i: int) -> Option<int>
    decreases s.len() - i, 1int when 0 <= i <= s.len()
{
    if i >= s.len() {
        None
    } else if s[i] == '"' {
        match parse_string_chars(s, i + 1) {
            Some((cs, e)) => Some(e),
            None => None,
        }
    } else if s[i] == '-' || is_digit(s[i]) {
        skip_number(s, i)
    } else if s[i] == 't' {
        if i + 4 <= s.len() && s[i + 1] == 'r' && s[i + 2] == 'u' && s[i + 3] == 'e' {
            Some(i + 4)
        } else {
            None
        }
    } else if s[i] == 'f' {
        if i + 5 <= s.len() && s[i + 1] == 'a' && s[i + 2] == 'l' && s[i + 3] == 's' && s[i + 4]
            == 'e' {
            Some(i + 5)
        } else {
            None
        }
    } else if s[i] == 'n' {
        if i + 4 <= s.len() && s[i + 1] == 'u' && s[i + 2] == 'l' && s[i + 3] == 'l' {
            Some(i + 4)
        } else {
            None
        }
    } else if s[i] == '[' {
        let m = skip_ws(s, i + 1);
        if m < s.len() && s[m] == ']' {
            Some(m + 1)
        } else if i < m <= s.len() {
            skip_items(s, m)
        } else {
            None
        }
    } else if s[i] == '{' {
        let m = skip_ws(s, i + 1);
        if m < s.len() && s[m] == '}' {
            Some(m + 1)
        } else if i < m <= s.len() {
            skip_pairs(s, m)
        } else {
            None
        }
    } else {
        None
    }
}

/// The items of a skipped array from `i` on, up to and including its closing
/// bracket.
pub open spec fn skip_items(s: Seq<char>, i: int) -> Option<int>
    decreases s.len() - i, 2int when 0 <= i <= s.len()
{
    match skip_value(s, i) {
        None => None,
        Some(j) => {
            let k = skip_ws(s, j);
            if k < s.len() && s[k] == ']' {
                Some(k + 1)
            } else if k < s.len() && s[k] == ',' {
                let m = skip_ws(s, k + 1);
                if i < m <= s.len() {
                    skip_items(s, m)
                } else {
                    None
                }
            } else {
                None
            }
        },
    }
}

/// The members of a skipped object from `i` on, up to and including its
/// closing brace.
pub open spec fn skip_pairs(s: Seq<char>, i: int) -> Option<int>
    decreases s.len() - i, 2int when 0 <= i <= s.len()
{
    if i < s.len() && s[i] == '"' {
        match parse_string_chars(s, i + 1) {
            None => None,
            Some((key, j)) => {
                let k = skip_ws(s, j);
                if k < s.len() && s[k] == ':' {
                    let m = skip_ws(s, k + 1);
                    if i < m <= s.len() {
                        match skip_value(s, m) {
                            None => None,
                            Some(e) => {
                                let k2 = skip_ws(s, e);
                                if k2 < s.len() && s[k2] == '}' {
                                    Some(k2 + 1)
                                } else if k2 < s.len() && s[k2] == ',' {
                                    let m2 = skip_ws(s, k2 + 1);
                                    if i < m2 <= s.len() {
                                        skip_pairs(s, m2)
                                    } else {
                                        None
                                    }
                                } else {
                                    None
                                }
                            },
                        }
                    } else {
                        None
                    }
                } else {
                    None
                }
            },
        }
    } else {
        None
    }
}

/// Skips whitespace starting at `i`.
fn skip_ws_at(s: &str, i: usize) -> (j: usize)
    requires
        i <= s@.len(),
    ensures
        j == skip_ws(s@, i as int),
        i <= j <= s@.len(),
{
    let n = s.unicode_len();
    let mut j = i;
    loop
        invariant
            i <= j <= n,
            n == s@.len(),
            skip_ws(s@, i as int) == skip_ws(s@, j as int),
        decreases n - j,
    {
        if j >= n {
            return j;
        }
        let c = s.get_char(j);
        if !(c == ' ' || c == '\t' || c == '\n' || c == '\r') {
            return j;
        }
        j = j + 1;
    }
}

/// Relies on char::from_u32: the result is `Some` exactly for a valid scalar
/// value (not a surrogate, at most 0x10FFFF), and holds the character with
/// that very code point.
#[verifier::external_body]
fn char_from_u32(v: u32) -> (r: Option<char>)
    ensures
        r matches Some(c) ==> c as u32 == v,
        (r is Some) <==> (v < 0xD800 || (0xE000 <= v && v <= 0x10FFFF)),
{
    char::from_u32(v)
}

/// Relies on String::push: appends the given character at the end.
#[verifier::external_body]
fn push_char(out: &mut String, c: char)
    ensures
        final(out)@ == old(out)@.push(c),
{
    out.push(c);
}

/// The computed character has the code point, so it is the character of that
/// code point.
proof fn lemma_char_of(c: char, cp: u32)
    requires
        c as u32 == cp,
    ensures
        char_of(cp) == c,
{
    assert(exists|x: char| code_point(x) == cp) by {
        assert(code_point(c) == cp);
    }
    assert(code_point(char_of(cp)) == cp);
}

/// What a simple escape stands for.
fn escape_char_at(c: char) -> (r: char)
    ensures
        r == escape_char(c),
{
    if c == 'b' {
        '\u{0008}'
    } else if c == 'f' {
        '\u{000C}'
    } else if c == 'n' {
        '\n'
    } else if c == 'r' {
        '\r'
    } else if c == 't' {
        '\t'
    } else {
        c
    }
}

/// Value of one hexadecimal digit, if it is one.
fn hex_val_at(c: char) -> (r: Option<u32>)
    ensures
        match r {
            Some(v) => is_hex(c) && v as int == hex_val(c) && v < 16,
            None => !is_hex(c),
        },
{
    if c >= '0' && c <= '9' {
        Some(c as u32 - 48)
    } else if c >= 'a' && c <= 'f' {
        Some(c as u32 - 87)
    } else if c >= 'A' && c <= 'F' {
        Some(c as u32 - 55)
    } else {
        None
    }
}

/// Reads the four hexadecimal digits at `p`, if they are there.
fn hex4_at(s: &str, p: usize) -> (r: Option<u32>)
    requires
        p <= s@.len(),
    ensures
        match r {
            Some(v) => {
                &&& p + 4 <= s@.len()
                &&& is_hex(s@[p as int]) && is_hex(s@[p + 1]) && is_hex(s@[p + 2]) && is_hex(
                    s@[p + 3],
                )
                &&& v as int == hex4(s@, p as int)
                &&& v <= 0xFFFF
            },
            None => !(p + 4 <= s@.len() && is_hex(s@[p as int]) && is_hex(s@[p + 1]) && is_hex(
                s@[p + 2],
            ) && is_hex(s@[p + 3])),
        },
{
    let n = s.unicode_len();
    if n < 4 || p > n - 4 {
        return None;
    }
    let h0 = match hex_val_at(s.get_char(p)) {
        Some(v) => v,
        None => {
            return None;
        },
    };
    let h1 = match hex_val_at(s.get_char(p + 1)) {
        Some(v) => v,
        None => {
            return None;
        },
    };
    let h2 = match hex_val_at(s.get_char(p + 2)) {
        Some(v) => v,
        None => {
            return None;
        },
    };
    let h3 = match hex_val_at(s.get_char(p + 3)) {
        Some(v) => v,
        None => {
            return None;
        },
    };
    Some(4096 * h0 + 256 * h1 + 16 * h2 + h3)
}

/// Parses a `\u` escape at `p` (just after the `u`).
fn parse_u_escape_at(s: &str, p: usize) -> (r: Option<(char, usize)>)
    requires
        p <= s@.len(),
    ensures
        match r {
            Some((ch, m)) => {
                &&& parse_u_escape(s@, p as int) == Some((ch, m as int))
                &&& p < m <= s@.len()
            },
            None => parse_u_escape(s@, p as int) is None,
        },
{
    let n = s.unicode_len();
    let cp = match hex4_at(s, p) {
        Some(v) => v,
        None => {
            return None;
        },
    };
    if cp < 0xD800 || cp >= 0xE000 {
        let c = char_from_u32(cp).unwrap();
        proof {
            lemma_char_of(c, cp);
        }
        return Some((c, p + 4));
    }
    if cp >= 0xDC00 {
        return None;
    }
    if n < 10 || p > n - 10 {
        return None;
    }
    if s.get_char(p + 4) != '\\' || s.get_char(p + 5) != 'u' {
        return None;
    }
    let lo = match hex4_at(s, p + 6) {
        Some(v) => v,
        None => {
            return None;
        },
    };
    if !(0xDC00 <= lo && lo < 0xE000) {
        return None;
    }
    let combined = 0x10000 + (cp - 0xD800) * 0x400 + (lo - 0xDC00);
    let c = char_from_u32(combined).unwrap();
    proof {
        lemma_char_of(c, combined);
    }
    Some((c, p + 10))
}

/// Decodes the string content from `j` up to the closing quote.
fn parse_string_chars_at(s: &str, j: usize) -> (r: Option<(String, usize)>)
    requires
        j <= s@.len(),
    ensures
        match r {
            Some((cs, e)) => {
                &&& parse_string_chars(s@, j as int) == Some((cs@, e as int))
                &&& j < e <= s@.len()
            },
            None => parse_string_chars(s@, j as int) is None,
        },
    decreases s@.len() - j,
{
    let n = s.unicode_len();
    if j >= n {
        return None;
    }
    let c = s.get_char(j);
    if c == '"' {
        let out = String::new();
        proof {
            assert(out@ =~= Seq::<char>::empty());
        }
        return Some((out, j + 1));
    }
    if c == '\\' {
        if j + 1 >= n {
            return None;
        }
        let c2 = s.get_char(j + 1);
        if c2 == '"' || c2 == '\\' || c2 == '/' || c2 == 'b' || c2 == 'f' || c2 == 'n' || c2
            == 'r' || c2 == 't' {
            match parse_string_chars_at(s, j + 2) {
                Some((tail, e)) => {
                    let mut out = String::new();
                    push_char(&mut out, escape_char_at(c2));
                    out.append(tail.as_str());
                    proof {
                        assert(out@ =~= seq![escape_char(c2)] + tail@);
                    }
                    return Some((out, e));
                },
                None => {
                    return None;
                },
            }
        }
        if c2 == 'u' {
            match parse_u_escape_at(s, j + 2) {
                Some((ch, m)) => match parse_string_chars_at(s, m) {
                    Some((tail, e)) => {
                        let mut out = String::new();
                        push_char(&mut out, ch);
                        out.append(tail.as_str());
                        proof {
                            assert(out@ =~= seq![ch] + tail@);
                        }
                        return Some((out, e));
                    },
                    None => {
                        return None;
                    },
                },
                None => {
                    return None;
                },
            }
        }
        return None;
    }
    if (c as u32) < 32 {
        return None;
    }
    match parse_string_chars_at(s, j + 1) {
        Some((tail, e)) => {
            let mut out = String::new();
            push_char(&mut out, c);
            out.append(tail.as_str());
            proof {
                assert(out@ =~= seq![c] + tail@);
            }
            Some((out, e))
        },
        None => None,
    }
}

/// Parses a string literal at `i`.
fn parse_string_at(s: &str, i: usize) -> (r: Option<(String, usize)>)
    requires
        i <= s@.len(),
    ensures
        match r {
            Some((cs, j)) => {
                &&& spec_parse_string(s@, i as int) == Some((cs@, j as int))
                &&& i < j <= s@.len()
            },
            None => spec_parse_string(s@, i as int) is None,
        },
{
    let n = s.unicode_len();
    if i >= n || s.get_char(i) != '"' {
        return None;
    }
    parse_string_chars_at(s, i + 1)
}

/// Parses a non-negative integer at `i`.
fn parse_number_at(s: &str, i: usize) -> (r: Option<(u64, usize)>)
    requires
        i <= s@.len(),
    ensures
        match r {
            Some((v, j)) => {
                &&& spec_parse_number(s@, i as int) == Some((v, j as int))
                &&& i < j <= s@.len()
            },
            None => spec_parse_number(s@, i as int) is None,
        },
{
    let n = s.unicode_len();
    let mut j = i;
    let mut over = false;
    let mut val: u64 = 0;
    loop
        invariant
            i <= j <= n,
            n == s@.len(),
            digits_end(s@, i as int) == digits_end(s@, j as int),
            !over ==> val == digits_val(s@.subrange(i as int, j as int)),
            over ==> digits_val(s@.subrange(i as int, j as int)) > u64::MAX,
        ensures
            i <= j <= n,
            n == s@.len(),
            j == digits_end(s@, i as int),
            !over ==> val == digits_val(s@.subrange(i as int, j as int)),
            over ==> digits_val(s@.subrange(i as int, j as int)) > u64::MAX,
        decreases n - j,
    {
        if j >= n {
            break;
        }
        let c = s.get_char(j);
        if !(c >= '0' && c <= '9') {
            break;
        }
        let d = c as u64 - 48;
        let ghost prev = digits_val(s@.subrange(i as int, j as int));
        proof {
            assert(s@.subrange(i as int, j + 1).drop_last() =~= s@.subrange(i as int, j as int));
            assert(s@.subrange(i as int, j + 1).last() == s@[j as int]);
            assert(digit_val(s@[j as int]) == d as int);
            assert(digits_val(s@.subrange(i as int, j + 1)) == prev * 10 + d);
        }
        if !over {
            if val > (u64::MAX - d) / 10 {
                over = true;
                proof {
                    assert(prev * 10 + d > u64::MAX) by (nonlinear_arith)
                        requires
                            prev == val as int,
                            0 <= d < 10,
                            val > (u64::MAX - d) / 10,
                    ;
                }
            } else {
                proof {
                    assert(val * 10 + d <= u64::MAX) by (nonlinear_arith)
                        requires
                            0 <= d < 10,
                            0 <= val,
                            val <= (u64::MAX - d) / 10,
                    ;
                }
                val = val * 10 + d;
            }
        } else {
            proof {
                assert(prev * 10 + d > u64::MAX) by (nonlinear_arith)
                    requires
                        prev > u64::MAX,
                        0 <= d,
                ;
            }
        }
        j = j + 1;
    }
    if j == i {
        return None;
    }
    if s.get_char(i) == '0' && j > i + 1 {
        return None;
    }
    if over {
        return None;
    }
    Some((val, j))
}

/// Finds the end of the digits starting at `j`.
fn digits_end_at(s: &str, j: usize) -> (e: usize)
    requires
        j <= s@.len(),
    ensures
        e == digits_end(s@, j as int),
        j <= e <= s@.len(),
{
    let n = s.unicode_len();
    let mut e = j;
    loop
        invariant
            j <= e <= n,
            n == s@.len(),
            digits_end(s@, j as int) == digits_end(s@, e as int),
        decreases n - e,
    {
        if e >= n {
            return e;
        }
        let c = s.get_char(e);
        if !(c >= '0' && c <= '9') {
            return e;
        }
        e = e + 1;
    }
}

/// Skips a JSON number at `i`.
fn skip_number_at(s: &str, i: usize) -> (r: Option<usize>)
    requires
        i <= s@.len(),
    ensures
        match r {
            Some(e) => skip_number(s@, i as int) == Some(e as int) && i < e <= s@.len(),
            None => skip_number(s@, i as int) is None,
        },
{
    let n = s.unicode_len();
    let p = if i < n && s.get_char(i) == '-' {
        i + 1
    } else {
        i
    };
    let e1 = digits_end_at(s, p);
    if e1 == p {
        return None;
    }
    if s.get_char(p) == '0' && e1 > p + 1 {
        return None;
    }
    let e2 = if e1 < n && s.get_char(e1) == '.' {
        let e = digits_end_at(s, e1 + 1);
        if e > e1 + 1 {
            e
        } else {
            return None;
        }
    } else {
        e1
    };
    let e3 = if e2 < n && (s.get_char(e2) == 'e' || s.get_char(e2) == 'E') {
        let p2 = if e2 + 1 < n && (s.get_char(e2 + 1) == '+' || s.get_char(e2 + 1) == '-') {
            e2 + 2
        } else {
            e2 + 1
        };
        let e = digits_end_at(s, p2);
        if e > p2 {
            e
        } else {
            return None;
        }
    } else {
        e2
    };
    Some(e3)
}

/// Skips any JSON value at `i`.
fn skip_value_at(s: &str, i: usize) -> (r: Option<usize>)
    requires
        i <= s@.len(),
    ensures
        match r {
            Some(j) => skip_value(s@, i as int) == Some(j as int) && i < j <= s@.len(),
            None => skip_value(s@, i as int) is None,
        },
    decreases s@.len() - i, 1int,
{
    let n = s.unicode_len();
    if i >= n {
        return None;
    }
    let c = s.get_char(i);
    if c == '"' {
        match parse_string_chars_at(s, i + 1) {
            Some((_content, e)) => Some(e),
            None => None,
        }
    } else if c == '-' || (c >= '0' && c <= '9') {
        skip_number_at(s, i)
    } else if c == 't' {
        if n - i >= 4 && s.get_char(i + 1) == 'r' && s.get_char(i + 2) == 'u' && s.get_char(i + 3)
            == 'e' {
            Some(i + 4)
        } else {
            None
        }
    } else if c == 'f' {
        if n - i >= 5 && s.get_char(i + 1) == 'a' && s.get_char(i + 2) == 'l' && s.get_char(i + 3)
            == 's' && s.get_char(i + 4) == 'e' {
            Some(i + 5)
        } else {
            None
        }
    } else if c == 'n' {
        if n - i >= 4 && s.get_char(i + 1) == 'u' && s.get_char(i + 2) == 'l' && s.get_char(i + 3)
            == 'l' {
            Some(i + 4)
        } else {
            None
        }
    } else if c == '[' {
        let m = skip_ws_at(s, i + 1);
        if m < n && s.get_char(m) == ']' {
            Some(m + 1)
        } else {
            skip_items_at(s, m)
        }
    } else if c == '{' {
        let m = skip_ws_at(s, i + 1);
        if m < n && s.get_char(m) == '}' {
            Some(m + 1)
        } else {
            skip_pairs_at(s, m)
        }
    } else {
        None
    }
}

/// Skips the items of an array from `i` on.
fn skip_items_at(s: &str, i: usize) -> (r: Option<usize>)
    requires
        i <= s@.len(),
    ensures
        match r {
            Some(j) => skip_items(s@, i as int) == Some(j as int) && i < j <= s@.len(),
            None => skip_items(s@, i as int) is None,
        },
    decreases s@.len() - i, 2int,
{
    let n = s.unicode_len();
    match skip_value_at(s, i) {
        None => None,
        Some(j) => {
            let k = skip_ws_at(s, j);
            if k < n && s.get_char(k) == ']' {
                Some(k + 1)
            } else if k < n && s.get_char(k) == ',' {
                let m = skip_ws_at(s, k + 1);
                skip_items_at(s, m)
            } else {
                None
            }
        },
    }
}

/// Skips the members of an object from `i` on.
fn skip_pairs_at(s: &str, i: usize) -> (r: Option<usize>)
    requires
        i <= s@.len(),
    ensures
        match r {
            Some(j) => skip_pairs(s@, i as int) == Some(j as int) && i < j <= s@.len(),
            None => skip_pairs(s@, i as int) is None,
        },
    decreases s@.len() - i, 2int,
{
    let n = s.unicode_len();
    if !(i < n && s.get_char(i) == '"') {
        return None;
    }
    match parse_string_chars_at(s, i + 1) {
        None => None,
        Some((_key, j)) => {
            let k = skip_ws_at(s, j);
            if !(k < n && s.get_char(k) == ':') {
                return None;
            }
            let m = skip_ws_at(s, k + 1);
            match skip_value_at(s, m) {
                None => None,
                Some(e) => {
                    let k2 = skip_ws_at(s, e);
                    if k2 < n && s.get_char(k2) == '}' {
                        Some(k2 + 1)
                    } else if k2 < n && s.get_char(k2) == ',' {
                        let m2 = skip_ws_at(s, k2 + 1);
                        skip_pairs_at(s, m2)
                    } else {
                        None
                    }
                },
            }
        },
    }
}

/// The fields of one record gathered so far, each at most once.
pub struct FieldsView {
    pub id: Option<u64>,
    pub title: Option<Seq<char>>,
    pub speaker: Option<Seq<char>>,
    pub url: Option<Seq<char>>,
}

/// No field gathered yet.
pub open spec fn empty_fields() -> FieldsView {
    FieldsView { id: None, title: None, speaker: None, url: None }
}

/// Executable counterpart of `FieldsView`.
pub struct VideoFields {
    pub id: Option<u64>,
    pub title: Option<String>,
    pub speaker: Option<String>,
    pub url: Option<String>,
}

impl View for VideoFields {
    type V = FieldsView;

    open spec fn view(&self) -> FieldsView {
        FieldsView {
            id: self.id,
            title: match self.title {
                Some(t) => Some(t@),
                None => None,
            },
            speaker: match self.speaker {
                Some(t) => Some(t@),
                None => None,
            },
            url: match self.url {
                Some(t) => Some(t@),
                None => None,
            },
        }
    }
}

/// One `"key": value` member at `i`, added to `acc`. A member with a key
/// outside the four of the record is skipped, whatever JSON value it holds;
/// a repeated key of the record, or a value of the wrong shape, is refused.
pub open spec fn spec_parse_member(s: Seq<char>, i: int, acc: FieldsView) -> Option<
    (FieldsView, int),
> {
    match spec_parse_string(s, i) {
        None => None,
        Some((key, j)) => {
            let k = skip_ws(s, j);
            if k < s.len() && s[k] == ':' {
                let m = skip_ws(s, k + 1);
                if key == "id"@ {
                    if acc.id is Some {
                        None
                    } else {
                        match spec_parse_number(s, m) {
                            Some((v, e)) => Some((FieldsView { id: Some(v), ..acc }, e)),
                            None => None,
                        }
                    }
                } else if key == "title"@ {
                    if acc.title is Some {
                        None
                    } else {
                        match spec_parse_string(s, m) {
                            Some((cs, e)) => Some((FieldsView { title: Some(cs), ..acc }, e)),
                            None => None,
                        }
                    }
                } else if key == "speaker"@ {
                    if acc.speaker is Some {
                        None
                    } else {
                        match spec_parse_string(s, m) {
                            Some((cs, e)) => Some((FieldsView { speaker: Some(cs), ..acc }, e)),
                            None => None,
                        }
                    }
                } else if key == "url"@ {
                    if acc.url is Some {
                        None
                    } else {
                        match spec_parse_string(s, m) {
                            Some((cs, e)) => Some((FieldsView { url: Some(cs), ..acc }, e)),
                            None => None,
                        }
                    }
                } else {
                    match skip_value(s, m) {
                        Some(e) => Some((acc, e)),
                        None => None,
                    }
                }
            } else {
                None
            }
        },
    }
}

/// The members of a record from `i` on, gathered into `acc`, up to and
/// including the closing brace.
pub open spec fn parse_members(s: Seq<char>, i: int, acc: FieldsView) -> Option<
    (FieldsView, int),
>
    decreases s.len() - i when 0 <= i <= s.len()
{
    match spec_parse_member(s, i, acc) {
        None => None,
        Some((a, j)) => {
            let k = skip_ws(s, j);
            if k < s.len() && s[k] == '}' {
                Some((a, k + 1))
            } else if k < s.len() && s[k] == ',' {
                let m = skip_ws(s, k + 1);
                if i < m <= s.len() {
                    parse_members(s, m, a)
                } else {
                    None
                }
            } else {
                None
            }
        },
    }
}

/// A record is complete when all four fields were gathered.
pub open spec fn complete_fields(a: FieldsView) -> Option<VideoView> {
    match (a.id, a.title, a.speaker, a.url) {
        (Some(id), Some(title), Some(speaker), Some(url)) => Some(
            VideoView { id, title, speaker, url },
        ),
        _ => None,
    }
}

/// One record at `i`: a brace-delimited object whose members give every
/// field of a video exactly once; members with other keys are skipped.
pub open spec fn spec_parse_video(s: Seq<char>, i: int) -> Option<(VideoView, int)> {
    if 0 <= i < s.len() && s[i] == '{' {
        match parse_members(s, skip_ws(s, i + 1), empty_fields()) {
            Some((a, e)) => match complete_fields(a) {
                Some(v) => Some((v, e)),
                None => None,
            },
            None => None,
        }
    } else {
        None
    }
}

/// The records from `i` on, already holding `acc`, up to and including the
/// closing bracket of the array.
pub open spec fn spec_parse_elems(s: Seq<char>, i: int, acc: Seq<VideoView>) -> Option<
    (Seq<VideoView>, int),
>
    decreases s.len() - i when 0 <= i <= s.len()
{
    match spec_parse_video(s, i) {
        None => None,
        Some((v, j)) => {
            let k = skip_ws(s, j);
            if k < s.len() && s[k] == ']' {
                Some((acc.push(v), k + 1))
            } else if k < s.len() && s[k] == ',' {
                let m = skip_ws(s, k + 1);
                if i < m <= s.len() {
                    spec_parse_elems(s, m, acc.push(v))
                } else {
                    None
                }
            } else {
                None
            }
        },
    }
}

/// The whole catalog: a bracket-delimited array of records, possibly empty,
/// with nothing but whitespace around it. The records come out in the order
/// in which they stand in the text.
pub open spec fn spec_parse_videos(s: Seq<char>) -> Option<Seq<VideoView>> {
    let i = skip_ws(s, 0);
    if i < s.len() && s[i] == '[' {
        let j = skip_ws(s, i + 1);
        if j < s.len() && s[j] == ']' {
            if skip_ws(s, j + 1) == s.len() {
                Some(Seq::empty())
            } else {
                None
            }
        } else {
            match spec_parse_elems(s, j, Seq::empty()) {
                Some((vs, k)) => if skip_ws(s, k) == s.len() {
                    Some(vs)
                } else {
                    None
                },
                None => None,
            }
        }
    } else {
        None
    }
}

/// Text that can stand between quotes unchanged: no quote, no backslash, no
/// control character.
pub open spec fn clean(cs: Seq<char>) -> bool {
    forall|k: int| 0 <= k < cs.len() ==> cs[k] != '"' && cs[k] != '\\' && (cs[k] as u32) >= 32
}

/// A video whose text fields can stand between quotes unchanged.
pub open spec fn clean_video(v: VideoView) -> bool {
    clean(v.title) && clean(v.speaker) && clean(v.url)
}

/// `cs` between quotes.
pub open spec fn qstr(cs: Seq<char>) -> Seq<char> {
    seq!['"'] + cs + seq!['"']
}

/// The canonical text of the id member.
pub open spec fn member_id_json(n: u64) -> Seq<char> {
    qstr("id"@) + seq![':'] + dec_digits(n as int)
}

/// The canonical text of a string-valued member.
pub open spec fn member_str_json(key: Seq<char>, cs: Seq<char>) -> Seq<char> {
    qstr(key) + seq![':'] + qstr(cs)
}

/// The canonical text of one record: the four members in a fixed order,
/// without whitespace.
pub open spec fn video_json(v: VideoView) -> Seq<char> {
    seq!['{'] + member_id_json(v.id) + seq![','] + member_str_json("title"@, v.title) + seq![',']
        + member_str_json("speaker"@, v.speaker) + seq![','] + member_str_json("url"@, v.url)
        + seq!['}']
}

/// The canonical text of the records from `k` on, comma-separated.
pub open spec fn videos_json_body(vs: Seq<VideoView>, k: int) -> Seq<char>
    decreases vs.len() - k when 0 <= k <= vs.len()
{
    if k >= vs.len() {
        Seq::empty()
    } else if k + 1 == vs.len() {
        video_json(vs[k])
    } else {
        video_json(vs[k]) + seq![','] + videos_json_body(vs, k + 1)
    }
}

/// The canonical text of a whole catalog.
pub open spec fn videos_json(vs: Seq<VideoView>) -> Seq<char> {
    seq!['['] + videos_json_body(vs, 0) + seq![']']
}

/// Characters of a segment read off inside the enclosing text.
proof fn lemma_seg_char(s: Seq<char>, i: int, seg: Seq<char>, k: int)
    requires
        0 <= i,
        i + seg.len() <= s.len(),
        s.subrange(i, i + seg.len()) == seg,
        0 <= k < seg.len(),
    ensures
        s[i + k] == seg[k],
{
    assert(s.subrange(i, i + seg.len())[k] == s[i + k]);
}

/// Text without quotes, backslashes or control characters decodes to itself,
/// up to the closing quote behind it.
proof fn lemma_string_chars_plain(s: Seq<char>, j: int, e: int)
    requires
        0 <= j <= e < s.len(),
        s[e] == '"',
        forall|k: int| j <= k < e ==> s[k] != '"' && s[k] != '\\' && (s[k] as u32) >= 32,
    ensures
        parse_string_chars(s, j) == Some((s.subrange(j, e), e + 1)),
    decreases e - j,
{
    if j == e {
        assert(s.subrange(j, e) =~= Seq::<char>::empty());
    } else {
        lemma_string_chars_plain(s, j + 1, e);
        assert(seq![s[j]] + s.subrange(j + 1, e) =~= s.subrange(j, e));
    }
}

/// Parsing at an embedded quoted clean text yields exactly that text.
proof fn lemma_parse_string_seg(s: Seq<char>, i: int, cs: Seq<char>)
    requires
        0 <= i,
        i + cs.len() + 2 <= s.len(),
        s.subrange(i, i + cs.len() + 2) == qstr(cs),
        clean(cs),
    ensures
        spec_parse_string(s, i) == Some((cs, i + cs.len() + 2)),
{
    let q = qstr(cs);
    let a = seq!['"'] + cs;
    assert(q.len() == cs.len() + 2);
    assert forall|k: int| 0 <= k < q.len() implies s[i + k] == q[k] by {
        lemma_seg_char(s, i, q, k);
    }
    assert forall|k: int| 0 <= k < cs.len() implies q[1 + k] == cs[k] by {
        assert(q[1 + k] == a[1 + k]);
        assert(a[1 + k] == cs[k]);
    }
    assert(q[0] == a[0]);
    assert(a[0] == '"');
    assert(s[i] == '"');
    assert(s[i + cs.len() + 1] == q[cs.len() as int + 1]);
    assert(q[cs.len() as int + 1] == '"');
    assert forall|k: int| i + 1 <= k < i + 1 + cs.len() implies s[k] != '"' && s[k] != '\\' && (
    s[k] as u32) >= 32 by {
        assert(s[k] == s[i + (k - i)]);
        assert(s[i + (k - i)] == q[k - i]);
        assert(q[k - i] == q[1 + (k - i - 1)]);
        assert(q[1 + (k - i - 1)] == cs[k - i - 1]);
    }
    lemma_string_chars_plain(s, i + 1, i + 1 + cs.len());
    assert forall|k: int| 0 <= k < cs.len() implies s.subrange(i + 1, i + 1 + cs.len())[k]
        == cs[k] by {
        assert(s.subrange(i + 1, i + 1 + cs.len())[k] == s[i + 1 + k]);
        assert(s[i + 1 + k] == s[i + (1 + k)]);
        assert(s[i + (1 + k)] == q[1 + k]);
    }
    assert(s.subrange(i + 1, i + 1 + cs.len()) =~= cs);
}

/// The scan for the end of the digits stops right after them.
proof fn lemma_digits_end_finds(s: Seq<char>, j: int, e: int)
    requires
        0 <= j <= e <= s.len(),
        forall|k: int| j <= k < e ==> is_digit(s[k]),
        e == s.len() || !is_digit(s[e]),
    ensures
        digits_end(s, j) == e,
    decreases e - j,
{
    if j < e {
        lemma_digits_end_finds(s, j + 1, e);
    }
}

/// The first digit of a positive rendered number is never zero.
proof fn lemma_dec_digits_leading(n: int)
    requires
        n >= 1,
    ensures
        dec_digits(n)[0] != '0',
    decreases n,
{
    if n >= 10 {
        lemma_dec_digits_leading(n / 10);
    }
}

/// Parsing at an embedded rendered number yields exactly that number.
proof fn lemma_parse_number_seg(s: Seq<char>, i: int, n: u64)
    requires
        0 <= i,
        i + dec_digits(n as int).len() <= s.len(),
        s.subrange(i, i + dec_digits(n as int).len()) == dec_digits(n as int),
        i + dec_digits(n as int).len() == s.len() || !is_digit(
            s[i + dec_digits(n as int).len()],
        ),
    ensures
        spec_parse_number(s, i) == Some((n, i + dec_digits(n as int).len())),
{
    let ds = dec_digits(n as int);
    crate::digits::lemma_dec_digits_shape(n as int);
    crate::digits::lemma_dec_digits_val(n as int);
    assert forall|k: int| 0 <= k < ds.len() implies s[i + k] == ds[k] by {
        lemma_seg_char(s, i, ds, k);
    }
    assert forall|k: int| i <= k < i + ds.len() implies is_digit(s[k]) by {
        assert(s[k] == ds[k - i]);
    }
    lemma_digits_end_finds(s, i, i + ds.len());
    assert(s.subrange(i, i + ds.len()) =~= ds);
    if n == 0 {
        assert(ds.len() == 1);
    } else {
        lemma_dec_digits_leading(n as int);
        assert(s[i] == ds[0]);
    }
    assert(digits_val(ds) == n as int);
}

/// A subrange of an embedded segment is the segment's own subrange.
proof fn lemma_sub_seg(s: Seq<char>, i: int, seg: Seq<char>, a: int, b: int)
    requires
        0 <= i,
        i + seg.len() <= s.len(),
        s.subrange(i, i + seg.len()) == seg,
        0 <= a <= b <= seg.len(),
    ensures
        s.subrange(i + a, i + b) == seg.subrange(a, b),
{
    assert forall|k: int| 0 <= k < b - a implies s.subrange(i + a, i + b)[k] == seg.subrange(
        a,
        b,
    )[k] by {
        assert(s.subrange(i + a, i + b)[k] == s[i + a + k]);
        lemma_seg_char(s, i, seg, a + k);
        assert(s[i + (a + k)] == seg[a + k]);
    }
    assert(s.subrange(i + a, i + b) =~= seg.subrange(a, b));
}

/// How an embedded string-valued member parses piece by piece.
proof fn lemma_member_str_shape(s: Seq<char>, i: int, key: Seq<char>, cs: Seq<char>)
    requires
        0 <= i,
        i + member_str_json(key, cs).len() <= s.len(),
        s.subrange(i, i + member_str_json(key, cs).len()) == member_str_json(key, cs),
        clean(key),
        clean(cs),
    ensures
        spec_parse_string(s, i) == Some((key, i + key.len() + 2)),
        skip_ws(s, i + key.len() + 2) == i + key.len() + 2,
        s[i + key.len() + 2] == ':',
        skip_ws(s, i + key.len() + 3) == i + key.len() + 3,
        spec_parse_string(s, i + key.len() + 3) == Some(
            (cs, i + member_str_json(key, cs).len()),
        ),
{
    let m = member_str_json(key, cs);
    let kl = key.len() as int;
    assert(m.len() == kl + 3 + cs.len() + 2);
    assert(m.subrange(0, kl + 2) =~= qstr(key));
    lemma_sub_seg(s, i, m, 0, kl + 2);
    lemma_parse_string_seg(s, i, key);
    lemma_seg_char(s, i, m, kl + 2);
    assert(m[kl + 2] == ':');
    assert(s[i + (kl + 2)] == ':');
    assert(skip_ws(s, i + kl + 2) == i + kl + 2);
    assert(m.subrange(kl + 3, m.len() as int) =~= qstr(cs));
    lemma_sub_seg(s, i, m, kl + 3, m.len() as int);
    lemma_parse_string_seg(s, i + kl + 3, cs);
    lemma_seg_char(s, i, m, kl + 3);
    assert(m[kl + 3] == qstr(cs)[0]);
    assert(qstr(cs)[0] == (seq!['"'] + cs)[0]);
    assert(s[i + (kl + 3)] == '"');
    assert(skip_ws(s, i + kl + 3) == i + kl + 3);
}

/// The fixed keys of the record, as clean distinct texts.
proof fn lemma_keys()
    ensures
        clean("id"@) && "id"@.len() == 2,
        clean("title"@) && "title"@.len() == 5,
        clean("speaker"@) && "speaker"@.len() == 7,
        clean("url"@) && "url"@.len() == 3,
        "title"@ != "id"@,
        "speaker"@ != "id"@,
        "speaker"@ != "title"@,
        "url"@ != "id"@,
        "url"@ != "title"@,
        "url"@ != "speaker"@,
{
    reveal_strlit("id");
    reveal_strlit("title");
    reveal_strlit("speaker");
    reveal_strlit("url");
    assert(clean("id"@)) by {
        assert("id"@[0] == 'i' && "id"@[1] == 'd');
    }
    assert(clean("title"@)) by {
        assert("title"@[0] == 't' && "title"@[1] == 'i' && "title"@[2] == 't' && "title"@[3]
            == 'l' && "title"@[4] == 'e');
    }
    assert(clean("speaker"@)) by {
        assert("speaker"@[0] == 's' && "speaker"@[1] == 'p' && "speaker"@[2] == 'e'
            && "speaker"@[3] == 'a' && "speaker"@[4] == 'k' && "speaker"@[5] == 'e'
            && "speaker"@[6] == 'r');
    }
    assert(clean("url"@)) by {
        assert("url"@[0] == 'u' && "url"@[1] == 'r' && "url"@[2] == 'l');
    }
}

/// An embedded id member parses into the id field.
proof fn lemma_parse_member_id_seg(s: Seq<char>, i: int, n: u64, acc: FieldsView)
    requires
        0 <= i,
        i + member_id_json(n).len() < s.len(),
        s.subrange(i, i + member_id_json(n).len()) == member_id_json(n),
        !is_digit(s[i + member_id_json(n).len()]),
        acc.id is None,
    ensures
        spec_parse_member(s, i, acc) == Some(
            (FieldsView { id: Some(n), ..acc }, i + member_id_json(n).len()),
        ),
{
    let m = member_id_json(n);
    let ds = dec_digits(n as int);
    lemma_keys();
    assert(m.len() == 5 + ds.len());
    assert(m.subrange(0, 4) =~= qstr("id"@));
    lemma_sub_seg(s, i, m, 0, 4);
    lemma_parse_string_seg(s, i, "id"@);
    lemma_seg_char(s, i, m, 4);
    assert(m[4] == ':');
    assert(s[i + 4] == ':');
    assert(skip_ws(s, i + 4) == i + 4);
    assert(m.subrange(5, m.len() as int) =~= ds);
    lemma_sub_seg(s, i, m, 5, m.len() as int);
    crate::digits::lemma_dec_digits_shape(n as int);
    lemma_seg_char(s, i, m, 5);
    assert(m[5] == ds[0]);
    assert(is_digit(s[i + 5]));
    assert(skip_ws(s, i + 5) == i + 5);
    lemma_parse_number_seg(s, i + 5, n);
}

/// An embedded title member parses into the title field.
proof fn lemma_parse_member_title_seg(s: Seq<char>, i: int, cs: Seq<char>, acc: FieldsView)
    requires
        0 <= i,
        i + member_str_json("title"@, cs).len() <= s.len(),
        s.subrange(i, i + member_str_json("title"@, cs).len()) == member_str_json("title"@, cs),
        clean(cs),
        acc.title is None,
    ensures
        spec_parse_member(s, i, acc) == Some(
            (FieldsView { title: Some(cs), ..acc }, i + member_str_json("title"@, cs).len()),
        ),
{
    lemma_keys();
    lemma_member_str_shape(s, i, "title"@, cs);
}

/// An embedded speaker member parses into the speaker field.
proof fn lemma_parse_member_speaker_seg(s: Seq<char>, i: int, cs: Seq<char>, acc: FieldsView)
    requires
        0 <= i,
        i + member_str_json("speaker"@, cs).len() <= s.len(),
        s.subrange(i, i + member_str_json("speaker"@, cs).len()) == member_str_json(
            "speaker"@,
            cs,
        ),
        clean(cs),
        acc.speaker is None,
    ensures
        spec_parse_member(s, i, acc) == Some(
            (FieldsView { speaker: Some(cs), ..acc }, i + member_str_json("speaker"@, cs).len()),
        ),
{
    lemma_keys();
    lemma_member_str_shape(s, i, "speaker"@, cs);
}

/// An embedded url member parses into the url field.
proof fn lemma_parse_member_url_seg(s: Seq<char>, i: int, cs: Seq<char>, acc: FieldsView)
    requires
        0 <= i,
        i + member_str_json("url"@, cs).len() <= s.len(),
        s.subrange(i, i + member_str_json("url"@, cs).len()) == member_str_json("url"@, cs),
        clean(cs),
        acc.url is None,
    ensures
        spec_parse_member(s, i, acc) == Some(
            (FieldsView { url: Some(cs), ..acc }, i + member_str_json("url"@, cs).len()),
        ),
{
    lemma_keys();
    lemma_member_str_shape(s, i, "url"@, cs);
}

/// An embedded record parses back to itself.
#[verifier::rlimit(80)]
#[verifier::spinoff_prover]
proof fn lemma_parse_video_seg(s: Seq<char>, i: int, v: VideoView)
    requires
        0 <= i,
        i + video_json(v).len() <= s.len(),
        s.subrange(i, i + video_json(v).len()) == video_json(v),
        clean_video(v),
    ensures
        spec_parse_video(s, i) == Some((v, i + video_json(v).len())),
{
    let vj = video_json(v);
    let m1 = member_id_json(v.id);
    let m2 = member_str_json("title"@, v.title);
    let m3 = member_str_json("speaker"@, v.speaker);
    let m4 = member_str_json("url"@, v.url);
    let c1 = 1 + m1.len() as int;
    let o2 = c1 + 1;
    let c2 = o2 + m2.len();
    let o3 = c2 + 1;
    let c3 = o3 + m3.len();
    let o4 = c3 + 1;
    let c4 = o4 + m4.len();
    assert(vj.len() == c4 + 1);
    assert(vj[0] == '{');
    assert(vj[c1] == ',');
    assert(vj[c2] == ',');
    assert(vj[c3] == ',');
    assert(vj[c4] == '}');
    assert(vj.subrange(1, c1) =~= m1);
    assert(vj.subrange(o2, c2) =~= m2);
    assert(vj.subrange(o3, c3) =~= m3);
    assert(vj.subrange(o4, c4) =~= m4);
    lemma_seg_char(s, i, vj, 0);
    lemma_seg_char(s, i, vj, c1);
    lemma_seg_char(s, i, vj, c2);
    lemma_seg_char(s, i, vj, c3);
    lemma_seg_char(s, i, vj, c4);
    assert(s[i] == '{');
    assert(s[i + c1] == ',');
    assert(s[i + c2] == ',');
    assert(s[i + c3] == ',');
    assert(s[i + c4] == '}');
    lemma_sub_seg(s, i, vj, 1, c1);
    lemma_sub_seg(s, i, vj, o2, c2);
    lemma_sub_seg(s, i, vj, o3, c3);
    lemma_sub_seg(s, i, vj, o4, c4);
    // the first member
    lemma_seg_char(s, i, vj, 1);
    assert(vj[1] == m1[0]);
    assert(m1[0] == (seq!['"'] + "id"@)[0]);
    assert(s[i + 1] == '"');
    assert(skip_ws(s, i + 1) == i + 1);
    let a0 = empty_fields();
    lemma_parse_member_id_seg(s, i + 1, v.id, a0);
    let a1 = FieldsView { id: Some(v.id), ..a0 };
    let p1 = i + 1 + m1.len();
    assert(p1 == i + c1);
    // comma, then the title member
    assert(skip_ws(s, p1) == p1);
    lemma_seg_char(s, i, vj, o2);
    assert(vj[o2] == m2[0]);
    assert(m2[0] == (seq!['"'] + "title"@)[0]);
    assert(s[i + o2] == '"');
    assert(skip_ws(s, i + o2) == i + o2);
    lemma_parse_member_title_seg(s, i + o2, v.title, a1);
    let a2 = FieldsView { title: Some(v.title), ..a1 };
    let p2 = i + o2 + m2.len();
    assert(p2 == i + c2);
    // comma, then the speaker member
    assert(skip_ws(s, p2) == p2);
    lemma_seg_char(s, i, vj, o3);
    assert(vj[o3] == m3[0]);
    assert(m3[0] == (seq!['"'] + "speaker"@)[0]);
    assert(s[i + o3] == '"');
    assert(skip_ws(s, i + o3) == i + o3);
    lemma_parse_member_speaker_seg(s, i + o3, v.speaker, a2);
    let a3 = FieldsView { speaker: Some(v.speaker), ..a2 };
    let p3 = i + o3 + m3.len();
    assert(p3 == i + c3);
    // comma, then the url member
    assert(skip_ws(s, p3) == p3);
    lemma_seg_char(s, i, vj, o4);
    assert(vj[o4] == m4[0]);
    assert(m4[0] == (seq!['"'] + "url"@)[0]);
    assert(s[i + o4] == '"');
    assert(skip_ws(s, i + o4) == i + o4);
    lemma_parse_member_url_seg(s, i + o4, v.url, a3);
    let a4 = FieldsView { url: Some(v.url), ..a3 };
    let p4 = i + o4 + m4.len();
    assert(p4 == i + c4);
    // the closing brace ends the member chain and completes the record
    assert(skip_ws(s, p4) == p4);
    assert(parse_members(s, i + o4, a3) == Some((a4, p4 + 1)));
    assert(parse_members(s, i + o3, a2) == parse_members(s, i + o4, a3));
    assert(parse_members(s, i + o2, a1) == parse_members(s, i + o3, a2));
    assert(parse_members(s, i + 1, a0) == parse_members(s, i + o2, a1));
    assert(complete_fields(a4) == Some(v));
}

/// The embedded records from `k` on parse back to themselves, in order, up
/// to the closing bracket.
proof fn lemma_parse_elems_seg(
    s: Seq<char>,
    vs: Seq<VideoView>,
    k: int,
    i: int,
    acc: Seq<VideoView>,
)
    requires
        0 <= k < vs.len(),
        forall|j: int| 0 <= j < vs.len() ==> clean_video(vs[j]),
        0 <= i,
        i + videos_json_body(vs, k).len() < s.len(),
        s.subrange(i, i + videos_json_body(vs, k).len()) == videos_json_body(vs, k),
        s[i + videos_json_body(vs, k).len()] == ']',
    ensures
        spec_parse_elems(s, i, acc) == Some(
            (acc + vs.skip(k), i + videos_json_body(vs, k).len() + 1),
        ),
    decreases vs.len() - k,
{
    let body = videos_json_body(vs, k);
    let vj = video_json(vs[k]);
    if k + 1 == vs.len() {
        assert(body == vj);
        lemma_parse_video_seg(s, i, vs[k]);
        let j = i + vj.len();
        assert(skip_ws(s, j) == j);
        assert(acc.push(vs[k]) =~= acc + vs.skip(k));
    } else {
        let rest = videos_json_body(vs, k + 1);
        assert(body == vj + seq![','] + rest);
        assert(body.len() == vj.len() + 1 + rest.len());
        assert(body.subrange(0, vj.len() as int) =~= vj);
        lemma_sub_seg(s, i, body, 0, vj.len() as int);
        lemma_parse_video_seg(s, i, vs[k]);
        let j = i + vj.len();
        lemma_seg_char(s, i, body, vj.len() as int);
        assert(body[vj.len() as int] == ',');
        assert(s[j] == ',');
        assert(skip_ws(s, j) == j);
        let m = j + 1;
        assert(body.subrange(vj.len() as int + 1, body.len() as int) =~= rest);
        lemma_sub_seg(s, i, body, vj.len() as int + 1, body.len() as int);
        lemma_seg_char(s, i, body, vj.len() as int + 1);
        assert(rest[0] == video_json(vs[k + 1])[0]);
        assert(video_json(vs[k + 1])[0] == '{');
        assert(s[m] == '{');
        assert(skip_ws(s, m) == m);
        lemma_parse_elems_seg(s, vs, k + 1, m, acc.push(vs[k]));
        assert(acc.push(vs[k]) + vs.skip(k + 1) =~= acc + vs.skip(k));
        assert(m + rest.len() + 1 == i + body.len() + 1);
    }
}

/// Rendering any sequence of records canonically and parsing the result
/// gives back exactly that sequence: as many entries as records, in the same
/// order. Holds for every record whose text fields carry no quote, backslash
/// or control character.
pub proof fn lemma_catalog_round_trip(vs: Seq<VideoView>)
    requires
        forall|j: int| 0 <= j < vs.len() ==> clean_video(vs[j]),
    ensures
        spec_parse_videos(videos_json(vs)) == Some(vs),
{
    let s = videos_json(vs);
    let body = videos_json_body(vs, 0);
    assert(s.len() == body.len() + 2);
    assert(s[0] == '[');
    assert(s[body.len() as int + 1] == ']');
    assert(skip_ws(s, 0) == 0);
    if vs.len() == 0 {
        assert(body == Seq::<char>::empty());
        assert(s[1] == ']');
        assert(skip_ws(s, 1) == 1);
        assert(skip_ws(s, 2) == 2);
        assert(vs =~= Seq::<VideoView>::empty());
    } else {
        assert(body[0] == video_json(vs[0])[0]);
        assert(video_json(vs[0])[0] == '{');
        assert(s[1] == body[0]);
        assert(s[1] == '{');
        assert(skip_ws(s, 1) == 1);
        assert(s.subrange(1, 1 + body.len() as int) =~= body);
        lemma_parse_elems_seg(s, vs, 0, 1, Seq::empty());
        assert(Seq::empty() + vs.skip(0) =~= vs);
        assert(skip_ws(s, body.len() as int + 2) == s.len());
    }
}

/// Whether `k` holds the characters of `lit`.
fn key_is(k: &String, lit: &str) -> (r: bool)
    ensures
        r == (k@ == lit@),
{
    let s = String::from_str(lit);
    *k == s
}

/// Parses one member at `i` into `acc`.
fn parse_member_at(s: &str, i: usize, acc: VideoFields) -> (r: Option<(VideoFields, usize)>)
    requires
        i <= s@.len(),
    ensures
        match r {
            Some((a, j)) => {
                &&& spec_parse_member(s@, i as int, acc@) == Some((a@, j as int))
                &&& i < j <= s@.len()
            },
            None => spec_parse_member(s@, i as int, acc@) is None,
        },
{
    let n = s.unicode_len();
    match parse_string_at(s, i) {
        None => None,
        Some((key, j)) => {
            let k = skip_ws_at(s, j);
            if !(k < n && s.get_char(k) == ':') {
                return None;
            }
            let m = skip_ws_at(s, k + 1);
            if key_is(&key, "id") {
                if acc.id.is_some() {
                    return None;
                }
                match parse_number_at(s, m) {
                    Some((v, e)) => Some((VideoFields { id: Some(v), ..acc }, e)),
                    None => None,
                }
            } else if key_is(&key, "title") {
                if acc.title.is_some() {
                    return None;
                }
                match parse_string_at(s, m) {
                    Some((cs, e)) => Some((VideoFields { title: Some(cs), ..acc }, e)),
                    None => None,
                }
            } else if key_is(&key, "speaker") {
                if acc.speaker.is_some() {
                    return None;
                }
                match parse_string_at(s, m) {
                    Some((cs, e)) => Some((VideoFields { speaker: Some(cs), ..acc }, e)),
                    None => None,
                }
            } else if key_is(&key, "url") {
                if acc.url.is_some() {
                    return None;
                }
                match parse_string_at(s, m) {
                    Some((cs, e)) => Some((VideoFields { url: Some(cs), ..acc }, e)),
                    None => None,
                }
            } else {
                match skip_value_at(s, m) {
                    Some(e) => Some((acc, e)),
                    None => None,
                }
            }
        },
    }
}

/// Parses one record at `i`.
fn parse_video_at(s: &str, i: usize) -> (r: Option<(Video, usize)>)
    requires
        i <= s@.len(),
    ensures
        match r {
            Some((v, j)) => {
                &&& spec_parse_video(s@, i as int) == Some((v@, j as int))
                &&& i < j <= s@.len()
            },
            None => spec_parse_video(s@, i as int) is None,
        },
{
    let n = s.unicode_len();
    if !(i < n && s.get_char(i) == '{') {
        return None;
    }
    let start = skip_ws_at(s, i + 1);
    let mut acc = VideoFields { id: None, title: None, speaker: None, url: None };
    let mut cur = start;
    proof {
        assert(acc@ == empty_fields());
    }
    loop
        invariant
            i < cur <= n,
            n == s@.len(),
            i < n,
            s@[i as int] == '{',
            start == skip_ws(s@, i + 1),
            parse_members(s@, start as int, empty_fields()) == parse_members(
                s@,
                cur as int,
                acc@,
            ),
        decreases n - cur,
    {
        match parse_member_at(s, cur, acc) {
            None => {
                return None;
            },
            Some((a, j)) => {
                let k = skip_ws_at(s, j);
                if k < n && s.get_char(k) == '}' {
                    match (a.id, a.title, a.speaker, a.url) {
                        (Some(id), Some(title), Some(speaker), Some(url)) => {
                            let v = Video { id, title, speaker, url };
                            return Some((v, k + 1));
                        },
                        _ => {
                            return None;
                        },
                    }
                } else if k < n && s.get_char(k) == ',' {
                    let m = skip_ws_at(s, k + 1);
                    acc = a;
                    cur = m;
                } else {
                    return None;
                }
            },
        }
    }
}

/// Parses the catalog body. `None` means the body is not a well-formed
/// catalog: the caller reports a malformed record.
pub fn parse_videos(s: &str) -> (r: Option<Vec<Video>>)
    ensures
        match r {
            Some(vs) => spec_parse_videos(s@) == Some(views_of(vs@)),
            None => spec_parse_videos(s@) is None,
        },
{
    let n = s.unicode_len();
    let i = skip_ws_at(s, 0);
    if !(i < n && s.get_char(i) == '[') {
        return None;
    }
    let j = skip_ws_at(s, i + 1);
    if j < n && s.get_char(j) == ']' {
        if skip_ws_at(s, j + 1) == n {
            let empty: Vec<Video> = Vec::new();
            proof {
                assert(views_of(empty@) =~= Seq::<VideoView>::empty());
            }
            return Some(empty);
        }
        return None;
    }
    let mut out: Vec<Video> = Vec::new();
    let mut cur = j;
    proof {
        assert(views_of(out@) =~= Seq::<VideoView>::empty());
    }
    loop
        invariant
            cur <= n,
            n == s@.len(),
            i == skip_ws(s@, 0),
            i < n,
            s@[i as int] == '[',
            j == skip_ws(s@, i + 1),
            !(j < n && s@[j as int] == ']'),
            spec_parse_elems(s@, j as int, Seq::empty()) == spec_parse_elems(
                s@,
                cur as int,
                views_of(out@),
            ),
        decreases n - cur,
    {
        match parse_video_at(s, cur) {
            None => {
                return None;
            },
            Some((v, p)) => {
                let k = skip_ws_at(s, p);
                let ghost prev_views = views_of(out@);
                if k < n && s.get_char(k) == ']' {
                    out.push(v);
                    proof {
                        assert(views_of(out@) =~= prev_views.push(v@));
                    }
                    if skip_ws_at(s, k + 1) == n {
                        return Some(out);
                    }
                    return None;
                } else if k < n && s.get_char(k) == ',' {
                    let m = skip_ws_at(s, k + 1);
                    out.push(v);
                    proof {
                        assert(views_of(out@) =~= prev_views.push(v@));
                    }
                    cur = m;
                } else {
                    return None;
                }
            },
        }
    }
}

} // verus!
