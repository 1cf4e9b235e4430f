//! The request-body format: a flat JSON object whose entity fields are
//! strings and integers; other well-formed values — `null`, booleans,
//! fractional numbers, nested arrays and objects — are carried as untyped
//! scalars, accepted under unrecognized keys and rejected under recognized
//! ones. The grammar is the spec; the parser mirrors it. Presence of a key
//! is explicit, so a key written with a `null` or mistyped value is
//! distinguished from an absent key.

use vstd::prelude::*;
use crate::domain::{Location, LocationPatch, User, UserPatch, Visit, VisitPatch};
use crate::numbers::{digits_val, is_digit};
use crate::store::ApiError;

verus! {

/// A scalar value of a body object.
pub enum JVal {
    JNull,
    JInt(i64),
    JStr(Vec<char>),
    JOther,
}

/// The mathematical value of a body scalar.
pub enum JValV {
    GNull,
    GInt(i64),
    GStr(Seq<char>),
    GOther,
}

impl View for JVal {
    type V = JValV;

    open spec fn view(&self) -> JValV {
        match self {
            JVal::JNull => JValV::GNull,
            JVal::JInt(v) => JValV::GInt(*v),
            JVal::JStr(s) => JValV::GStr(s@),
            JVal::JOther => JValV::GOther,
        }
    }
}

pub open spec fn is_ws(c: char) -> bool {
    c == ' ' || c == '\t' || c == '\n' || c == '\r'
}

/// First position at or after `i` that is not whitespace.
pub open spec fn ws_end(s: Seq<char>, i: int) -> int
    decreases s.len() - i when 0 <= i <= s.len()
{
    if i >= s.len() {
        s.len() as int
    } else if is_ws(s[i]) {
        ws_end(s, i + 1)
    } else {
        i
    }
}

pub proof fn lemma_ws_end(s: Seq<char>, i: int)
    requires
        0 <= i <= s.len(),
    ensures
        i <= ws_end(s, i) <= s.len(),
    decreases s.len() - i,
{
    if i < s.len() && is_ws(s[i]) {
        lemma_ws_end(s, i + 1);
    }
}

fn ws_end_at(v: &Vec<char>, i: usize) -> (r: usize)
    requires
        i <= v@.len(),
    ensures
        r as int == ws_end(v@, i as int),
        i <= r <= v@.len(),
    decreases v@.len() - i,
{
    proof {
        lemma_ws_end(v@, i as int);
    }
    if i == v.len() {
        i
    } else {
        let c = v[i];
        if c == ' ' || c == '\t' || c == '\n' || c == '\r' {
            ws_end_at(v, i + 1)
        } else {
            i
        }
    }
}

pub open spec fn is_hex(c: char) -> bool {
    ('0' <= c && c <= '9') || ('a' <= c && c <= 'f') || ('A' <= c && c <= 'F')
}

/// The value of one hexadecimal digit character.
pub open spec fn hex_v(c: char) -> int
    recommends
        is_hex(c),
{
    if '0' <= c && c <= '9' {
        c as int - 48
    } else if 'a' <= c && c <= 'f' {
        c as int - 87
    } else {
        c as int - 55
    }
}

/// The value of the four hexadecimal digits at `i`.
pub open spec fn hex4(s: Seq<char>, i: int) -> int
    recommends
        0 <= i && i + 4 <= s.len(),
{
    hex_v(s[i]) * 4096 + hex_v(s[i + 1]) * 256 + hex_v(s[i + 2]) * 16 + hex_v(s[i + 3])
}

fn is_hex_at(c: char) -> (r: bool)
    ensures
        r == is_hex(c),
{
    ('0' <= c && c <= '9') || ('a' <= c && c <= 'f') || ('A' <= c && c <= 'F')
}

fn hex_v_at(c: char) -> (r: u32)
    requires
        is_hex(c),
    ensures
        r as int == hex_v(c),
        r < 16,
{
    if '0' <= c && c <= '9' {
        c as u32 - 48
    } else if 'a' <= c && c <= 'f' {
        c as u32 - 87
    } else {
        c as u32 - 55
    }
}

/// The character an escape letter stands for, `None` for an unsupported
/// escape; `u` escapes are handled separately.
pub open spec fn esc_of(c: char) -> Option<char> {
    if c == '"' {
        Some('"')
    } else if c == '\\' {
        Some('\\')
    } else if c == '/' {
        Some('/')
    } else if c == 'n' {
        Some('\n')
    } else if c == 'r' {
        Some('\r')
    } else if c == 't' {
        Some('\t')
    } else if c == 'b' {
        Some('\u{8}')
    } else if c == 'f' {
        Some('\u{c}')
    } else {
        None
    }
}

/// Lexes a string body starting after the opening quote; yields the decoded
/// characters and the position after the closing quote. Raw control
/// characters are rejected; `\\u` escapes decode a code point, with a high
/// surrogate requiring its low partner.
pub open spec fn lex_str_body(s: Seq<char>, i: int) -> Option<(Seq<char>, int)>
    decreases s.len() - i when 0 <= i <= s.len()
{
    if i >= s.len() {
        None
    } else if s[i] == '"' {
        Some((Seq::empty(), i + 1))
    } else if s[i] == '\\' {
        if i + 1 >= s.len() {
            None
        } else if s[i + 1] == 'u' {
            if i + 6 > s.len() || !is_hex(s[i + 2]) || !is_hex(s[i + 3]) || !is_hex(s[i + 4])
                || !is_hex(s[i + 5]) {
                None
            } else {
                let cp = hex4(s, i + 2);
                if 0xD800 <= cp < 0xDC00 {
                    if i + 12 > s.len() || s[i + 6] != '\\' || s[i + 7] != 'u' || !is_hex(
                        s[i + 8],
                    ) || !is_hex(s[i + 9]) || !is_hex(s[i + 10]) || !is_hex(s[i + 11]) {
                        None
                    } else {
                        let lo = hex4(s, i + 8);
                        if 0xDC00 <= lo < 0xE000 {
                            let full = 0x10000 + (cp - 0xD800) * 0x400 + (lo - 0xDC00);
                            match lex_str_body(s, i + 12) {
                                None => None,
                                Some((rest, j)) => Some((seq![((full as u32) as char)] + rest, j)),
                            }
                        } else {
                            None
                        }
                    }
                } else if 0xDC00 <= cp < 0xE000 {
                    None
                } else {
                    match lex_str_body(s, i + 6) {
                        None => None,
                        Some((rest, j)) => Some((seq![((cp as u32) as char)] + rest, j)),
                    }
                }
            }
        } else {
            match esc_of(s[i + 1]) {
                None => None,
                Some(c) => match lex_str_body(s, i + 2) {
                    None => None,
                    Some((rest, j)) => Some((seq![c] + rest, j)),
                },
            }
        }
    } else if (s[i] as u32) < 32 {
        None
    } else {
        match lex_str_body(s, i + 1) {
            None => None,
            Some((rest, j)) => Some((seq![s[i]] + rest, j)),
        }
    }
}

pub proof fn lemma_lex_str_body(s: Seq<char>, i: int)
    requires
        0 <= i <= s.len(),
    ensures
        lex_str_body(s, i) matches Some(p) ==> i < p.1 <= s.len(),
    decreases s.len() - i,
{
    if i < s.len() && s[i] != '"' {
        if s[i] == '\\' {
            if i + 1 < s.len() {
                if s[i + 1] == 'u' {
                    if i + 6 <= s.len() {
                        lemma_lex_str_body(s, i + 6);
                    }
                    if i + 12 <= s.len() {
                        lemma_lex_str_body(s, i + 12);
                    }
                } else {
                    lemma_lex_str_body(s, i + 2);
                }
            }
        } else {
            lemma_lex_str_body(s, i + 1);
        }
    }
}

fn lex_str_body_at(v: &Vec<char>, i: usize) -> (r: Option<(Vec<char>, usize)>)
    requires
        i <= v@.len(),
    ensures
        match r {
            Some(p) => lex_str_body(v@, i as int) == Some((p.0@, p.1 as int)) && i < p.1
                <= v@.len(),
            None => lex_str_body(v@, i as int) is None,
        },
    decreases v@.len() - i,
{
    proof {
        lemma_lex_str_body(v@, i as int);
    }
    if i >= v.len() {
        return None;
    }
    let c = v[i];
    if c == '"' {
        return Some((Vec::new(), i + 1));
    }
    if c == '\\' {
        if i + 1 >= v.len() {
            return None;
        }
        let e = v[i + 1];
        if e == 'u' {
            if v.len() - i < 6 {
                return None;
            }
            if !is_hex_at(v[i + 2]) || !is_hex_at(v[i + 3]) || !is_hex_at(v[i + 4]) || !is_hex_at(
                v[i + 5],
            ) {
                return None;
            }
            let cp: u32 = hex_v_at(v[i + 2]) * 4096 + hex_v_at(v[i + 3]) * 256 + hex_v_at(
                v[i + 4],
            ) * 16 + hex_v_at(v[i + 5]);
            proof {
                assert(cp as int == hex4(v@, i + 2 as int));
            }
            if 0xD800 <= cp && cp < 0xDC00 {
                if v.len() - i < 12 {
                    return None;
                }
                if v[i + 6] != '\\' || v[i + 7] != 'u' {
                    return None;
                }
                if !is_hex_at(v[i + 8]) || !is_hex_at(v[i + 9]) || !is_hex_at(v[i + 10])
                    || !is_hex_at(v[i + 11]) {
                    return None;
                }
                let lo: u32 = hex_v_at(v[i + 8]) * 4096 + hex_v_at(v[i + 9]) * 256 + hex_v_at(
                    v[i + 10],
                ) * 16 + hex_v_at(v[i + 11]);
                proof {
                    assert(lo as int == hex4(v@, i + 8 as int));
                }
                if !(0xDC00 <= lo && lo < 0xE000) {
                    return None;
                }
                let full: u32 = 0x10000 + (cp - 0xD800) * 0x400 + (lo - 0xDC00);
                let dec = match char::from_u32(full) {
                    Some(ch) => ch,
                    None => {
                        proof {
                            assert(false);
                        }
                        return None;
                    },
                };
                match lex_str_body_at(v, i + 12) {
                    None => {
                        return None;
                    },
                    Some((mut rest, j)) => {
                        rest.insert(0, dec);
                        proof {
                            assert(rest@ =~= seq![dec] + rest@.drop_first());
                        }
                        return Some((rest, j));
                    },
                }
            }
            if 0xDC00 <= cp && cp < 0xE000 {
                return None;
            }
            let dec = match char::from_u32(cp) {
                Some(ch) => ch,
                None => {
                    proof {
                        assert(false);
                    }
                    return None;
                },
            };
            match lex_str_body_at(v, i + 6) {
                None => {
                    return None;
                },
                Some((mut rest, j)) => {
                    rest.insert(0, dec);
                    proof {
                        assert(rest@ =~= seq![dec] + rest@.drop_first());
                    }
                    return Some((rest, j));
                },
            }
        }
        let dec: char = if e == '"' {
            '"'
        } else if e == '\\' {
            '\\'
        } else if e == '/' {
            '/'
        } else if e == 'n' {
            '\n'
        } else if e == 'r' {
            '\r'
        } else if e == 't' {
            '\t'
        } else if e == 'b' {
            '\u{8}'
        } else if e == 'f' {
            '\u{c}'
        } else {
            return None;
        };
        match lex_str_body_at(v, i + 2) {
            None => {
                return None;
            },
            Some((mut rest, j)) => {
                rest.insert(0, dec);
                proof {
                    assert(rest@ =~= seq![dec] + rest@.drop_first());
                }
                return Some((rest, j));
            },
        }
    }
    if (c as u32) < 32 {
        return None;
    }
    match lex_str_body_at(v, i + 1) {
        None => None,
        Some((mut rest, j)) => {
            rest.insert(0, c);
            proof {
                assert(rest@ =~= seq![c] + rest@.drop_first());
            }
            Some((rest, j))
        },
    }
}

/// First position at or after `i` that is not a digit.
pub open spec fn digits_end(s: Seq<char>, i: int) -> int
    decreases s.len() - i when 0 <= i <= s.len()
{
    if i >= s.len() {
        s.len() as int
    } else if is_digit(s[i]) {
        digits_end(s, i + 1)
    } else {
        i
    }
}

pub proof fn lemma_digits_end(s: Seq<char>, i: int)
    requires
        0 <= i <= s.len(),
    ensures
        i <= digits_end(s, i) <= s.len(),
        forall|k: int| i <= k < digits_end(s, i) ==> is_digit(s[k]),
        digits_end(s, i) < s.len() ==> !is_digit(s[digits_end(s, i)]),
    decreases s.len() - i,
{
    if i < s.len() && is_digit(s[i]) {
        lemma_digits_end(s, i + 1);
    }
}

fn digits_end_at(v: &Vec<char>, i: usize) -> (r: usize)
    requires
        i <= v@.len(),
    ensures
        r as int == digits_end(v@, i as int),
        i <= r <= v@.len(),
    decreases v@.len() - i,
{
    proof {
        lemma_digits_end(v@, i as int);
    }
    if i == v.len() {
        i
    } else {
        let c = v[i];
        if '0' <= c && c <= '9' {
            digits_end_at(v, i + 1)
        } else {
            i
        }
    }
}

pub open spec fn is_num_tail(c: char) -> bool {
    is_digit(c) || c == '.' || c == 'e' || c == 'E' || c == '+' || c == '-'
}

/// First position at or after `i` outside a number's tail characters.
pub open spec fn num_tail_end(s: Seq<char>, i: int) -> int
    decreases s.len() - i when 0 <= i <= s.len()
{
    if i >= s.len() {
        s.len() as int
    } else if is_num_tail(s[i]) {
        num_tail_end(s, i + 1)
    } else {
        i
    }
}

pub proof fn lemma_num_tail_end(s: Seq<char>, i: int)
    requires
        0 <= i <= s.len(),
    ensures
        i <= num_tail_end(s, i) <= s.len(),
    decreases s.len() - i,
{
    if i < s.len() && is_num_tail(s[i]) {
        lemma_num_tail_end(s, i + 1);
    }
}

fn num_tail_end_at(v: &Vec<char>, i: usize) -> (r: usize)
    requires
        i <= v@.len(),
    ensures
        r as int == num_tail_end(v@, i as int),
        i <= r <= v@.len(),
    decreases v@.len() - i,
{
    proof {
        lemma_num_tail_end(v@, i as int);
    }
    if i == v.len() {
        i
    } else {
        let c = v[i];
        if ('0' <= c && c <= '9') || c == '.' || c == 'e' || c == 'E' || c == '+' || c == '-' {
            num_tail_end_at(v, i + 1)
        } else {
            i
        }
    }
}

/// The position just after the close of `depth` still-open brackets,
/// starting inside them at `i`; string literals are lexed so brackets inside
/// them do not count. The depth guard can never fire — each open bracket
/// consumed a character — and only bounds the depth for the scanner.
pub open spec fn skip_composite(s: Seq<char>, i: int, depth: int) -> Option<int>
    decreases s.len() - i when 0 <= i <= s.len()
{
    if depth <= 0 {
        Some(i)
    } else if i >= s.len() {
        None
    } else if s[i] == '"' {
        match lex_str_body(s, i + 1) {
            None => None,
            Some((x, j)) => if i < j && j <= s.len() {
                skip_composite(s, j, depth)
            } else {
                None
            },
        }
    } else if s[i] == '[' || s[i] == '{' {
        if depth >= s.len() {
            None
        } else {
            skip_composite(s, i + 1, depth + 1)
        }
    } else if s[i] == ']' || s[i] == '}' {
        skip_composite(s, i + 1, depth - 1)
    } else {
        skip_composite(s, i + 1, depth)
    }
}

pub proof fn lemma_skip_composite(s: Seq<char>, i: int, depth: int)
    requires
        0 <= i <= s.len(),
    ensures
        skip_composite(s, i, depth) matches Some(j) ==> i <= j <= s.len(),
    decreases s.len() - i,
{
    if depth > 0 && i < s.len() {
        if s[i] == '"' {
            lemma_lex_str_body(s, i + 1);
            match lex_str_body(s, i + 1) {
                None => {},
                Some((x, j)) => {
                    if i < j && j <= s.len() {
                        lemma_skip_composite(s, j, depth);
                    }
                },
            }
        } else if s[i] == '[' || s[i] == '{' {
            if depth < s.len() {
                lemma_skip_composite(s, i + 1, depth + 1);
            }
        } else {
            lemma_skip_composite(s, i + 1, depth - 1);
            lemma_skip_composite(s, i + 1, depth);
        }
    }
}

/// Exec counterpart of `skip_composite`.
fn skip_composite_at(v: &Vec<char>, i: usize, depth: usize) -> (r: Option<usize>)
    requires
        i <= v@.len(),
        depth <= v@.len(),
    ensures
        match r {
            Some(j) => skip_composite(v@, i as int, depth as int) == Some(j as int) && i <= j
                <= v@.len(),
            None => skip_composite(v@, i as int, depth as int) is None,
        },
    decreases v@.len() - i,
{
    proof {
        lemma_skip_composite(v@, i as int, depth as int);
    }
    if depth == 0 {
        return Some(i);
    }
    if i >= v.len() {
        return None;
    }
    let c = v[i];
    if c == '"' {
        match lex_str_body_at(v, i + 1) {
            None => None,
            Some((_, j)) => skip_composite_at(v, j, depth),
        }
    } else if c == '[' || c == '{' {
        if depth >= v.len() {
            None
        } else {
            skip_composite_at(v, i + 1, depth + 1)
        }
    } else if c == ']' || c == '}' {
        skip_composite_at(v, i + 1, depth - 1)
    } else {
        skip_composite_at(v, i + 1, depth)
    }
}

/// Lexes a number at `i`: an integer that fits `i64`, or an out-of-range or
/// fractional number kept as an untyped scalar.
pub open spec fn lex_num(s: Seq<char>, i: int) -> Option<(JValV, int)>
    recommends
        0 <= i <= s.len(),
{
    let neg = i < s.len() && s[i] == '-';
    let d0 = if neg {
        i + 1
    } else {
        i
    };
    let j = digits_end(s, d0);
    if d0 >= s.len() || j == d0 {
        None
    } else if s[d0] == '0' && j > d0 + 1 {
        None
    } else if j < s.len() && (s[j] == '.' || s[j] == 'e' || s[j] == 'E') {
        Some((JValV::GOther, num_tail_end(s, j)))
    } else {
        let m = digits_val(s.subrange(d0, j));
        if neg {
            if -m >= i64::MIN {
                Some((JValV::GInt((-m) as i64), j))
            } else {
                Some((JValV::GOther, j))
            }
        } else {
            if m <= i64::MAX {
                Some((JValV::GInt(m as i64), j))
            } else {
                Some((JValV::GOther, j))
            }
        }
    }
}

/// Lexes one scalar value at `i`.
pub open spec fn lex_val(s: Seq<char>, i: int) -> Option<(JValV, int)>
    recommends
        0 <= i <= s.len(),
{
    if i >= s.len() {
        None
    } else if s[i] == '"' {
        match lex_str_body(s, i + 1) {
            None => None,
            Some((x, j)) => Some((JValV::GStr(x), j)),
        }
    } else if s[i] == 'n' {
        if i + 4 <= s.len() && s.subrange(i, i + 4) == "null"@ {
            Some((JValV::GNull, i + 4))
        } else {
            None
        }
    } else if s[i] == 't' {
        if i + 4 <= s.len() && s.subrange(i, i + 4) == "true"@ {
            Some((JValV::GOther, i + 4))
        } else {
            None
        }
    } else if s[i] == 'f' {
        if i + 5 <= s.len() && s.subrange(i, i + 5) == "false"@ {
            Some((JValV::GOther, i + 5))
        } else {
            None
        }
    } else if s[i] == '-' || is_digit(s[i]) {
        lex_num(s, i)
    } else if s[i] == '[' || s[i] == '{' {
        match skip_composite(s, i + 1, 1) {
            None => None,
            Some(j) => Some((JValV::GOther, j)),
        }
    } else {
        None
    }
}

pub proof fn lemma_lex_val(s: Seq<char>, i: int)
    requires
        0 <= i <= s.len(),
    ensures
        lex_val(s, i) matches Some(p) ==> i < p.1 <= s.len(),
{
    if i < s.len() {
        lemma_lex_str_body(s, i + 1);
        lemma_skip_composite(s, i + 1, 1);
        let neg = s[i] == '-';
        let d0 = if neg {
            i + 1
        } else {
            i
        };
        if d0 <= s.len() {
            lemma_digits_end(s, d0);
            lemma_num_tail_end(s, digits_end(s, d0));
        }
    }
}

/// The members of the object from a key position on, and the position after
/// the closing brace.
pub open spec fn lex_members(s: Seq<char>, i: int) -> Option<(Seq<(Seq<char>, JValV)>, int)>
    decreases s.len() - i when 0 <= i <= s.len()
{
    if i >= s.len() || s[i] != '"' {
        None
    } else {
        match lex_str_body(s, i + 1) {
            None => None,
            Some((key, j)) => {
                let j1 = ws_end(s, j);
                if j1 >= s.len() || s[j1] != ':' {
                    None
                } else {
                    let j2 = ws_end(s, j1 + 1);
                    match lex_val(s, j2) {
                        None => None,
                        Some((x, k)) => {
                            let k1 = ws_end(s, k);
                            if k1 < s.len() && s[k1] == ',' {
                                let k2 = ws_end(s, k1 + 1);
                                if i < k2 && k2 <= s.len() {
                                    match lex_members(s, k2) {
                                        None => None,
                                        Some((rest, m)) => Some((seq![(key, x)] + rest, m)),
                                    }
                                } else {
                                    None
                                }
                            } else if k1 < s.len() && s[k1] == '}' {
                                Some((seq![(key, x)], k1 + 1))
                            } else {
                                None
                            }
                        },
                    }
                }
            },
        }
    }
}

/// The fields of a whole body: one flat object with nothing but whitespace
/// around it.
pub open spec fn spec_fields(s: Seq<char>) -> Option<Seq<(Seq<char>, JValV)>> {
    let i0 = ws_end(s, 0);
    if i0 >= s.len() || s[i0] != '{' {
        None
    } else {
        let i1 = ws_end(s, i0 + 1);
        if i1 < s.len() && s[i1] == '}' {
            if ws_end(s, i1 + 1) == s.len() {
                Some(Seq::empty())
            } else {
                None
            }
        } else {
            match lex_members(s, i1) {
                None => None,
                Some((fs, m)) => {
                    if ws_end(s, m) == s.len() {
                        Some(fs)
                    } else {
                        None
                    }
                },
            }
        }
    }
}

fn lex_num_at(v: &Vec<char>, i: usize) -> (r: Option<(JVal, usize)>)
    requires
        i <= v@.len(),
    ensures
        match r {
            Some(p) => lex_num(v@, i as int) == Some((p.0@, p.1 as int)) && i < p.1 <= v@.len(),
            None => lex_num(v@, i as int) is None,
        },
{
    let neg = i < v.len() && v[i] == '-';
    let d0 = if neg {
        i + 1
    } else {
        i
    };
    if d0 >= v.len() {
        return None;
    }
    let j = digits_end_at(v, d0);
    proof {
        lemma_digits_end(v@, d0 as int);
    }
    if j == d0 {
        return None;
    }
    if v[d0] == '0' && j > d0 + 1 {
        return None;
    }
    if j < v.len() && (v[j] == '.' || v[j] == 'e' || v[j] == 'E') {
        let k = num_tail_end_at(v, j);
        proof {
            assert(j < k || k == j);
        }
        return Some((JVal::JOther, k));
    }
    let mut acc: u128 = 0;
    let mut t: usize = d0;
    while t < j
        invariant
            d0 <= t <= j <= v@.len(),
            forall|q: int| d0 <= q < j ==> is_digit(v@[q]),
            acc < 0x10000000000000000 * 10,
            ({
                let pre = v@.subrange(d0 as int, t as int);
                &&& (digits_val(pre) < 0x10000000000000000 ==> acc == digits_val(pre))
                &&& (digits_val(pre) >= 0x10000000000000000 ==> acc >= 0x10000000000000000)
            }),
        decreases j - t,
    {
        let c = v[t];
        let d = (c as u32 - 48) as u128;
        proof {
            let pre = v@.subrange(d0 as int, t as int);
            let post = v@.subrange(d0 as int, t + 1 as int);
            assert(post.drop_last() =~= pre);
            assert(post.last() == v@[t as int]);
            crate::numbers::lemma_digits_val_nonneg(pre);
        }
        if acc < 0x10000000000000000 {
            acc = acc * 10 + d;
        }
        t = t + 1;
    }
    proof {
        crate::numbers::lemma_digits_val_nonneg(v@.subrange(d0 as int, j as int));
    }
    if neg {
        if acc <= 9223372036854775808 {
            Some((JVal::JInt((-(acc as i128)) as i64), j))
        } else {
            Some((JVal::JOther, j))
        }
    } else {
        if acc <= 9223372036854775807 {
            Some((JVal::JInt(acc as i64), j))
        } else {
            Some((JVal::JOther, j))
        }
    }
}

/// Checks that the characters at `i` spell `w`.
fn expect_word(v: &Vec<char>, i: usize, w: &str) -> (r: bool)
    requires
        i <= v@.len(),
    ensures
        r == (i + w@.len() <= v@.len() && v@.subrange(i as int, i + w@.len()) == w@),
{
    let wv = crate::render::chars_vec(w);
    if v.len() - i < wv.len() {
        proof {
            if i + w@.len() <= v@.len() {
                assert(false);
            }
        }
        return false;
    }
    let mut k: usize = 0;
    while k < wv.len()
        invariant
            k <= wv@.len(),
            wv@ == w@,
            i + wv@.len() <= v@.len(),
            v@.len() <= usize::MAX,
            forall|q: int| 0 <= q < k ==> v@[i + q] == wv@[q],
        decreases wv@.len() - k,
    {
        let idx = i + k;
        if v[idx] != wv[k] {
            proof {
                if v@.subrange(i as int, i + w@.len()) == w@ {
                    assert(v@.subrange(i as int, i + w@.len())[k as int] == w@[k as int]);
                }
            }
            return false;
        }
        k = k + 1;
    }
    proof {
        assert(v@.subrange(i as int, i + w@.len()) =~= w@);
    }
    true
}

fn lex_val_at(v: &Vec<char>, i: usize) -> (r: Option<(JVal, usize)>)
    requires
        i <= v@.len(),
    ensures
        match r {
            Some(p) => lex_val(v@, i as int) == Some((p.0@, p.1 as int)) && i < p.1 <= v@.len(),
            None => lex_val(v@, i as int) is None,
        },
{
    if i >= v.len() {
        return None;
    }
    let c = v[i];
    if c == '"' {
        match lex_str_body_at(v, i + 1) {
            None => None,
            Some((x, j)) => Some((JVal::JStr(x), j)),
        }
    } else if c == 'n' {
        if expect_word(v, i, "null") {
            proof {
                reveal_strlit("null");
            }
            Some((JVal::JNull, i + 4))
        } else {
            proof {
                reveal_strlit("null");
            }
            None
        }
    } else if c == 't' {
        if expect_word(v, i, "true") {
            proof {
                reveal_strlit("true");
            }
            Some((JVal::JOther, i + 4))
        } else {
            proof {
                reveal_strlit("true");
            }
            None
        }
    } else if c == 'f' {
        if expect_word(v, i, "false") {
            proof {
                reveal_strlit("false");
            }
            Some((JVal::JOther, i + 5))
        } else {
            proof {
                reveal_strlit("false");
            }
            None
        }
    } else if c == '-' || ('0' <= c && c <= '9') {
        lex_num_at(v, i)
    } else if c == '[' || c == '{' {
        match skip_composite_at(v, i + 1, 1) {
            None => None,
            Some(j) => Some((JVal::JOther, j)),
        }
    } else {
        None
    }
}

fn lex_members_at(v: &Vec<char>, i: usize) -> (r: Option<(Vec<(Vec<char>, JVal)>, usize)>)
    requires
        i <= v@.len(),
    ensures
        match r {
            Some(p) => lex_members(v@, i as int) matches Some(q) && q.1 == p.1 as int && p.1
                <= v@.len() && q.0 == p.0@.map_values(
                |f: (Vec<char>, JVal)| (f.0@, f.1@),
            ),
            None => lex_members(v@, i as int) is None,
        },
    decreases v@.len() - i,
{
    if i >= v.len() {
        return None;
    }
    if v[i] != '"' {
        return None;
    }
    let (key, j) = match lex_str_body_at(v, i + 1) {
        None => {
            return None;
        },
        Some(p) => p,
    };
    let j1 = ws_end_at(v, j);
    if j1 >= v.len() {
        return None;
    }
    if v[j1] != ':' {
        return None;
    }
    let j2 = ws_end_at(v, j1 + 1);
    let (x, k) = match lex_val_at(v, j2) {
        None => {
            return None;
        },
        Some(p) => p,
    };
    let k1 = ws_end_at(v, k);
    if k1 < v.len() && v[k1] == ',' {
        let k2 = ws_end_at(v, k1 + 1);
        proof {
            assert(i < k2 && k2 <= v@.len());
        }
        match lex_members_at(v, k2) {
            None => None,
            Some((mut rest, m)) => {
                rest.insert(0, (key, x));
                proof {
                    assert(rest@.map_values(|f: (Vec<char>, JVal)| (f.0@, f.1@)) =~= seq![
                        (rest@[0].0@, rest@[0].1@),
                    ] + rest@.drop_first().map_values(|f: (Vec<char>, JVal)| (f.0@, f.1@)));
                }
                Some((rest, m))
            },
        }
    } else if k1 < v.len() && v[k1] == '}' {
        let mut out: Vec<(Vec<char>, JVal)> = Vec::new();
        out.push((key, x));
        proof {
            assert(out@.map_values(|f: (Vec<char>, JVal)| (f.0@, f.1@)) =~= seq![(out@[0].0@, out@[0].1@)]);
        }
        Some((out, k1 + 1))
    } else {
        None
    }
}

/// Parses a whole request body into its fields, as `spec_fields` defines.
pub fn parse_fields(v: &Vec<char>) -> (r: Option<Vec<(Vec<char>, JVal)>>)
    ensures
        match r {
            Some(fs) => spec_fields(v@) == Some(
                fs@.map_values(|f: (Vec<char>, JVal)| (f.0@, f.1@)),
            ),
            None => spec_fields(v@) is None,
        },
{
    let i0 = ws_end_at(v, 0);
    if i0 >= v.len() {
        return None;
    }
    if v[i0] != '{' {
        return None;
    }
    let i1 = ws_end_at(v, i0 + 1);
    if i1 < v.len() && v[i1] == '}' {
        let e = ws_end_at(v, i1 + 1);
        if e == v.len() {
            let out: Vec<(Vec<char>, JVal)> = Vec::new();
            proof {
                assert(out@.map_values(|f: (Vec<char>, JVal)| (f.0@, f.1@)) =~= Seq::<
                    (Seq<char>, JValV),
                >::empty());
            }
            return Some(out);
        }
        return None;
    }
    match lex_members_at(v, i1) {
        None => None,
        Some((fs, m)) => {
            let e = ws_end_at(v, m);
            if e == v.len() {
                Some(fs)
            } else {
                None
            }
        },
    }
}

/// The outcome of looking one field up in a parsed body.
pub enum FieldSpec {
    FMissing,
    FBad,
    FInt(i64),
    FStr(Seq<char>),
}

/// How often `name` occurs as a key.
pub open spec fn field_count(fs: Seq<(Seq<char>, JValV)>, name: Seq<char>) -> int
    decreases fs.len(),
{
    if fs.len() == 0 {
        0
    } else {
        field_count(fs.drop_last(), name) + if fs.last().0 == name {
            1int
        } else {
            0int
        }
    }
}

/// The value of the first occurrence of `name`.
pub open spec fn field_first(fs: Seq<(Seq<char>, JValV)>, name: Seq<char>) -> JValV
    decreases fs.len(),
{
    if fs.len() == 0 {
        JValV::GOther
    } else if field_count(fs.drop_last(), name) > 0 {
        field_first(fs.drop_last(), name)
    } else if fs.last().0 == name {
        fs.last().1
    } else {
        JValV::GOther
    }
}

/// What a field contributes: absent, present once with a scalar value, or
/// bad (duplicate, `null`, or an untyped scalar).
pub open spec fn spec_field(fs: Seq<(Seq<char>, JValV)>, name: Seq<char>) -> FieldSpec {
    if field_count(fs, name) == 0 {
        FieldSpec::FMissing
    } else if field_count(fs, name) != 1 {
        FieldSpec::FBad
    } else {
        match field_first(fs, name) {
            JValV::GInt(v) => FieldSpec::FInt(v),
            JValV::GStr(x) => FieldSpec::FStr(x),
            JValV::GNull => FieldSpec::FBad,
            JValV::GOther => FieldSpec::FBad,
        }
    }
}

/// The first match determines `field_first`.
proof fn lemma_field_first_at(fs: Seq<(Seq<char>, JValV)>, name: Seq<char>, j: int)
    requires
        0 <= j < fs.len(),
        fs[j].0 == name,
        forall|k: int| 0 <= k < j ==> (#[trigger] fs[k]).0 != name,
    ensures
        field_first(fs, name) == fs[j].1,
        field_count(fs, name) > 0,
    decreases fs.len(),
{
    if j == fs.len() - 1 {
        assert forall|prefix: Seq<(Seq<char>, JValV)>|
            prefix == fs.drop_last() implies field_count(prefix, name) == 0 by {
            lemma_field_count_zero(prefix, name);
        }
    } else {
        lemma_field_first_at(fs.drop_last(), name, j);
    }
}

/// A list with no matching key has count zero.
proof fn lemma_field_count_zero(fs: Seq<(Seq<char>, JValV)>, name: Seq<char>)
    requires
        forall|k: int| 0 <= k < fs.len() ==> (#[trigger] fs[k]).0 != name,
    ensures
        field_count(fs, name) == 0,
    decreases fs.len(),
{
    if fs.len() > 0 {
        lemma_field_count_zero(fs.drop_last(), name);
    }
}

/// Looks a field up, as `spec_field` defines.
fn field_of(fs: &Vec<(Vec<char>, JVal)>, name: &str) -> (r: FieldRes)
    ensures
        ({
            let fsv = fs@.map_values(|f: (Vec<char>, JVal)| (f.0@, f.1@));
            match r {
                FieldRes::RMissing => spec_field(fsv, name@) is FMissing,
                FieldRes::RBad => spec_field(fsv, name@) is FBad,
                FieldRes::RInt(v) => spec_field(fsv, name@) == FieldSpec::FInt(v),
                FieldRes::RStr(x) => spec_field(fsv, name@) == FieldSpec::FStr(x@),
            }
        }),
{
    let ghost fsv = fs@.map_values(|f: (Vec<char>, JVal)| (f.0@, f.1@));
    let mut cnt: usize = 0;
    let mut fidx: usize = 0;
    let mut i: usize = 0;
    while i < fs.len()
        invariant
            i <= fs@.len(),
            fsv == fs@.map_values(|f: (Vec<char>, JVal)| (f.0@, f.1@)),
            cnt as int == field_count(fsv.subrange(0, i as int), name@),
            cnt <= i,
            cnt > 0 ==> fidx < i && fsv[fidx as int].0 == name@ && (forall|k: int|
                0 <= k < fidx ==> (#[trigger] fsv[k]).0 != name@),
            cnt == 0 ==> forall|k: int| 0 <= k < i ==> (#[trigger] fsv[k]).0 != name@,
        decreases fs@.len() - i,
    {
        proof {
            let pre = fsv.subrange(0, i as int);
            let post = fsv.subrange(0, i + 1 as int);
            assert(post.drop_last() =~= pre);
            assert(post.last() == fsv[i as int]);
            assert(fsv[i as int] == (fs@[i as int].0@, fs@[i as int].1@));
        }
        if crate::query::str_eq_chars(&fs[i].0, name) {
            if cnt == 0 {
                fidx = i;
            }
            cnt = cnt + 1;
        }
        i = i + 1;
    }
    proof {
        assert(fsv.subrange(0, fsv.len() as int) =~= fsv);
    }
    if cnt == 0 {
        proof {
            lemma_field_count_zero(fsv, name@);
        }
        FieldRes::RMissing
    } else if cnt > 1 {
        FieldRes::RBad
    } else {
        proof {
            lemma_field_first_at(fsv, name@, fidx as int);
        }
        match &fs[fidx].1 {
            JVal::JNull => FieldRes::RBad,
            JVal::JOther => FieldRes::RBad,
            JVal::JInt(v) => FieldRes::RInt(*v),
            JVal::JStr(x) => FieldRes::RStr(x.clone()),
        }
    }
}

/// An exec field-lookup outcome.
pub enum FieldRes {
    RMissing,
    RBad,
    RInt(i64),
    RStr(Vec<char>),
}

/// The fields of a body, with their keys and values as sequences.
pub open spec fn body_fields(s: Seq<char>) -> Option<Seq<(Seq<char>, JValV)>> {
    spec_fields(s)
}

pub open spec fn spec_str_field(fs: Seq<(Seq<char>, JValV)>, name: Seq<char>) -> Option<Seq<char>> {
    match spec_field(fs, name) {
        FieldSpec::FStr(x) => Some(x),
        _ => None,
    }
}

pub open spec fn spec_i64_field(fs: Seq<(Seq<char>, JValV)>, name: Seq<char>) -> Option<i64> {
    match spec_field(fs, name) {
        FieldSpec::FInt(v) => Some(v),
        _ => None,
    }
}

pub open spec fn spec_i32_field(fs: Seq<(Seq<char>, JValV)>, name: Seq<char>) -> Option<i32> {
    match spec_field(fs, name) {
        FieldSpec::FInt(v) => if i32::MIN <= v <= i32::MAX {
            Some(v as i32)
        } else {
            None
        },
        _ => None,
    }
}

pub open spec fn spec_i8_field(fs: Seq<(Seq<char>, JValV)>, name: Seq<char>) -> Option<i8> {
    match spec_field(fs, name) {
        FieldSpec::FInt(v) => if i8::MIN <= v <= i8::MAX {
            Some(v as i8)
        } else {
            None
        },
        _ => None,
    }
}

/// A required text field.
fn req_str_field(fs: &Vec<(Vec<char>, JVal)>, name: &str) -> (r: Result<Vec<char>, ApiError>)
    ensures
        ({
            let fsv = fs@.map_values(|f: (Vec<char>, JVal)| (f.0@, f.1@));
            &&& (r is Ok <==> spec_str_field(fsv, name@) is Some)
            &&& (r matches Ok(x) ==> spec_str_field(fsv, name@) == Some(x@))
            &&& (r is Err ==> r == Err::<Vec<char>, ApiError>(ApiError::Malformed))
        }),
{
    match field_of(fs, name) {
        FieldRes::RStr(x) => Ok(x),
        _ => Err(ApiError::Malformed),
    }
}

/// A required 64-bit integer field.
fn req_i64_field(fs: &Vec<(Vec<char>, JVal)>, name: &str) -> (r: Result<i64, ApiError>)
    ensures
        ({
            let fsv = fs@.map_values(|f: (Vec<char>, JVal)| (f.0@, f.1@));
            &&& (r is Ok <==> spec_i64_field(fsv, name@) is Some)
            &&& (r matches Ok(x) ==> spec_i64_field(fsv, name@) == Some(x))
            &&& (r is Err ==> r == Err::<i64, ApiError>(ApiError::Malformed))
        }),
{
    match field_of(fs, name) {
        FieldRes::RInt(v) => Ok(v),
        _ => Err(ApiError::Malformed),
    }
}

/// A required 32-bit integer field; an out-of-range value is malformed.
fn req_i32_field(fs: &Vec<(Vec<char>, JVal)>, name: &str) -> (r: Result<i32, ApiError>)
    ensures
        ({
            let fsv = fs@.map_values(|f: (Vec<char>, JVal)| (f.0@, f.1@));
            &&& (r is Ok <==> spec_i32_field(fsv, name@) is Some)
            &&& (r matches Ok(x) ==> spec_i32_field(fsv, name@) == Some(x))
            &&& (r is Err ==> r == Err::<i32, ApiError>(ApiError::Malformed))
        }),
{
    match field_of(fs, name) {
        FieldRes::RInt(v) => {
            if -2147483648 <= v && v <= 2147483647 {
                Ok(v as i32)
            } else {
                Err(ApiError::Malformed)
            }
        },
        _ => Err(ApiError::Malformed),
    }
}

/// A required 8-bit integer field; an out-of-range value is malformed.
fn req_i8_field(fs: &Vec<(Vec<char>, JVal)>, name: &str) -> (r: Result<i8, ApiError>)
    ensures
        ({
            let fsv = fs@.map_values(|f: (Vec<char>, JVal)| (f.0@, f.1@));
            &&& (r is Ok <==> spec_i8_field(fsv, name@) is Some)
            &&& (r matches Ok(x) ==> spec_i8_field(fsv, name@) == Some(x))
            &&& (r is Err ==> r == Err::<i8, ApiError>(ApiError::Malformed))
        }),
{
    match field_of(fs, name) {
        FieldRes::RInt(v) => {
            if -128 <= v && v <= 127 {
                Ok(v as i8)
            } else {
                Err(ApiError::Malformed)
            }
        },
        _ => Err(ApiError::Malformed),
    }
}

/// Whether an optional field of the given shape is acceptable.
pub open spec fn opt_str_ok(fs: Seq<(Seq<char>, JValV)>, name: Seq<char>) -> bool {
    spec_field(fs, name) is FMissing || spec_field(fs, name) is FStr
}

pub open spec fn opt_i64_ok(fs: Seq<(Seq<char>, JValV)>, name: Seq<char>) -> bool {
    spec_field(fs, name) is FMissing || spec_field(fs, name) is FInt
}

pub open spec fn opt_i32_ok(fs: Seq<(Seq<char>, JValV)>, name: Seq<char>) -> bool {
    spec_field(fs, name) is FMissing || spec_i32_field(fs, name) is Some
}

pub open spec fn opt_i8_ok(fs: Seq<(Seq<char>, JValV)>, name: Seq<char>) -> bool {
    spec_field(fs, name) is FMissing || spec_i8_field(fs, name) is Some
}

/// An optional text field: absent, present, or malformed.
fn opt_str_field(fs: &Vec<(Vec<char>, JVal)>, name: &str) -> (r: Result<
    Option<Vec<char>>,
    ApiError,
>)
    ensures
        ({
            let fsv = fs@.map_values(|f: (Vec<char>, JVal)| (f.0@, f.1@));
            &&& (r is Ok <==> opt_str_ok(fsv, name@))
            &&& (r matches Ok(x) ==> match x {
                Some(v) => spec_str_field(fsv, name@) == Some(v@),
                None => spec_field(fsv, name@) is FMissing,
            })
            &&& (r is Err ==> r == Err::<Option<Vec<char>>, ApiError>(ApiError::Malformed))
        }),
{
    match field_of(fs, name) {
        FieldRes::RMissing => Ok(None),
        FieldRes::RStr(x) => Ok(Some(x)),
        _ => Err(ApiError::Malformed),
    }
}

fn opt_i64_field(fs: &Vec<(Vec<char>, JVal)>, name: &str) -> (r: Result<Option<i64>, ApiError>)
    ensures
        ({
            let fsv = fs@.map_values(|f: (Vec<char>, JVal)| (f.0@, f.1@));
            &&& (r is Ok <==> opt_i64_ok(fsv, name@))
            &&& (r matches Ok(x) ==> match x {
                Some(v) => spec_i64_field(fsv, name@) == Some(v),
                None => spec_field(fsv, name@) is FMissing,
            })
            &&& (r is Err ==> r == Err::<Option<i64>, ApiError>(ApiError::Malformed))
        }),
{
    match field_of(fs, name) {
        FieldRes::RMissing => Ok(None),
        FieldRes::RInt(v) => Ok(Some(v)),
        _ => Err(ApiError::Malformed),
    }
}

fn opt_i32_field(fs: &Vec<(Vec<char>, JVal)>, name: &str) -> (r: Result<Option<i32>, ApiError>)
    ensures
        ({
            let fsv = fs@.map_values(|f: (Vec<char>, JVal)| (f.0@, f.1@));
            &&& (r is Ok <==> opt_i32_ok(fsv, name@))
            &&& (r matches Ok(x) ==> match x {
                Some(v) => spec_i32_field(fsv, name@) == Some(v),
                None => spec_field(fsv, name@) is FMissing,
            })
            &&& (r is Err ==> r == Err::<Option<i32>, ApiError>(ApiError::Malformed))
        }),
{
    match field_of(fs, name) {
        FieldRes::RMissing => Ok(None),
        FieldRes::RInt(v) => {
            if -2147483648 <= v && v <= 2147483647 {
                Ok(Some(v as i32))
            } else {
                Err(ApiError::Malformed)
            }
        },
        _ => Err(ApiError::Malformed),
    }
}

fn opt_i8_field(fs: &Vec<(Vec<char>, JVal)>, name: &str) -> (r: Result<Option<i8>, ApiError>)
    ensures
        ({
            let fsv = fs@.map_values(|f: (Vec<char>, JVal)| (f.0@, f.1@));
            &&& (r is Ok <==> opt_i8_ok(fsv, name@))
            &&& (r matches Ok(x) ==> match x {
                Some(v) => spec_i8_field(fsv, name@) == Some(v),
                None => spec_field(fsv, name@) is FMissing,
            })
            &&& (r is Err ==> r == Err::<Option<i8>, ApiError>(ApiError::Malformed))
        }),
{
    match field_of(fs, name) {
        FieldRes::RMissing => Ok(None),
        FieldRes::RInt(v) => {
            if -128 <= v && v <= 127 {
                Ok(Some(v as i8))
            } else {
                Err(ApiError::Malformed)
            }
        },
        _ => Err(ApiError::Malformed),
    }
}

/// A full-user body is well formed: every required field present with the
/// right type.
pub open spec fn spec_user_new_ok(s: Seq<char>) -> bool {
    &&& body_fields(s) is Some
    &&& spec_i32_field(body_fields(s)->0, "id"@) is Some
    &&& spec_str_field(body_fields(s)->0, "first_name"@) is Some
    &&& spec_str_field(body_fields(s)->0, "last_name"@) is Some
    &&& spec_str_field(body_fields(s)->0, "gender"@) is Some
    &&& spec_i64_field(body_fields(s)->0, "birth_date"@) is Some
    &&& spec_str_field(body_fields(s)->0, "email"@) is Some
}

/// Parses a full user for creation.
pub fn parse_user_new(body: &Vec<char>) -> (r: Result<User, ApiError>)
    ensures
        r is Ok <==> spec_user_new_ok(body@),
        r is Err ==> r == Err::<User, ApiError>(ApiError::Malformed),
        r matches Ok(u) ==> ({
            let fs = body_fields(body@)->0;
            &&& Some(u.id) == spec_i32_field(fs, "id"@)
            &&& Some(u.first_name@) == spec_str_field(fs, "first_name"@)
            &&& Some(u.last_name@) == spec_str_field(fs, "last_name"@)
            &&& Some(u.gender@) == spec_str_field(fs, "gender"@)
            &&& Some(u.birth_date) == spec_i64_field(fs, "birth_date"@)
            &&& Some(u.email@) == spec_str_field(fs, "email"@)
        }),
{
    let fs = match parse_fields(body) {
        Some(fs) => fs,
        None => {
            return Err(ApiError::Malformed);
        },
    };
    let id = req_i32_field(&fs, "id")?;
    let first_name = req_str_field(&fs, "first_name")?;
    let last_name = req_str_field(&fs, "last_name")?;
    let gender = req_str_field(&fs, "gender")?;
    let birth_date = req_i64_field(&fs, "birth_date")?;
    let email = req_str_field(&fs, "email")?;
    Ok(User { id, first_name, last_name, gender, birth_date, email })
}

/// A full-location body is well formed.
pub open spec fn spec_location_new_ok(s: Seq<char>) -> bool {
    &&& body_fields(s) is Some
    &&& spec_i32_field(body_fields(s)->0, "id"@) is Some
    &&& spec_i32_field(body_fields(s)->0, "distance"@) is Some
    &&& spec_str_field(body_fields(s)->0, "city"@) is Some
    &&& spec_str_field(body_fields(s)->0, "place"@) is Some
    &&& spec_str_field(body_fields(s)->0, "country"@) is Some
}

/// Parses a full location for creation.
pub fn parse_location_new(body: &Vec<char>) -> (r: Result<Location, ApiError>)
    ensures
        r is Ok <==> spec_location_new_ok(body@),
        r is Err ==> r == Err::<Location, ApiError>(ApiError::Malformed),
        r matches Ok(l) ==> ({
            let fs = body_fields(body@)->0;
            &&& Some(l.id) == spec_i32_field(fs, "id"@)
            &&& Some(l.distance) == spec_i32_field(fs, "distance"@)
            &&& Some(l.city@) == spec_str_field(fs, "city"@)
            &&& Some(l.place@) == spec_str_field(fs, "place"@)
            &&& Some(l.country@) == spec_str_field(fs, "country"@)
        }),
{
    let fs = match parse_fields(body) {
        Some(fs) => fs,
        None => {
            return Err(ApiError::Malformed);
        },
    };
    let id = req_i32_field(&fs, "id")?;
    let distance = req_i32_field(&fs, "distance")?;
    let city = req_str_field(&fs, "city")?;
    let place = req_str_field(&fs, "place")?;
    let country = req_str_field(&fs, "country")?;
    Ok(Location { id, distance, city, place, country })
}

/// A full-visit body is well formed.
pub open spec fn spec_visit_new_ok(s: Seq<char>) -> bool {
    &&& body_fields(s) is Some
    &&& spec_i32_field(body_fields(s)->0, "id"@) is Some
    &&& spec_i32_field(body_fields(s)->0, "user"@) is Some
    &&& spec_i32_field(body_fields(s)->0, "location"@) is Some
    &&& spec_i64_field(body_fields(s)->0, "visited_at"@) is Some
    &&& spec_i8_field(body_fields(s)->0, "mark"@) is Some
}

/// Parses a full visit for creation.
pub fn parse_visit_new(body: &Vec<char>) -> (r: Result<Visit, ApiError>)
    ensures
        r is Ok <==> spec_visit_new_ok(body@),
        r is Err ==> r == Err::<Visit, ApiError>(ApiError::Malformed),
        r matches Ok(v) ==> ({
            let fs = body_fields(body@)->0;
            &&& Some(v.id) == spec_i32_field(fs, "id"@)
            &&& Some(v.user) == spec_i32_field(fs, "user"@)
            &&& Some(v.location) == spec_i32_field(fs, "location"@)
            &&& Some(v.visited_at) == spec_i64_field(fs, "visited_at"@)
            &&& Some(v.mark) == spec_i8_field(fs, "mark"@)
        }),
{
    let fs = match parse_fields(body) {
        Some(fs) => fs,
        None => {
            return Err(ApiError::Malformed);
        },
    };
    let id = req_i32_field(&fs, "id")?;
    let user = req_i32_field(&fs, "user")?;
    let location = req_i32_field(&fs, "location")?;
    let visited_at = req_i64_field(&fs, "visited_at")?;
    let mark = req_i8_field(&fs, "mark")?;
    Ok(Visit { id, user, location, visited_at, mark })
}

/// A partial-user body is well formed: every present field has the right
/// type and none is `null`.
pub open spec fn spec_user_patch_ok(s: Seq<char>) -> bool {
    &&& body_fields(s) is Some
    &&& opt_str_ok(body_fields(s)->0, "first_name"@)
    &&& opt_str_ok(body_fields(s)->0, "last_name"@)
    &&& opt_str_ok(body_fields(s)->0, "gender"@)
    &&& opt_i64_ok(body_fields(s)->0, "birth_date"@)
    &&& opt_str_ok(body_fields(s)->0, "email"@)
}

/// The patch field `x` reflects the body field exactly.
pub open spec fn patch_str_matches(
    x: Option<Vec<char>>,
    fs: Seq<(Seq<char>, JValV)>,
    name: Seq<char>,
) -> bool {
    match x {
        Some(v) => spec_str_field(fs, name) == Some(v@),
        None => spec_field(fs, name) is FMissing,
    }
}

/// Parses a partial user update.
pub fn parse_user_patch(body: &Vec<char>) -> (r: Result<UserPatch, ApiError>)
    ensures
        r is Ok <==> spec_user_patch_ok(body@),
        r is Err ==> r == Err::<UserPatch, ApiError>(ApiError::Malformed),
        r matches Ok(p) ==> ({
            let fs = body_fields(body@)->0;
            &&& patch_str_matches(p.first_name, fs, "first_name"@)
            &&& patch_str_matches(p.last_name, fs, "last_name"@)
            &&& patch_str_matches(p.gender, fs, "gender"@)
            &&& (match p.birth_date {
                Some(v) => spec_i64_field(fs, "birth_date"@) == Some(v),
                None => spec_field(fs, "birth_date"@) is FMissing,
            })
            &&& patch_str_matches(p.email, fs, "email"@)
        }),
{
    let fs = match parse_fields(body) {
        Some(fs) => fs,
        None => {
            return Err(ApiError::Malformed);
        },
    };
    let first_name = opt_str_field(&fs, "first_name")?;
    let last_name = opt_str_field(&fs, "last_name")?;
    let gender = opt_str_field(&fs, "gender")?;
    let birth_date = opt_i64_field(&fs, "birth_date")?;
    let email = opt_str_field(&fs, "email")?;
    Ok(UserPatch { first_name, last_name, gender, birth_date, email })
}

/// A partial-location body is well formed.
pub open spec fn spec_location_patch_ok(s: Seq<char>) -> bool {
    &&& body_fields(s) is Some
    &&& opt_i32_ok(body_fields(s)->0, "distance"@)
    &&& opt_str_ok(body_fields(s)->0, "city"@)
    &&& opt_str_ok(body_fields(s)->0, "place"@)
    &&& opt_str_ok(body_fields(s)->0, "country"@)
}

/// Parses a partial location update.
pub fn parse_location_patch(body: &Vec<char>) -> (r: Result<LocationPatch, ApiError>)
    ensures
        r is Ok <==> spec_location_patch_ok(body@),
        r is Err ==> r == Err::<LocationPatch, ApiError>(ApiError::Malformed),
        r matches Ok(p) ==> ({
            let fs = body_fields(body@)->0;
            &&& (match p.distance {
                Some(v) => spec_i32_field(fs, "distance"@) == Some(v),
                None => spec_field(fs, "distance"@) is FMissing,
            })
            &&& patch_str_matches(p.city, fs, "city"@)
            &&& patch_str_matches(p.place, fs, "place"@)
            &&& patch_str_matches(p.country, fs, "country"@)
        }),
{
    let fs = match parse_fields(body) {
        Some(fs) => fs,
        None => {
            return Err(ApiError::Malformed);
        },
    };
    let distance = opt_i32_field(&fs, "distance")?;
    let city = opt_str_field(&fs, "city")?;
    let place = opt_str_field(&fs, "place")?;
    let country = opt_str_field(&fs, "country")?;
    Ok(LocationPatch { distance, city, place, country })
}

/// A partial-visit body is well formed.
pub open spec fn spec_visit_patch_ok(s: Seq<char>) -> bool {
    &&& body_fields(s) is Some
    &&& opt_i32_ok(body_fields(s)->0, "user"@)
    &&& opt_i32_ok(body_fields(s)->0, "location"@)
    &&& opt_i64_ok(body_fields(s)->0, "visited_at"@)
    &&& opt_i8_ok(body_fields(s)->0, "mark"@)
}

/// Parses a partial visit update.
pub fn parse_visit_patch(body: &Vec<char>) -> (r: Result<VisitPatch, ApiError>)
    ensures
        r is Ok <==> spec_visit_patch_ok(body@),
        r is Err ==> r == Err::<VisitPatch, ApiError>(ApiError::Malformed),
        r matches Ok(p) ==> ({
            let fs = body_fields(body@)->0;
            &&& (match p.user {
                Some(v) => spec_i32_field(fs, "user"@) == Some(v),
                None => spec_field(fs, "user"@) is FMissing,
            })
            &&& (match p.location {
                Some(v) => spec_i32_field(fs, "location"@) == Some(v),
                None => spec_field(fs, "location"@) is FMissing,
            })
            &&& (match p.visited_at {
                Some(v) => spec_i64_field(fs, "visited_at"@) == Some(v),
                None => spec_field(fs, "visited_at"@) is FMissing,
            })
            &&& (match p.mark {
                Some(v) => spec_i8_field(fs, "mark"@) == Some(v),
                None => spec_field(fs, "mark"@) is FMissing,
            })
        }),
{
    let fs = match parse_fields(body) {
        Some(fs) => fs,
        None => {
            return Err(ApiError::Malformed);
        },
    };
    let user = opt_i32_field(&fs, "user")?;
    let location = opt_i32_field(&fs, "location")?;
    let visited_at = opt_i64_field(&fs, "visited_at")?;
    let mark = opt_i8_field(&fs, "mark")?;
    Ok(VisitPatch { user, location, visited_at, mark })
}

} // verus!
