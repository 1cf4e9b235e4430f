//! Rendering of responses: decimal numbers, JSON string escaping, entity
//! bodies, the visits projection and the average, all as character vectors
//! pinned by spec-level formatting functions.

use vstd::prelude::*;
use vstd::std_specs::iter::IteratorSpec;
use crate::domain::{Location, User, UserVisitBody, UvBodyV, Visit};

verus! {

/// The character for decimal digit `d`.
pub open spec fn digit_char(d: nat) -> char {
    ((48 + (d % 10)) as u8) as char
}

/// The decimal digits of `n`, most significant first, no sign and no
/// leading zeros (a single `0` for zero).
pub open spec fn dec_digits(n: nat) -> Seq<char>
    decreases n,
{
    if n < 10 {
        seq![digit_char(n)]
    } else {
        dec_digits(n / 10).push(digit_char(n % 10))
    }
}

/// The decimal form of `n`, with a leading `-` when negative.
pub open spec fn dec_int(n: int) -> Seq<char> {
    if n < 0 {
        seq!['-'] + dec_digits((-n) as nat)
    } else {
        dec_digits(n as nat)
    }
}

/// Appends the decimal digits of `n`.
pub fn push_dec_u128(out: &mut Vec<char>, n: u128)
    ensures
        final(out)@ == old(out)@ + dec_digits(n as nat),
    decreases n,
{
    if n >= 10 {
        push_dec_u128(out, n / 10);
    }
    out.push((48u8 + (n % 10) as u8) as char);
    proof {
        assert(out@ =~= old(out)@ + dec_digits(n as nat));
    }
}

/// Appends the decimal form of `n`, sign included.
pub fn push_dec_i64(out: &mut Vec<char>, n: i64)
    ensures
        final(out)@ == old(out)@ + dec_int(n as int),
{
    if n < 0 {
        out.push('-');
        let m: u128 = (-(n as i128)) as u128;
        push_dec_u128(out, m);
        proof {
            assert(out@ =~= old(out)@ + dec_int(n as int));
        }
    } else {
        push_dec_u128(out, n as u128);
    }
}

/// Appends the characters of `s`.
pub fn push_str_chars(out: &mut Vec<char>, s: &str)
    ensures
        final(out)@ == old(out)@ + s@,
{
    let mut it = s.chars();
    loop
        invariant_except_break
            it.obeys_prophetic_iter_laws(),
            it.decrease() is Some,
            out@ + it.remaining() == old(out)@ + s@,
        ensures
            out@ == old(out)@ + s@,
        decreases it.decrease()->0,
    {
        match it.next() {
            Some(c) => {
                out.push(c);
                proof {
                    assert(out@ + it.remaining() =~= old(out)@ + s@);
                }
            },
            None => {
                proof {
                    assert(out@ =~= old(out)@ + s@);
                }
                break ;
            },
        }
    }
}

/// The characters of a string slice as a vector.
pub fn chars_vec(s: &str) -> (r: Vec<char>)
    ensures
        r@ == s@,
{
    let mut out: Vec<char> = Vec::new();
    push_str_chars(&mut out, s);
    proof {
        assert(out@ =~= s@);
    }
    out
}

/// The hexadecimal digit character for `d`.
pub open spec fn hex_digit(d: nat) -> char {
    if d % 16 < 10 {
        ((48 + (d % 16)) as u8) as char
    } else {
        ((87 + (d % 16)) as u8) as char
    }
}

/// How one character appears inside a JSON string literal.
pub open spec fn esc_char(c: char) -> Seq<char> {
    if c == '"' {
        seq!['\\', '"']
    } else if c == '\\' {
        seq!['\\', '\\']
    } else if c == '\n' {
        seq!['\\', 'n']
    } else if c == '\r' {
        seq!['\\', 'r']
    } else if c == '\t' {
        seq!['\\', 't']
    } else if c == '\u{8}' {
        seq!['\\', 'b']
    } else if c == '\u{c}' {
        seq!['\\', 'f']
    } else if (c as u32) < 32 {
        seq!['\\', 'u', '0', '0', hex_digit((c as u32 / 16) as nat), hex_digit(
            (c as u32 % 16) as nat,
        )]
    } else {
        seq![c]
    }
}

/// The body of a JSON string literal for `s`.
pub open spec fn json_escaped(s: Seq<char>) -> Seq<char>
    decreases s.len(),
{
    if s.len() == 0 {
        Seq::empty()
    } else {
        json_escaped(s.drop_last()) + esc_char(s.last())
    }
}

/// A whole JSON string literal for `s`, quotes included.
pub open spec fn spec_json_str(s: Seq<char>) -> Seq<char> {
    seq!['"'] + json_escaped(s) + seq!['"']
}

/// Appends one escaped character.
fn push_esc_char(out: &mut Vec<char>, c: char)
    ensures
        final(out)@ == old(out)@ + esc_char(c),
{
    if c == '"' {
        out.push('\\');
        out.push('"');
    } else if c == '\\' {
        out.push('\\');
        out.push('\\');
    } else if c == '\n' {
        out.push('\\');
        out.push('n');
    } else if c == '\r' {
        out.push('\\');
        out.push('r');
    } else if c == '\t' {
        out.push('\\');
        out.push('t');
    } else if c == '\u{8}' {
        out.push('\\');
        out.push('b');
    } else if c == '\u{c}' {
        out.push('\\');
        out.push('f');
    } else if (c as u32) < 32 {
        let d = c as u32;
        out.push('\\');
        out.push('u');
        out.push('0');
        out.push('0');
        let hi = (d / 16) as u8;
        let lo = (d % 16) as u8;
        out.push((if hi < 10 { 48u8 + hi } else { 87u8 + hi }) as char);
        out.push((if lo < 10 { 48u8 + lo } else { 87u8 + lo }) as char);
    } else {
        out.push(c);
    }
    proof {
        assert(out@ =~= old(out)@ + esc_char(c));
    }
}

/// Appends a whole JSON string literal for `s`.
pub fn push_json_str(out: &mut Vec<char>, s: &Vec<char>)
    ensures
        final(out)@ == old(out)@ + spec_json_str(s@),
{
    out.push('"');
    let mut i: usize = 0;
    while i < s.len()
        invariant
            i <= s@.len(),
            out@ == old(out)@ + seq!['"'] + json_escaped(s@.subrange(0, i as int)),
        decreases s@.len() - i,
    {
        push_esc_char(out, s[i]);
        proof {
            let pre = s@.subrange(0, i as int);
            let post = s@.subrange(0, i + 1 as int);
            assert(post.drop_last() =~= pre);
            assert(post.last() == s@[i as int]);
            assert(out@ =~= old(out)@ + seq!['"'] + json_escaped(post));
        }
        i = i + 1;
    }
    out.push('"');
    proof {
        assert(s@.subrange(0, s@.len() as int) =~= s@);
        assert(out@ =~= old(out)@ + spec_json_str(s@));
    }
}

/// The JSON body for a user, fields in declaration order.
pub open spec fn spec_user_json(u: User) -> Seq<char> {
    "{\"id\":"@ + dec_int(u.id as int) + ",\"first_name\":"@ + spec_json_str(u.first_name@)
        + ",\"last_name\":"@ + spec_json_str(u.last_name@) + ",\"gender\":"@ + spec_json_str(
        u.gender@,
    ) + ",\"birth_date\":"@ + dec_int(u.birth_date as int) + ",\"email\":"@ + spec_json_str(
        u.email@,
    ) + "}"@
}

/// Renders a user as JSON.
pub fn render_user(u: &User) -> (r: Vec<char>)
    ensures
        r@ == spec_user_json(*u),
{
    let mut out: Vec<char> = Vec::new();
    push_str_chars(&mut out, "{\"id\":");
    push_dec_i64(&mut out, u.id as i64);
    push_str_chars(&mut out, ",\"first_name\":");
    push_json_str(&mut out, &u.first_name);
    push_str_chars(&mut out, ",\"last_name\":");
    push_json_str(&mut out, &u.last_name);
    push_str_chars(&mut out, ",\"gender\":");
    push_json_str(&mut out, &u.gender);
    push_str_chars(&mut out, ",\"birth_date\":");
    push_dec_i64(&mut out, u.birth_date);
    push_str_chars(&mut out, ",\"email\":");
    push_json_str(&mut out, &u.email);
    push_str_chars(&mut out, "}");
    proof {
        assert(out@ =~= spec_user_json(*u));
    }
    out
}

/// The JSON body for a location, fields in declaration order.
pub open spec fn spec_location_json(l: Location) -> Seq<char> {
    "{\"id\":"@ + dec_int(l.id as int) + ",\"distance\":"@ + dec_int(l.distance as int)
        + ",\"city\":"@ + spec_json_str(l.city@) + ",\"place\":"@ + spec_json_str(l.place@)
        + ",\"country\":"@ + spec_json_str(l.country@) + "}"@
}

/// Renders a location as JSON.
pub fn render_location(l: &Location) -> (r: Vec<char>)
    ensures
        r@ == spec_location_json(*l),
{
    let mut out: Vec<char> = Vec::new();
    push_str_chars(&mut out, "{\"id\":");
    push_dec_i64(&mut out, l.id as i64);
    push_str_chars(&mut out, ",\"distance\":");
    push_dec_i64(&mut out, l.distance as i64);
    push_str_chars(&mut out, ",\"city\":");
    push_json_str(&mut out, &l.city);
    push_str_chars(&mut out, ",\"place\":");
    push_json_str(&mut out, &l.place);
    push_str_chars(&mut out, ",\"country\":");
    push_json_str(&mut out, &l.country);
    push_str_chars(&mut out, "}");
    proof {
        assert(out@ =~= spec_location_json(*l));
    }
    out
}

/// The JSON body for a visit, fields in declaration order.
pub open spec fn spec_visit_json(v: Visit) -> Seq<char> {
    "{\"id\":"@ + dec_int(v.id as int) + ",\"user\":"@ + dec_int(v.user as int) + ",\"location\":"@
        + dec_int(v.location as int) + ",\"visited_at\":"@ + dec_int(v.visited_at as int)
        + ",\"mark\":"@ + dec_int(v.mark as int) + "}"@
}

/// Renders a visit as JSON.
pub fn render_visit(v: &Visit) -> (r: Vec<char>)
    ensures
        r@ == spec_visit_json(*v),
{
    let mut out: Vec<char> = Vec::new();
    push_str_chars(&mut out, "{\"id\":");
    push_dec_i64(&mut out, v.id as i64);
    push_str_chars(&mut out, ",\"user\":");
    push_dec_i64(&mut out, v.user as i64);
    push_str_chars(&mut out, ",\"location\":");
    push_dec_i64(&mut out, v.location as i64);
    push_str_chars(&mut out, ",\"visited_at\":");
    push_dec_i64(&mut out, v.visited_at);
    push_str_chars(&mut out, ",\"mark\":");
    push_dec_i64(&mut out, v.mark as i64);
    push_str_chars(&mut out, "}");
    proof {
        assert(out@ =~= spec_visit_json(*v));
    }
    out
}

/// One projected visit row as JSON.
pub open spec fn spec_uv_body_json(b: UvBodyV) -> Seq<char> {
    "{\"mark\":"@ + dec_int(b.mark as int) + ",\"visited_at\":"@ + dec_int(b.visited_at as int)
        + ",\"place\":"@ + spec_json_str(b.place) + "}"@
}

/// The comma-separated projected rows.
pub open spec fn spec_visits_items(bs: Seq<UvBodyV>) -> Seq<char>
    decreases bs.len(),
{
    if bs.len() == 0 {
        Seq::empty()
    } else if bs.len() == 1 {
        spec_uv_body_json(bs[0])
    } else {
        spec_visits_items(bs.drop_last()) + seq![','] + spec_uv_body_json(bs.last())
    }
}

/// The whole visits response.
pub open spec fn spec_visits_json(bs: Seq<UvBodyV>) -> Seq<char> {
    "{\"visits\":["@ + spec_visits_items(bs) + "]}"@
}

/// Appends one projected row.
fn push_uv_body(out: &mut Vec<char>, b: &UserVisitBody)
    ensures
        final(out)@ == old(out)@ + spec_uv_body_json(b@),
{
    push_str_chars(out, "{\"mark\":");
    push_dec_i64(out, b.mark as i64);
    push_str_chars(out, ",\"visited_at\":");
    push_dec_i64(out, b.visited_at);
    push_str_chars(out, ",\"place\":");
    push_json_str(out, &b.place);
    push_str_chars(out, "}");
    proof {
        assert(out@ =~= old(out)@ + spec_uv_body_json(b@));
    }
}

/// Renders the visits response.
pub fn render_visits(bs: &Vec<UserVisitBody>) -> (r: Vec<char>)
    ensures
        r@ == spec_visits_json(bs@.map_values(|b: UserVisitBody| b@)),
{
    let ghost m = bs@.map_values(|b: UserVisitBody| b@);
    let mut out: Vec<char> = Vec::new();
    push_str_chars(&mut out, "{\"visits\":[");
    let mut i: usize = 0;
    while i < bs.len()
        invariant
            i <= bs@.len(),
            m == bs@.map_values(|b: UserVisitBody| b@),
            out@ == "{\"visits\":["@ + spec_visits_items(m.subrange(0, i as int)),
        decreases bs@.len() - i,
    {
        if i > 0 {
            push_str_chars(&mut out, ",");
            proof {
                reveal_strlit(",");
            }
        }
        push_uv_body(&mut out, &bs[i]);
        proof {
            let pre = m.subrange(0, i as int);
            let post = m.subrange(0, i + 1 as int);
            assert(post.drop_last() =~= pre);
            assert(post.last() == m[i as int]);
            assert(m[i as int] == bs@[i as int]@);
            if i == 0 {
                assert(out@ =~= "{\"visits\":["@ + spec_visits_items(post));
            } else {
                assert(","@ =~= seq![',']);
                assert(out@ =~= "{\"visits\":["@ + spec_visits_items(post));
            }
        }
        i = i + 1;
    }
    push_str_chars(&mut out, "]}");
    proof {
        assert(m.subrange(0, m.len() as int) =~= m);
        assert(out@ =~= spec_visits_json(m));
    }
    out
}

/// The mean of `sum / count` scaled by 100000 and rounded half away from
/// zero.
pub open spec fn spec_avg_scaled(sum: int, count: int) -> int
    recommends
        count > 0,
{
    if sum >= 0 {
        (200000 * sum + count) / (2 * count)
    } else {
        -((200000 * (-sum) + count) / (2 * count))
    }
}

/// `s` without its trailing zero characters.
pub open spec fn strip_zeros(s: Seq<char>) -> Seq<char>
    decreases s.len(),
{
    if s.len() > 0 && s.last() == '0' {
        strip_zeros(s.drop_last())
    } else {
        s
    }
}

/// The five fractional digits of `fr`, zero-padded.
pub open spec fn frac5_digits(fr: int) -> Seq<char> {
    seq![
        digit_char((fr / 10000) as nat),
        digit_char((fr / 1000 % 10) as nat),
        digit_char((fr / 100 % 10) as nat),
        digit_char((fr / 10 % 10) as nat),
        digit_char((fr % 10) as nat),
    ]
}

/// The decimal form of the mean with five fractional digits, trailing zeros
/// stripped, and at least one digit after the point.
pub open spec fn spec_avg_chars(sum: int, count: int) -> Seq<char>
    recommends
        count > 0,
{
    let sc = spec_avg_scaled(sum, count);
    let mag = if sc < 0 {
        -sc
    } else {
        sc
    };
    let frs = strip_zeros(frac5_digits(mag % 100000));
    (if sc < 0 {
        seq!['-']
    } else {
        Seq::<char>::empty()
    }) + dec_digits((mag / 100000) as nat) + seq!['.'] + (if frs.len() == 0 {
        seq!['0']
    } else {
        frs
    })
}

/// The whole average response: `0` without a decimal point for an empty
/// selection, the formatted mean otherwise.
pub open spec fn spec_avg_json(sum: int, count: int) -> Seq<char> {
    if count == 0 {
        "{\"avg\":0}"@
    } else {
        "{\"avg\":"@ + spec_avg_chars(sum, count) + "}"@
    }
}

/// Computes the scaled rounded mean.
#[verifier::rlimit(100)]
fn avg_scaled(sum: i128, count: usize) -> (r: i128)
    requires
        count > 0,
        -128 * (count as int) <= sum as int <= 128 * (count as int),
    ensures
        r as int == spec_avg_scaled(sum as int, count as int),
{
    let c = count as i128;
    if sum >= 0 {
        (200000 * sum + c) / (2 * c)
    } else {
        -((200000 * (-sum) + c) / (2 * c))
    }
}

/// Renders the average response.
#[verifier::rlimit(100)]
pub fn render_avg(sum: i128, count: usize) -> (r: Vec<char>)
    requires
        -128 * (count as int) <= sum as int <= 128 * (count as int),
    ensures
        r@ == spec_avg_json(sum as int, count as int),
{
    let mut out: Vec<char> = Vec::new();
    if count == 0 {
        push_str_chars(&mut out, "{\"avg\":0}");
        proof {
            assert(out@ =~= spec_avg_json(sum as int, count as int));
        }
        return out;
    }
    push_str_chars(&mut out, "{\"avg\":");
    let sc: i128 = avg_scaled(sum, count);
    let mag: i128 = if sc < 0 {
        -sc
    } else {
        sc
    };
    if sc < 0 {
        out.push('-');
    }
    push_dec_u128(&mut out, (mag / 100000) as u128);
    out.push('.');
    let fr: i128 = mag % 100000;
    let mut f: Vec<char> = Vec::new();
    f.push((48u8 + (fr / 10000) as u8) as char);
    f.push((48u8 + (fr / 1000 % 10) as u8) as char);
    f.push((48u8 + (fr / 100 % 10) as u8) as char);
    f.push((48u8 + (fr / 10 % 10) as u8) as char);
    f.push((48u8 + (fr % 10) as u8) as char);
    proof {
        assert(f@ =~= frac5_digits(fr as int));
    }
    let ghost f0 = f@;
    while f.len() > 0 && f[f.len() - 1] == '0'
        invariant
            strip_zeros(f@) == strip_zeros(f0),
        decreases f@.len(),
    {
        f.pop();
    }
    proof {
        assert(strip_zeros(f@) == f@);
    }
    if f.len() == 0 {
        out.push('0');
    } else {
        let ghost outpre = out@;
        let mut i: usize = 0;
        while i < f.len()
            invariant
                i <= f@.len(),
                out@ == outpre + f@.subrange(0, i as int),
            decreases f@.len() - i,
        {
            out.push(f[i]);
            proof {
                assert(out@ =~= outpre + f@.subrange(0, i + 1 as int));
            }
            i = i + 1;
        }
        proof {
            assert(f@.subrange(0, f@.len() as int) =~= f@);
        }
    }
    push_str_chars(&mut out, "}");
    proof {
        assert(out@ =~= spec_avg_json(sum as int, count as int));
    }
    out
}

} // verus!
