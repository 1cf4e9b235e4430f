//! Parsing decimal integers from text, with the exact grammar of Rust's
//! integer parsing: an optional sign followed by one or more digits, rejected
//! on overflow.

use vstd::prelude::*;

verus! {

pub open spec fn is_digit(c: char) -> bool {
    '0' <= c && c <= '9'
}

/// The value of a run of decimal digits, unbounded.
pub open spec fn digits_val(s: Seq<char>) -> int
    decreases s.len(),
{
    if s.len() == 0 {
        0
    } else {
        digits_val(s.drop_last()) * 10 + (s.last() as int - 48)
    }
}

pub open spec fn all_digits(s: Seq<char>) -> bool {
    s.len() > 0 && forall|i: int| 0 <= i < s.len() ==> is_digit(#[trigger] s[i])
}

/// The signed value of `s`, or `None` when `s` is not an optional sign
/// followed by digits.
pub open spec fn spec_signed_val(s: Seq<char>) -> Option<int> {
    let neg = s.len() > 0 && s[0] == '-';
    let ds = if s.len() > 0 && (s[0] == '-' || s[0] == '+') {
        s.drop_first()
    } else {
        s
    };
    if all_digits(ds) {
        if neg {
            Some(-digits_val(ds))
        } else {
            Some(digits_val(ds))
        }
    } else {
        None
    }
}

/// What `str::parse::<i64>` accepts: the signed value when it fits.
pub open spec fn spec_parse_i64(s: Seq<char>) -> Option<i64> {
    match spec_signed_val(s) {
        Some(v) => if i64::MIN <= v <= i64::MAX {
            Some(v as i64)
        } else {
            None
        },
        None => None,
    }
}

/// What `str::parse::<i32>` accepts: the signed value when it fits.
pub open spec fn spec_parse_i32(s: Seq<char>) -> Option<i32> {
    match spec_signed_val(s) {
        Some(v) => if i32::MIN <= v <= i32::MAX {
            Some(v as i32)
        } else {
            None
        },
        None => None,
    }
}

/// Accumulates the digits of `v` between `lo` and `hi`, capped: the result
/// is exact below `2^64` and at least `2^64` otherwise, and `None` where a
/// non-digit occurs.
pub fn digits_acc(v: &Vec<char>, lo: usize, hi: usize) -> (r: Option<u128>)
    requires
        lo <= hi <= v@.len(),
    ensures
        ({
            let ds = v@.subrange(lo as int, hi as int);
            match r {
                Some(acc) => (forall|i: int| lo <= i < hi ==> is_digit(#[trigger] v@[i])) && (
                digits_val(ds) < 0x10000000000000000 ==> acc == digits_val(ds)) && (digits_val(ds)
                    >= 0x10000000000000000 ==> acc >= 0x10000000000000000),
                None => !(forall|i: int| lo <= i < hi ==> is_digit(#[trigger] v@[i])),
            }
        }),
{
    let mut i: usize = lo;
    let mut acc: u128 = 0;
    while i < hi
        invariant
            lo <= i <= hi <= v@.len(),
            forall|k: int| lo <= k < i ==> is_digit(#[trigger] v@[k]),
            acc < 0x10000000000000000 * 10,
            ({
                let pre = v@.subrange(lo as int, i as int);
                &&& (digits_val(pre) < 0x10000000000000000 ==> acc == digits_val(pre))
                &&& (digits_val(pre) >= 0x10000000000000000 ==> acc >= 0x10000000000000000)
            }),
        decreases hi - i,
    {
        let c = v[i];
        if !('0' <= c && c <= '9') {
            return None;
        }
        let d = (c as u32 - 48) as u128;
        proof {
            let pre = v@.subrange(lo as int, i as int);
            let post = v@.subrange(lo as int, i + 1 as int);
            assert(post.drop_last() =~= pre);
            assert(post.last() == v@[i as int]);
            assert(digits_val(post) == digits_val(pre) * 10 + (c as int - 48));
            assert(digits_val(pre) >= 0) by {
                lemma_digits_val_nonneg(pre);
            }
        }
        if acc < 0x10000000000000000 {
            acc = acc * 10 + d;
        }
        i = i + 1;
    }
    Some(acc)
}

/// A digit run's value is never negative.
pub proof fn lemma_digits_val_nonneg(s: Seq<char>)
    requires
        forall|i: int| 0 <= i < s.len() ==> is_digit(#[trigger] s[i]),
    ensures
        digits_val(s) >= 0,
    decreases s.len(),
{
    if s.len() > 0 {
        lemma_digits_val_nonneg(s.drop_last());
    }
}

/// Parses a signed 64-bit integer, as `str::parse::<i64>` would.
pub fn parse_i64_chars(v: &Vec<char>) -> (r: Option<i64>)
    ensures
        r == spec_parse_i64(v@),
{
    let n = v.len();
    let mut start: usize = 0;
    let mut neg = false;
    if n > 0 && (v[0] == '-' || v[0] == '+') {
        neg = v[0] == '-';
        start = 1;
    }
    proof {
        if start == 1 {
            assert(v@.subrange(1, n as int) =~= v@.drop_first());
        } else {
            assert(v@.subrange(0, n as int) =~= v@);
        }
    }
    if start >= n {
        return None;
    }
    let ghost ds = if start == 1 {
        v@.drop_first()
    } else {
        v@
    };
    let acc = match digits_acc(v, start, n) {
        Some(a) => a,
        None => {
            proof {
                if all_digits(ds) {
                    assert forall|i: int| start <= i < n implies is_digit(#[trigger] v@[i]) by {
                        assert(is_digit(ds[i - start]));
                        assert(ds[i - start] == v@[i]);
                    }
                }
            }
            return None;
        },
    };
    proof {
        lemma_digits_val_nonneg(v@.subrange(start as int, n as int));
    }
    if neg {
        if acc <= 9223372036854775808 {
            Some((-(acc as i128)) as i64)
        } else {
            None
        }
    } else {
        if acc <= 9223372036854775807 {
            Some(acc as i64)
        } else {
            None
        }
    }
}

/// Parses a signed 32-bit integer, as `str::parse::<i32>` would.
pub fn parse_i32_chars(v: &Vec<char>) -> (r: Option<i32>)
    ensures
        r == spec_parse_i32(v@),
{
    let n = v.len();
    let mut start: usize = 0;
    let mut neg = false;
    if n > 0 && (v[0] == '-' || v[0] == '+') {
        neg = v[0] == '-';
        start = 1;
    }
    proof {
        if start == 1 {
            assert(v@.subrange(1, n as int) =~= v@.drop_first());
        } else {
            assert(v@.subrange(0, n as int) =~= v@);
        }
    }
    if start >= n {
        return None;
    }
    let ghost ds = if start == 1 {
        v@.drop_first()
    } else {
        v@
    };
    let acc = match digits_acc(v, start, n) {
        Some(a) => a,
        None => {
            proof {
                if all_digits(ds) {
                    assert forall|i: int| start <= i < n implies is_digit(#[trigger] v@[i]) by {
                        assert(is_digit(ds[i - start]));
                        assert(ds[i - start] == v@[i]);
                    }
                }
            }
            return None;
        },
    };
    proof {
        lemma_digits_val_nonneg(v@.subrange(start as int, n as int));
    }
    if neg {
        if acc <= 2147483648 {
            Some((-(acc as i64)) as i32)
        } else {
            None
        }
    } else {
        if acc <= 2147483647 {
            Some(acc as i32)
        } else {
            None
        }
    }
}

/// Copies a range of characters.
pub fn copy_range(v: &Vec<char>, lo: usize, hi: usize) -> (r: Vec<char>)
    requires
        lo <= hi <= v@.len(),
    ensures
        r@ == v@.subrange(lo as int, hi as int),
{
    let mut out: Vec<char> = Vec::new();
    let mut i: usize = lo;
    while i < hi
        invariant
            lo <= i <= hi <= v@.len(),
            out@ == v@.subrange(lo as int, i as int),
        decreases hi - i,
    {
        out.push(v[i]);
        proof {
            assert(out@ =~= v@.subrange(lo as int, i + 1 as int));
        }
        i = i + 1;
    }
    out
}

} // verus!

