//! The names of archive entries: map-geometry entries and patch entries
//! named by their cell coordinates.

use vstd::prelude::*;
use vstd::string::StringSliceAdditionalSpecFns;

verus! {

/// The name of a map-geometry entry: a single `_`, with only ASCII digits
/// and hyphens around it.
pub open spec fn is_chunk_name(name: Seq<u8>) -> bool {
    exists|i: int|
        0 <= i < name.len() && name[i] == 0x5f && forall|j: int|
            0 <= j < name.len() && j != i ==> is_digit_or_hyphen(#[trigger] name[j])
}

pub open spec fn is_digit_or_hyphen(b: u8) -> bool {
    (0x30 <= b <= 0x39) || b == 0x2d
}

/// Whether an archive entry holds map geometry: its name, stripped of the
/// ASCII digits and hyphens at both ends, is `_`.
pub fn is_chunk_entry(name: &str) -> (r: bool)
    ensures
        r == is_chunk_name(name.spec_bytes()),
{
    let b = name.as_bytes();
    let mut found: Option<usize> = None;
    let mut i: usize = 0;
    while i < b.len()
        invariant
            i <= b@.len(),
            b@ == name.spec_bytes(),
            match found {
                None => forall|j: int| 0 <= j < i ==> is_digit_or_hyphen(#[trigger] b@[j]),
                Some(p) => p < i && b@[p as int] == 0x5f && forall|j: int|
                    0 <= j < i && j != p ==> is_digit_or_hyphen(#[trigger] b@[j]),
            },
        decreases b.len() - i,
    {
        let c = b[i];
        if !((0x30 <= c && c <= 0x39) || c == 0x2d) {
            if c == 0x5f && found.is_none() {
                found = Some(i);
            } else {
                proof {
                    if is_chunk_name(b@) {
                        let p = choose|p: int|
                            0 <= p < b@.len() && b@[p] == 0x5f && forall|j: int|
                                0 <= j < b@.len() && j != p ==> is_digit_or_hyphen(#[trigger] b@[j]);
                        if p != i {
                            assert(is_digit_or_hyphen(b@[i as int]));
                        } else {
                            let q = found.unwrap();
                            assert(is_digit_or_hyphen(b@[q as int]));
                        }
                    }
                }
                return false;
            }
        }
        i = i + 1;
    }
    match found {
        Some(p) => {
            assert(b@[p as int] == 0x5f);
            true
        },
        None => {
            proof {
                if is_chunk_name(b@) {
                    let p = choose|p: int|
                        0 <= p < b@.len() && b@[p] == 0x5f && forall|j: int|
                            0 <= j < b@.len() && j != p ==> is_digit_or_hyphen(#[trigger] b@[j]);
                    assert(is_digit_or_hyphen(b@[p]));
                }
            }
            false
        },
    }
}

/// Whether `b` is an ASCII decimal digit.
pub open spec fn is_digit(b: u8) -> bool {
    0x30 <= b <= 0x39
}

/// The length of the sign that `s` starts with: 1 for `+` or `-`, else 0.
pub open spec fn sign_len(s: Seq<u8>) -> int {
    if s.len() > 0 && (s[0] == 0x2d || s[0] == 0x2b) {
        1
    } else {
        0
    }
}

/// The value of a run of decimal digits.
pub open spec fn digits_value(s: Seq<u8>) -> int
    decreases s.len(),
{
    if s.len() == 0 {
        0
    } else {
        digits_value(s.drop_last()) * 10 + (s.last() - 0x30)
    }
}

/// The `i32` that `s` writes in decimal: an optional `+` or `-`, then one or
/// more digits; `None` when `s` has another form or the value does not fit.
pub open spec fn decimal_i32(s: Seq<u8>) -> Option<i32> {
    let neg = s.len() > 0 && s[0] == 0x2d;
    let digits = s.skip(sign_len(s));
    if digits.len() == 0 || !(forall|i: int| 0 <= i < digits.len() ==> is_digit(#[trigger] digits[i])) {
        None
    } else {
        let v = if neg {
            -digits_value(digits)
        } else {
            digits_value(digits)
        };
        if i32::MIN <= v <= i32::MAX {
            Some(v as i32)
        } else {
            None
        }
    }
}

proof fn lemma_digits_value_grows(s: Seq<u8>, k: int)
    requires
        0 <= k <= s.len(),
        forall|i: int| 0 <= i < s.len() ==> is_digit(#[trigger] s[i]),
    ensures
        0 <= digits_value(s.take(k)) <= digits_value(s),
    decreases s.len() - k,
{
    if k < s.len() {
        lemma_digits_value_grows(s, k + 1);
        assert(s.take(k + 1).drop_last() =~= s.take(k));
    } else {
        assert(s.take(k) =~= s);
    }
    lemma_digits_value_nonneg(s.take(k));
}

proof fn lemma_digits_value_nonneg(s: Seq<u8>)
    requires
        forall|i: int| 0 <= i < s.len() ==> is_digit(#[trigger] s[i]),
    ensures
        digits_value(s) >= 0,
    decreases s.len(),
{
    if s.len() > 0 {
        lemma_digits_value_nonneg(s.drop_last());
    }
}

/// Parses `b[start..end]` as a decimal `i32`.
fn parse_decimal(b: &[u8], start: usize, end: usize) -> (r: Option<i32>)
    requires
        start <= end <= b@.len(),
    ensures
        r == decimal_i32(b@.subrange(start as int, end as int)),
{
    let ghost s = b@.subrange(start as int, end as int);
    let mut i = start;
    let mut neg = false;
    if i < end && (b[i] == 0x2d || b[i] == 0x2b) {
        neg = b[i] == 0x2d;
        i = i + 1;
    }
    let ghost digits = b@.subrange(i as int, end as int);
    assert(digits =~= s.skip(sign_len(s)));
    assert(neg == (s.len() > 0 && s[0] == 0x2d));
    if i == end {
        return None;
    }
    let first = i;
    let mut acc: i64 = 0;
    while i < end
        invariant
            first <= i <= end <= b@.len(),
            digits == b@.subrange(first as int, end as int),
            s == b@.subrange(start as int, end as int),
            digits == s.skip(sign_len(s)),
            neg == (s.len() > 0 && s[0] == 0x2d),
            forall|j: int| first <= j < i ==> is_digit(#[trigger] b@[j]),
            acc as int == digits_value(b@.subrange(first as int, i as int)),
            0 <= acc <= 0x8000_0000,
        decreases end - i,
    {
        let c = b[i];
        if !(0x30 <= c && c <= 0x39) {
            assert(digits[(i - first) as int] == c);
            assert(!is_digit(digits[(i - first) as int]));
            return None;
        }
        assert(b@.subrange(first as int, i + 1).drop_last() =~= b@.subrange(first as int, i as int));
        acc = acc * 10 + (c - 0x30) as i64;
        i = i + 1;
        if acc > 0x8000_0000 {
            proof {
                let ghost k = (i - first) as int;
                assert(forall|j: int| 0 <= j < k ==> is_digit(#[trigger] digits[j]));
                if forall|j: int| 0 <= j < digits.len() ==> is_digit(#[trigger] digits[j]) {
                    assert(digits.take(k) =~= b@.subrange(first as int, i as int));
                    lemma_digits_value_grows(digits, k);
                }
            }
            return None;
        }
    }
    assert(b@.subrange(first as int, i as int) =~= digits);
    let v: i64 = if neg {
        -acc
    } else {
        acc
    };
    if v < i32::MIN as i64 || v > i32::MAX as i64 {
        None
    } else {
        Some(v as i32)
    }
}

/// The cell coordinates that a patch entry name `<x>_<y>` gives: exactly
/// one `_`, with a decimal `i32` on each side.
pub open spec fn patch_coords(name: Seq<u8>) -> Option<(i32, i32)> {
    if exists|p: int| 0 <= p < name.len() && name[p] == 0x5f && forall|q: int|
        0 <= q < name.len() && q != p ==> #[trigger] name[q] != 0x5f {
        let p = choose|p: int| 0 <= p < name.len() && name[p] == 0x5f && forall|q: int|
            0 <= q < name.len() && q != p ==> #[trigger] name[q] != 0x5f;
        match (decimal_i32(name.take(p)), decimal_i32(name.skip(p + 1))) {
            (Some(x), Some(y)) => Some((x, y)),
            _ => None,
        }
    } else {
        None
    }
}

/// Reads the cell coordinates of a patch entry from its name `<x>_<y>`.
pub fn parse_patch(name: &str) -> (r: Option<(i32, i32)>)
    ensures
        r == patch_coords(name.spec_bytes()),
{
    let b = name.as_bytes();
    let mut found: Option<usize> = None;
    let mut i: usize = 0;
    while i < b.len()
        invariant
            i <= b@.len(),
            b@ == name.spec_bytes(),
            match found {
                None => forall|q: int| 0 <= q < i ==> #[trigger] b@[q] != 0x5f,
                Some(p) => p < i && b@[p as int] == 0x5f && forall|q: int|
                    0 <= q < i && q != p ==> #[trigger] b@[q] != 0x5f,
            },
        decreases b.len() - i,
    {
        if b[i] == 0x5f {
            if let Some(p) = found {
                proof {
                    if exists|p2: int| 0 <= p2 < b@.len() && b@[p2] == 0x5f && forall|q: int|
                        0 <= q < b@.len() && q != p2 ==> #[trigger] b@[q] != 0x5f {
                        let p2 = choose|p2: int| 0 <= p2 < b@.len() && b@[p2] == 0x5f && forall|q: int|
                            0 <= q < b@.len() && q != p2 ==> #[trigger] b@[q] != 0x5f;
                        if p2 != i as int {
                            assert(b@[i as int] != 0x5f);
                        } else {
                            assert(b@[p as int] != 0x5f);
                        }
                    }
                }
                return None;
            }
            found = Some(i);
        }
        i = i + 1;
    }
    match found {
        None => {
            proof {
                if exists|p2: int| 0 <= p2 < b@.len() && b@[p2] == 0x5f && forall|q: int|
                    0 <= q < b@.len() && q != p2 ==> #[trigger] b@[q] != 0x5f {
                    let p2 = choose|p2: int| 0 <= p2 < b@.len() && b@[p2] == 0x5f && forall|q: int|
                        0 <= q < b@.len() && q != p2 ==> #[trigger] b@[q] != 0x5f;
                    assert(b@[p2] != 0x5f);
                }
            }
            None
        },
        Some(p) => {
            proof {
                let p2 = choose|p2: int| 0 <= p2 < b@.len() && b@[p2] == 0x5f && forall|q: int|
                    0 <= q < b@.len() && q != p2 ==> #[trigger] b@[q] != 0x5f;
                if p2 != p as int {
                    assert(b@[p2] != 0x5f);
                }
                assert(b@.subrange(0, p as int) =~= b@.take(p as int));
                assert(b@.subrange(p + 1, b@.len() as int) =~= b@.skip(p + 1));
            }
            match (parse_decimal(b, 0, p), parse_decimal(b, p + 1, b.len())) {
                (Some(x), Some(y)) => Some((x, y)),
                _ => None,
            }
        },
    }
}

} // verus!
