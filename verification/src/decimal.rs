//! Parsing decimal text into fixed-point coordinates.
//!
//! A coordinate field is an optional minus sign, one or more integer
//! digits, and an optional fraction of one to six digits. The value is
//! exact: `COORD_SCALE` steps per map unit, so up to six decimal places
//! are representable. Anything else — empty text, stray characters,
//! more than six fraction digits, or a magnitude beyond `COORD_LIMIT` —
//! is rejected.
//!
//! The grammar is deliberately this narrow. A general floating-point
//! reader also accepts a leading plus sign, a bare dot on either side
//! of the digits, and exponent notation, and it rounds what the
//! representation cannot hold; this engine works on exact fixed-point
//! values, so a coordinate field must spell such a value out, and a
//! row or feature that does not is dropped and counted like any other
//! malformed record.

use vstd::prelude::*;
use vstd::arithmetic::mul::lemma_mul_nonnegative;
use vstd::string::StrSliceExecFns;
use crate::geometry::COORD_LIMIT;

verus! {

/// The character is a decimal digit.
pub open spec fn is_digit(c: char) -> bool {
    48 <= c as u32 <= 57
}

/// The numeric value of a decimal digit.
pub open spec fn digit_val(c: char) -> int {
    c as u32 - 48
}

/// Every character of the run is a decimal digit.
pub open spec fn all_digits(s: Seq<char>) -> bool {
    forall|i: int| 0 <= i < s.len() ==> is_digit(#[trigger] s[i])
}

/// The value of a digit run read in base ten.
pub open spec fn digits_val(s: Seq<char>) -> int
    decreases s.len(),
{
    if s.len() == 0 {
        0
    } else {
        digits_val(s.drop_last()) * 10 + digit_val(s.last())
    }
}

/// Ten to the `n`th power.
pub open spec fn pow10(n: nat) -> int
    decreases n,
{
    if n == 0 {
        1
    } else {
        10 * pow10((n - 1) as nat)
    }
}

/// Index of the first decimal point at or after `i`, or the length.
pub open spec fn first_dot(s: Seq<char>, i: int) -> int
    decreases s.len() - i,
{
    if i < 0 || i >= s.len() {
        s.len() as int
    } else if s[i] as u32 == 46 {
        i
    } else {
        first_dot(s, i + 1)
    }
}

/// The fixed-point value of a decimal text, if it is well formed and
/// within the engine's coordinate range.
pub open spec fn fixed_of(s: Seq<char>) -> Option<i64> {
    let neg = s.len() > 0 && s[0] as u32 == 45;
    let body = if neg {
        s.skip(1)
    } else {
        s
    };
    let d = first_dot(body, 0);
    let int_part = body.take(d);
    let frac = if d < body.len() {
        body.skip(d + 1)
    } else {
        Seq::<char>::empty()
    };
    let shaped = int_part.len() >= 1 && all_digits(int_part) && (d == body.len() || (1 <= frac.len()
        <= 6 && all_digits(frac)));
    let magnitude = digits_val(int_part) * 1_000_000 + digits_val(frac) * pow10(
        (6 - frac.len()) as nat,
    );
    if shaped && magnitude <= COORD_LIMIT {
        if neg {
            Some((-magnitude) as i64)
        } else {
            Some(magnitude as i64)
        }
    } else {
        None
    }
}

/// A run of digits is worth at least zero.
proof fn lemma_digits_val_nonneg(s: Seq<char>)
    requires
        all_digits(s),
    ensures
        digits_val(s) >= 0,
    decreases s.len(),
{
    if s.len() > 0 {
        assert(all_digits(s.drop_last()));
        lemma_digits_val_nonneg(s.drop_last());
    }
}

/// Reading more digits never shrinks the value.
proof fn lemma_digits_val_prefix(s: Seq<char>, k: int)
    requires
        all_digits(s),
        0 <= k <= s.len(),
    ensures
        digits_val(s.take(k)) <= digits_val(s),
    decreases s.len() - k,
{
    if k < s.len() {
        lemma_digits_val_prefix(s, k + 1);
        assert(s.take(k + 1).drop_last() =~= s.take(k));
        assert(all_digits(s.take(k)));
        lemma_digits_val_nonneg(s.take(k));
    } else {
        assert(s.take(k) =~= s);
    }
}

/// A run of `n` digits is worth less than ten to the `n`th power.
proof fn lemma_digits_val_bound(s: Seq<char>)
    requires
        all_digits(s),
    ensures
        digits_val(s) < pow10(s.len()),
    decreases s.len(),
{
    if s.len() > 0 {
        assert(all_digits(s.drop_last()));
        lemma_digits_val_bound(s.drop_last());
    }
}

/// The first-dot scan lands on the first decimal point: if nothing up
/// to `m` is a dot and `m` is a dot or the end, the scan from `i`
/// yields `m`.
proof fn lemma_first_dot_at(s: Seq<char>, i: int, m: int)
    requires
        0 <= i <= m <= s.len(),
        forall|k: int| i <= k < m ==> (#[trigger] s[k]) as u32 != 46,
        m == s.len() || s[m] as u32 == 46,
    ensures
        first_dot(s, i) == m,
    decreases m - i,
{
    if i < m {
        lemma_first_dot_at(s, i + 1, m);
    }
}

/// Ten to a non-negative power is positive.
proof fn lemma_pow10_pos(n: nat)
    ensures
        pow10(n) >= 1,
    decreases n,
{
    if n > 0 {
        lemma_pow10_pos((n - 1) as nat);
    }
}

/// Reads the digit run `s[from..to]` into an accumulator, refusing
/// values beyond the coordinate range; `None` means some digit run
/// with this prefix is out of range.
fn read_digits(s: &str, from: usize, to: usize) -> (r: Option<i64>)
    requires
        from <= to <= s@.len(),
        all_digits(s@.subrange(from as int, to as int)),
    ensures
        match r {
            Some(v) => v == digits_val(s@.subrange(from as int, to as int)) && 0 <= v
                <= COORD_LIMIT,
            None => digits_val(s@.subrange(from as int, to as int)) > COORD_LIMIT,
        },
{
    let ghost whole = s@.subrange(from as int, to as int);
    let mut acc: i64 = 0;
    let mut i: usize = from;
    while i < to
        invariant
            from <= i <= to <= s@.len(),
            all_digits(whole),
            whole == s@.subrange(from as int, to as int),
            acc == digits_val(whole.take(i - from)),
            0 <= acc <= COORD_LIMIT,
        decreases to - i,
    {
        let c = s.get_char(i);
        proof {
            assert(whole[i - from] == s@[i as int]);
            assert(is_digit(c));
        }
        let d = (c as u32) - 48;
        let wide: i128 = acc as i128 * 10 + d as i128;
        proof {
            assert(whole.take(i - from + 1).drop_last() =~= whole.take(i - from));
            assert(whole.take(i - from + 1).last() == whole[i - from]);
        }
        if wide > COORD_LIMIT as i128 {
            proof {
                lemma_digits_val_prefix(whole, i - from + 1);
            }
            return None;
        }
        acc = wide as i64;
        i = i + 1;
    }
    proof {
        assert(whole.take(to - from) =~= whole);
    }
    Some(acc)
}

/// Checks that `s[from..to]` consists of decimal digits only.
fn check_digits(s: &str, from: usize, to: usize) -> (r: bool)
    requires
        from <= to <= s@.len(),
    ensures
        r == all_digits(s@.subrange(from as int, to as int)),
{
    let ghost whole = s@.subrange(from as int, to as int);
    let mut i: usize = from;
    while i < to
        invariant
            from <= i <= to <= s@.len(),
            whole == s@.subrange(from as int, to as int),
            forall|k: int| 0 <= k < i - from ==> is_digit(#[trigger] whole[k]),
        decreases to - i,
    {
        let c = s.get_char(i);
        proof {
            assert(whole[i - from] == s@[i as int]);
        }
        let v = c as u32;
        if v < 48 || v > 57 {
            proof {
                assert(!is_digit(whole[i - from]));
            }
            return false;
        }
        i = i + 1;
    }
    true
}

/// Parses a decimal text into a fixed-point coordinate value:
/// `COORD_SCALE` steps per map unit, up to six fraction digits, the
/// whole value within the engine's coordinate range.
pub fn parse_fixed(s: &str) -> (r: Option<i64>)
    ensures
        r == fixed_of(s@),
{
    let n = s.unicode_len();
    let mut start: usize = 0;
    if n > 0 && s.get_char(0) as u32 == 45 {
        start = 1;
    }
    let ghost body = if start == 1 {
        s@.skip(1)
    } else {
        s@
    };
    // find the decimal point
    let mut dot: usize = start;
    while dot < n && s.get_char(dot) as u32 != 46
        invariant
            start <= dot <= n,
            n == s@.len(),
            forall|k: int| start <= k < dot ==> (#[trigger] s@[k]) as u32 != 46,
        decreases n - dot,
    {
        dot = dot + 1;
    }
    proof {
        assert forall|k: int| 0 <= k < dot - start implies (#[trigger] body[k]) as u32 != 46 by {
            assert(body[k] == s@[k + start]);
        }
        lemma_first_dot_at(body, 0, dot - start);
    }
    if dot == start {
        // empty integer part
        return None;
    }
    if !check_digits(s, start, dot) {
        proof {
            assert(body.take(dot - start) =~= s@.subrange(start as int, dot as int));
        }
        return None;
    }
    proof {
        assert(body.take(dot - start) =~= s@.subrange(start as int, dot as int));
    }
    let int_val = match read_digits(s, start, dot) {
        Some(v) => v,
        None => {
            proof {
                let d = dot - start;
                let frac = if d < body.len() {
                    body.skip(d + 1)
                } else {
                    Seq::<char>::empty()
                };
                if fixed_of(s@) is Some {
                    lemma_digits_val_nonneg(frac);
                    lemma_pow10_pos((6 - frac.len()) as nat);
                    lemma_mul_nonnegative(digits_val(frac), pow10((6 - frac.len()) as nat));
                }
            }
            return None;
        },
    };
    let mut frac_val: i64 = 0;
    let mut scale: i64 = 1_000_000;
    if dot < n {
        let flen = n - dot - 1;
        if flen < 1 || flen > 6 {
            return None;
        }
        if !check_digits(s, dot + 1, n) {
            proof {
                assert(body.skip(dot - start + 1) =~= s@.subrange(dot + 1 as int, n as int));
            }
            return None;
        }
        proof {
            assert(body.skip(dot - start + 1) =~= s@.subrange(dot + 1 as int, n as int));
        }
        frac_val = match read_digits(s, dot + 1, n) {
            Some(v) => v,
            None => {
                proof {
                    let frac = body.skip(dot - start + 1);
                    lemma_digits_val_bound(frac);
                    lemma_pow10_small(frac.len() as nat);
                    assert(false);
                }
                return None;
            },
        };
        scale = if flen == 1 {
            100_000
        } else if flen == 2 {
            10_000
        } else if flen == 3 {
            1_000
        } else if flen == 4 {
            100
        } else if flen == 5 {
            10
        } else {
            1
        };
        proof {
            lemma_pow10_small((6 - flen) as nat);
        }
    }
    proof {
        crate::geometry::lemma_mul_bounds(int_val as int, 1_000_000, COORD_LIMIT as int);
        crate::geometry::lemma_mul_bounds(frac_val as int, scale as int, COORD_LIMIT as int);
    }
    let magnitude: i128 = int_val as i128 * 1_000_000 + frac_val as i128 * scale as i128;
    proof {
        let ghost frac = if dot < n {
            body.skip(dot - start + 1)
        } else {
            Seq::<char>::empty()
        };
        lemma_digits_val_nonneg(body.take(dot - start));
        if dot < n {
            lemma_digits_val_nonneg(frac);
        }
        assert(magnitude == digits_val(body.take(dot - start)) * 1_000_000 + digits_val(frac)
            * pow10((6 - frac.len()) as nat));
    }
    if magnitude > COORD_LIMIT as i128 {
        return None;
    }
    if start == 1 {
        Some(-(magnitude as i64))
    } else {
        Some(magnitude as i64)
    }
}

/// A parsed fixed-point value lies within the coordinate range.
pub proof fn lemma_fixed_of_range(s: Seq<char>)
    ensures
        fixed_of(s) matches Some(v) ==> -COORD_LIMIT <= v <= COORD_LIMIT,
{
    if fixed_of(s) is Some {
        let neg = s.len() > 0 && s[0] as u32 == 45;
        let body = if neg {
            s.skip(1)
        } else {
            s
        };
        let d = first_dot(body, 0);
        let int_part = body.take(d);
        let frac = if d < body.len() {
            body.skip(d + 1)
        } else {
            Seq::<char>::empty()
        };
        lemma_digits_val_nonneg(int_part);
        lemma_digits_val_nonneg(frac);
        lemma_pow10_pos((6 - frac.len()) as nat);
        lemma_mul_nonnegative(digits_val(frac), pow10((6 - frac.len()) as nat));
    }
}

/// Concrete powers of ten used by the parser.
proof fn lemma_pow10_small(n: nat)
    requires
        n <= 6,
    ensures
        pow10(n) == if n == 0 {
            1int
        } else if n == 1 {
            10
        } else if n == 2 {
            100
        } else if n == 3 {
            1_000
        } else if n == 4 {
            10_000
        } else if n == 5 {
            100_000
        } else {
            1_000_000
        },
{
    assert(pow10(0) == 1);
    assert(pow10(1) == 10);
    assert(pow10(2) == 100);
    assert(pow10(3) == 1000);
    assert(pow10(4) == 10000);
    assert(pow10(5) == 100000);
    assert(pow10(6) == 1000000);
}

} // verus!
