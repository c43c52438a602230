//! The crate's numeric model and the shared numeric grammar.
//!
//! Chart values are held in thousandths (`i64`): the literal `8.5` becomes
//! `8500`. Fractional digits beyond the third are dropped, and integer parts
//! saturate at [`MAX_UNITS`] whole units, so every value this crate computes
//! with fits comfortably in `i64`.

use vstd::prelude::*;
use crate::text::{is_digit, digits_end, digit_exec, skip_digits, lemma_scan_while};

verus! {

/// Largest whole-unit magnitude a parsed value may take.
pub const MAX_UNITS: i64 = 1_000_000_000_000;

/// Largest magnitude, in thousandths, of any parsed value.
pub const MAX_MILLI: i64 = 1_000_000_000_000_999;

/// Numeric value of a digit character.
pub open spec fn digit_val(c: char) -> int {
    c as u32 - 48
}

/// Value of a run of decimal digits.
pub open spec fn digits_val(s: Seq<char>) -> int
    decreases s.len(),
{
    if s.len() == 0 {
        0
    } else {
        digits_val(s.drop_last()) * 10 + digit_val(s.last())
    }
}

/// `digits_val`, saturated at `MAX_UNITS`.
pub open spec fn digits_val_sat(s: Seq<char>) -> int {
    if digits_val(s) <= MAX_UNITS {
        digits_val(s)
    } else {
        MAX_UNITS as int
    }
}

pub proof fn lemma_digits_val_nonneg(s: Seq<char>)
    requires
        forall|k: int| 0 <= k < s.len() ==> is_digit(s[k]),
    ensures
        digits_val(s) >= 0,
    decreases s.len(),
{
    if s.len() > 0 {
        lemma_digits_val_nonneg(s.drop_last());
    }
}

/// Read a digit run starting at `i`: returns its end and its value,
/// saturated at `MAX_UNITS`.
pub fn parse_digits(s: &Vec<char>, i: usize) -> (r: (usize, u64))
    requires
        i <= s.len(),
    ensures
        r.0 as int == digits_end(s@, i as int),
        i <= r.0 <= s.len(),
        r.1 as int == digits_val_sat(s@.subrange(i as int, r.0 as int)),
{
    let mut j = i;
    let mut acc: u64 = 0;
    proof {
        assert(s@.subrange(i as int, i as int) =~= Seq::<char>::empty());
    }
    while j < s.len() && digit_exec(s[j])
        invariant
            i <= j <= s.len(),
            digits_end(s@, i as int) == digits_end(s@, j as int),
            acc as int == digits_val_sat(s@.subrange(i as int, j as int)),
            forall|k: int| i <= k < j ==> is_digit(s@[k]),
        decreases s.len() - j,
    {
        let ghost prev = s@.subrange(i as int, j as int);
        let ghost cur = s@.subrange(i as int, j + 1);
        proof {
            assert(cur.drop_last() =~= prev);
            assert(cur.last() == s@[j as int]);
            lemma_digits_val_nonneg(prev);
        }
        let d: u64 = (s[j] as u32 - 48) as u64;
        let grown: u64 = acc * 10 + d;
        if grown > 1_000_000_000_000u64 {
            acc = 1_000_000_000_000u64;
        } else {
            acc = grown;
        }
        j = j + 1;
    }
    proof {
        lemma_scan_while(s@, j as int, |c: char| is_digit(c));
    }
    (j, acc)
}

/// Fraction digits as thousandths: the first three digits after the point,
/// padded with zeros on the right; anything further is dropped.
pub open spec fn frac_milli(s: Seq<char>) -> int {
    if s.len() >= 3 {
        digit_val(s[0]) * 100 + digit_val(s[1]) * 10 + digit_val(s[2])
    } else if s.len() == 2 {
        digit_val(s[0]) * 100 + digit_val(s[1]) * 10
    } else if s.len() == 1 {
        digit_val(s[0]) * 100
    } else {
        0
    }
}

/// Where the `number` token starting at `i` ends, if one is there:
/// an optional `-`, a digit run, and optionally `.` plus another digit run.
pub open spec fn number_end(s: Seq<char>, i: int) -> Option<int> {
    let d0: int = if i < s.len() && s[i] == '-' {
        i + 1
    } else {
        i
    };
    if d0 < s.len() && is_digit(s[d0]) {
        let de = digits_end(s, d0);
        if de + 1 < s.len() && s[de] == '.' && is_digit(s[de + 1]) {
            Option::Some(digits_end(s, de + 1))
        } else {
            Option::Some(de)
        }
    } else {
        Option::None
    }
}

/// Value, in thousandths, of the `number` token starting at `i`.
/// Meaningful only when `number_end(s, i)` is `Some`.
pub open spec fn number_milli(s: Seq<char>, i: int) -> int {
    let neg = i < s.len() && s[i] == '-';
    let d0: int = if neg {
        i + 1
    } else {
        i
    };
    let de = digits_end(s, d0);
    let units = digits_val_sat(s.subrange(d0, de));
    let frac: int = if de + 1 < s.len() && s[de] == '.' && is_digit(s[de + 1]) {
        frac_milli(s.subrange(de + 1, digits_end(s, de + 1)))
    } else {
        0
    };
    if neg {
        -(units * 1000 + frac)
    } else {
        units * 1000 + frac
    }
}

pub proof fn lemma_number_end_bounds(s: Seq<char>, i: int)
    requires
        0 <= i <= s.len(),
        number_end(s, i) is Some,
    ensures
        i < number_end(s, i)->0 <= s.len(),
{
    let d0: int = if i < s.len() && s[i] == '-' {
        i + 1
    } else {
        i
    };
    crate::text::lemma_digits_end(s, d0);
    let de = digits_end(s, d0);
    if de + 1 < s.len() && s[de] == '.' && is_digit(s[de + 1]) {
        crate::text::lemma_digits_end(s, de + 1);
    }
    assert(digits_end(s, d0) > d0) by {
        assert(is_digit(s[d0]));
    }
}

/// Parse the shared `number` token: optional leading `-`, digits, optionally
/// `.` and further digits. Returns the first unconsumed position and the
/// value in thousandths.
pub fn number(s: &Vec<char>, i: usize) -> (r: Option<(usize, i64)>)
    requires
        i <= s.len(),
    ensures
        r is Some <==> number_end(s@, i as int) is Some,
        r matches Option::Some(p) ==> {
            &&& p.0 as int == number_end(s@, i as int)->0
            &&& i <= p.0 <= s.len()
            &&& p.1 as int == number_milli(s@, i as int)
            &&& -MAX_MILLI <= p.1 <= MAX_MILLI
        },
{
    let neg = i < s.len() && s[i] == '-';
    let d0 = if neg {
        i + 1
    } else {
        i
    };
    if !(d0 < s.len() && digit_exec(s[d0])) {
        return Option::None;
    }
    let (de, units) = parse_digits(s, d0);
    proof {
        lemma_scan_while(s@, d0 as int, |c: char| is_digit(c));
        lemma_digits_val_nonneg(s@.subrange(d0 as int, de as int));
    }
    let mut end = de;
    let mut frac: u64 = 0;
    if de < s.len() && s[de] == '.' && de + 1 < s.len() && digit_exec(s[de + 1]) {
        let f0 = de + 1;
        let fe = skip_digits(s, f0);
        proof {
            lemma_scan_while(s@, f0 as int, |c: char| is_digit(c));
        }
        let ghost fdigits = s@.subrange(f0 as int, fe as int);
        let d1: u64 = (s[f0] as u32 - 48) as u64;
        let d2: u64 = if f0 + 1 < fe {
            (s[f0 + 1] as u32 - 48) as u64
        } else {
            0
        };
        let d3: u64 = if f0 + 1 < fe && f0 + 2 < fe {
            (s[f0 + 2] as u32 - 48) as u64
        } else {
            0
        };
        proof {
            assert(fdigits.len() >= 1 && fdigits[0] == s@[f0 as int]);
            if f0 + 1 < fe {
                assert(fdigits[1] == s@[f0 + 1]);
            }
            if f0 + 2 < fe {
                assert(fdigits[2] == s@[f0 + 2]);
            }
        }
        frac = d1 * 100 + d2 * 10 + d3;
        end = fe;
    }
    let magnitude: i64 = (units as i64) * 1000 + (frac as i64);
    if neg {
        Option::Some((end, -magnitude))
    } else {
        Option::Some((end, magnitude))
    }
}

/// The character for a single decimal digit.
pub open spec fn digit_char(d: int) -> char {
    if d == 0 {
        '0'
    } else if d == 1 {
        '1'
    } else if d == 2 {
        '2'
    } else if d == 3 {
        '3'
    } else if d == 4 {
        '4'
    } else if d == 5 {
        '5'
    } else if d == 6 {
        '6'
    } else if d == 7 {
        '7'
    } else if d == 8 {
        '8'
    } else {
        '9'
    }
}

fn digit_char_exec(d: u64) -> (c: char)
    requires
        d < 10,
    ensures
        c == digit_char(d as int),
{
    if d == 0 {
        '0'
    } else if d == 1 {
        '1'
    } else if d == 2 {
        '2'
    } else if d == 3 {
        '3'
    } else if d == 4 {
        '4'
    } else if d == 5 {
        '5'
    } else if d == 6 {
        '6'
    } else if d == 7 {
        '7'
    } else if d == 8 {
        '8'
    } else {
        '9'
    }
}

/// Decimal text of a non-negative number.
pub open spec fn dec_chars(n: nat) -> Seq<char>
    decreases n,
{
    if n < 10 {
        seq![digit_char(n as int)]
    } else {
        dec_chars(n / 10).push(digit_char((n % 10) as int))
    }
}

/// Decimal text of `n`.
pub fn u64_chars(n: u64) -> (v: Vec<char>)
    ensures
        v@ == dec_chars(n as nat),
    decreases n,
{
    if n < 10 {
        let mut v: Vec<char> = Vec::new();
        v.push(digit_char_exec(n));
        proof {
            assert(v@ =~= dec_chars(n as nat));
        }
        v
    } else {
        let mut v = u64_chars(n / 10);
        v.push(digit_char_exec(n % 10));
        v
    }
}

/// Decimal text of a value held in thousandths: the whole part, then a
/// fractional part only when it is non-zero, with trailing zeros dropped.
pub open spec fn milli_chars(m: int) -> Seq<char> {
    let a = if m < 0 {
        -m
    } else {
        m
    };
    let sign: Seq<char> = if m < 0 {
        seq!['-']
    } else {
        Seq::empty()
    };
    sign + dec_chars((a / 1000) as nat) + frac_chars(a % 1000)
}

/// Fractional text of a remainder in thousandths: empty when zero, else a
/// point and one to three digits with trailing zeros dropped.
pub open spec fn frac_chars(f: int) -> Seq<char> {
    let d1 = f / 100;
    let d2 = (f / 10) % 10;
    let d3 = f % 10;
    if f == 0 {
        Seq::empty()
    } else if d3 != 0 {
        seq!['.', digit_char(d1), digit_char(d2), digit_char(d3)]
    } else if d2 != 0 {
        seq!['.', digit_char(d1), digit_char(d2)]
    } else {
        seq!['.', digit_char(d1)]
    }
}

/// Decimal text of a value in thousandths.
pub fn milli_to_chars(m: i64) -> (v: Vec<char>)
    requires
        -MAX_MILLI <= m <= MAX_MILLI,
    ensures
        v@ == milli_chars(m as int),
{
    let mut v: Vec<char> = Vec::new();
    let a: i64 = if m < 0 {
        v.push('-');
        -m
    } else {
        m
    };
    let mut whole = u64_chars((a / 1000) as u64);
    v.append(&mut whole);
    let f: i64 = a % 1000;
    if f != 0 {
        v.push('.');
        let d1: u64 = (f / 100) as u64;
        let d2: u64 = ((f / 10) % 10) as u64;
        let d3: u64 = (f % 10) as u64;
        v.push(digit_char_exec(d1));
        if d3 != 0 {
            v.push(digit_char_exec(d2));
            v.push(digit_char_exec(d3));
        } else if d2 != 0 {
            v.push(digit_char_exec(d2));
        }
    }
    proof {
        assert(v@ =~= milli_chars(m as int));
    }
    v
}

/// Decimal text of a value in thousandths, as a string.
pub fn milli_to_string(m: i64) -> (r: String)
    requires
        -MAX_MILLI <= m <= MAX_MILLI,
    ensures
        r@ == milli_chars(m as int),
{
    let v = milli_to_chars(m);
    crate::text::string_from_chars(&v)
}

/// Decimal text of `n`, as a string.
pub fn u64_to_string(n: u64) -> (r: String)
    ensures
        r@ == dec_chars(n as nat),
{
    let v = u64_chars(n);
    crate::text::string_from_chars(&v)
}

} // verus!
