//! Recognition of numeric value literals: the grammar of floating-point
//! literals that the standard library's string-to-float conversion
//! accepts (an optional sign, then an infinity or not-a-number word in
//! any case, or a decimal mantissa with an optional exponent).

use vstd::prelude::*;

verus! {

/// An ASCII decimal digit.
pub open spec fn is_digit(c: char) -> bool {
    '0' <= c && c <= '9'
}

/// The length of the run of digits starting at `i`.
pub open spec fn digit_run(s: Seq<char>, i: int) -> int
    decreases s.len() - i,
{
    if i < 0 || i >= s.len() || !is_digit(s[i]) {
        0
    } else {
        1 + digit_run(s, i + 1)
    }
}

/// If exactly `m` digits follow position `p`, the digit run there is `m`.
pub proof fn lemma_digit_run_eq(s: Seq<char>, p: int, m: int)
    requires
        0 <= p,
        0 <= m,
        p + m <= s.len(),
        forall|k: int| p <= k < p + m ==> is_digit(s[k]),
        p + m == s.len() || !is_digit(s[p + m]),
    ensures
        digit_run(s, p) == m,
    decreases m,
{
    if m > 0 {
        lemma_digit_run_eq(s, p + 1, m - 1);
    }
}

/// One leading sign character, if any, is skipped.
pub open spec fn sign_off(s: Seq<char>) -> int {
    if s.len() >= 1 && (s[0] == '+' || s[0] == '-') {
        1
    } else {
        0
    }
}

/// The word `inf` in any case, filling the rest of the literal.
pub open spec fn is_inf_at(s: Seq<char>, i: int) -> bool {
    &&& s.len() - i == 3
    &&& (s[i] == 'i' || s[i] == 'I')
    &&& (s[i + 1] == 'n' || s[i + 1] == 'N')
    &&& (s[i + 2] == 'f' || s[i + 2] == 'F')
}

/// The word `infinity` in any case, filling the rest of the literal.
pub open spec fn is_infinity_at(s: Seq<char>, i: int) -> bool {
    &&& s.len() - i == 8
    &&& (s[i] == 'i' || s[i] == 'I')
    &&& (s[i + 1] == 'n' || s[i + 1] == 'N')
    &&& (s[i + 2] == 'f' || s[i + 2] == 'F')
    &&& (s[i + 3] == 'i' || s[i + 3] == 'I')
    &&& (s[i + 4] == 'n' || s[i + 4] == 'N')
    &&& (s[i + 5] == 'i' || s[i + 5] == 'I')
    &&& (s[i + 6] == 't' || s[i + 6] == 'T')
    &&& (s[i + 7] == 'y' || s[i + 7] == 'Y')
}

/// The word `nan` in any case, filling the rest of the literal.
pub open spec fn is_nan_at(s: Seq<char>, i: int) -> bool {
    &&& s.len() - i == 3
    &&& (s[i] == 'n' || s[i] == 'N')
    &&& (s[i + 1] == 'a' || s[i + 1] == 'A')
    &&& (s[i + 2] == 'n' || s[i + 2] == 'N')
}

/// An exponent part filling the rest of the literal: `e` or `E`, an
/// optional sign, and at least one digit.
pub open spec fn is_exp_from(s: Seq<char>, k: int) -> bool {
    &&& k < s.len()
    &&& (s[k] == 'e' || s[k] == 'E')
    &&& {
        let k2 = if k + 1 < s.len() && (s[k + 1] == '+' || s[k + 1] == '-') {
            k + 2
        } else {
            k + 1
        };
        let c = digit_run(s, k2);
        c > 0 && k2 + c == s.len()
    }
}

/// A decimal mantissa starting at `i` and filling the rest of the
/// literal: digits, an optional point with further digits, at least one
/// digit in all, and an optional exponent.
pub open spec fn is_decimal_from(s: Seq<char>, i: int) -> bool {
    let a = digit_run(s, i);
    if i + a == s.len() {
        a > 0
    } else if s[i + a] == '.' {
        let b = digit_run(s, i + a + 1);
        a + b > 0 && (i + a + 1 + b == s.len() || is_exp_from(s, i + a + 1 + b))
    } else {
        a > 0 && is_exp_from(s, i + a)
    }
}

/// Whether a literal is a valid floating-point number: an optional sign,
/// then an infinity or not-a-number word, or a decimal mantissa with an
/// optional exponent.
pub open spec fn is_numeric(s: Seq<char>) -> bool {
    let i = sign_off(s);
    ||| is_inf_at(s, i)
    ||| is_infinity_at(s, i)
    ||| is_nan_at(s, i)
    ||| is_decimal_from(s, i)
}

/// Scan the run of digits starting at `from` and return the position
/// just past it.
fn scan_digits(s: &str, from: usize) -> (e: usize)
    requires
        from <= s@.len(),
    ensures
        from <= e <= s@.len(),
        e - from == digit_run(s@, from as int),
{
    let len: usize = s.unicode_len();
    let mut e: usize = from;
    while e < len && s.get_char(e) >= '0' && s.get_char(e) <= '9'
        invariant
            from <= e <= len,
            len == s@.len(),
            forall|k: int| from <= k < e ==> is_digit(s@[k]),
        decreases len - e,
    {
        e += 1;
    }
    proof {
        lemma_digit_run_eq(s@, from as int, e - from);
    }
    e
}

/// Check an exponent part filling the rest of the literal from `k` on.
fn exp_check(s: &str, k: usize) -> (b: bool)
    requires
        k <= s@.len(),
    ensures
        b == is_exp_from(s@, k as int),
{
    let len: usize = s.unicode_len();
    if k >= len {
        return false;
    }
    let c = s.get_char(k);
    if !(c == 'e' || c == 'E') {
        return false;
    }
    let k2: usize = if k + 1 < len {
        let c1 = s.get_char(k + 1);
        if c1 == '+' || c1 == '-' {
            k + 2
        } else {
            k + 1
        }
    } else {
        k + 1
    };
    let e = scan_digits(s, k2);
    e > k2 && e == len
}

/// Decide whether a value literal is a valid floating-point number.
pub fn is_numeric_str(s: &str) -> (b: bool)
    ensures
        b == is_numeric(s@),
{
    let len: usize = s.unicode_len();
    let mut i: usize = 0;
    if len >= 1 {
        let c0 = s.get_char(0);
        if c0 == '+' || c0 == '-' {
            i = 1;
        }
    }
    assert(i == sign_off(s@));
    let rem = len - i;
    let mut word: bool = false;
    if rem == 3 {
        let c0 = s.get_char(i);
        let c1 = s.get_char(i + 1);
        let c2 = s.get_char(i + 2);
        word = ((c0 == 'i' || c0 == 'I') && (c1 == 'n' || c1 == 'N') && (c2 == 'f' || c2
            == 'F')) || ((c0 == 'n' || c0 == 'N') && (c1 == 'a' || c1 == 'A') && (c2 == 'n'
            || c2 == 'N'));
    } else if rem == 8 {
        let c0 = s.get_char(i);
        let c1 = s.get_char(i + 1);
        let c2 = s.get_char(i + 2);
        let c3 = s.get_char(i + 3);
        let c4 = s.get_char(i + 4);
        let c5 = s.get_char(i + 5);
        let c6 = s.get_char(i + 6);
        let c7 = s.get_char(i + 7);
        word = (c0 == 'i' || c0 == 'I') && (c1 == 'n' || c1 == 'N') && (c2 == 'f' || c2 == 'F')
            && (c3 == 'i' || c3 == 'I') && (c4 == 'n' || c4 == 'N') && (c5 == 'i' || c5 == 'I')
            && (c6 == 't' || c6 == 'T') && (c7 == 'y' || c7 == 'Y');
    }
    assert(word == (is_inf_at(s@, i as int) || is_infinity_at(s@, i as int) || is_nan_at(
        s@,
        i as int,
    )));
    if word {
        return true;
    }
    let a_end = scan_digits(s, i);
    if a_end == len {
        return a_end > i;
    }
    let c = s.get_char(a_end);
    if c == '.' {
        let b_end = scan_digits(s, a_end + 1);
        let m_ok = a_end > i || b_end > a_end + 1;
        if b_end == len {
            return m_ok;
        }
        m_ok && exp_check(s, b_end)
    } else {
        a_end > i && exp_check(s, a_end)
    }
}

} // verus!
