//! The quantity typed in the ingredient dialog: accepted when it is blank (no
//! quantity) or reads as a positive number in the syntax that
//! `str::parse::<f64>` takes.

use vstd::prelude::*;
use crate::text::{trim, trim_seq};

verus! {

pub open spec fn is_digit_char(c: char) -> bool {
    '0' <= c && c <= '9'
}

pub open spec fn is_nonzero_digit(c: char) -> bool {
    '1' <= c && c <= '9'
}

/// `e` or `E`, which opens the exponent of a number.
pub open spec fn is_exp_mark(c: char) -> bool {
    c == 'e' || c == 'E'
}

/// The part of a number before its exponent: digits with at most one decimal
/// point, at least one of them not zero (so that the number is not zero).
pub open spec fn positive_mantissa(m: Seq<char>) -> bool {
    &&& forall|i: int| 0 <= i < m.len() ==> (is_digit_char(#[trigger] m[i]) || m[i] == '.')
    &&& forall|i: int, j: int| #![trigger m[i], m[j]] 0 <= i < j < m.len() && m[i] == '.' ==> m[j] != '.'
    &&& exists|i: int| 0 <= i < m.len() && is_nonzero_digit(#[trigger] m[i])
}

/// Nothing but decimal digits.
pub open spec fn all_digits(d: Seq<char>) -> bool {
    forall|i: int| 0 <= i < d.len() ==> is_digit_char(#[trigger] d[i])
}

/// An exponent without its sign, if it has one.
pub open spec fn unsigned_exponent(x: Seq<char>) -> Seq<char> {
    if x.len() > 0 && (x[0] == '+' || x[0] == '-') { x.drop_first() } else { x }
}

/// An exponent: an optional sign, then at least one digit.
pub open spec fn exponent_ok(x: Seq<char>) -> bool {
    unsigned_exponent(x).len() > 0 && all_digits(unsigned_exponent(x))
}

/// An unsigned decimal number that is not zero: a mantissa, then optionally
/// `e` or `E` and an exponent.
pub open spec fn positive_decimal(u: Seq<char>) -> bool {
    exists|k: int| 0 <= k <= u.len() && #[trigger] positive_mantissa(u.take(k))
        && (k == u.len() || (is_exp_mark(u[k]) && exponent_ok(u.skip(k + 1))))
}

/// `u` spells the word whose lower-case and upper-case letters are given,
/// each letter in either case.
pub open spec fn word_ci(u: Seq<char>, lower: Seq<char>, upper: Seq<char>) -> bool {
    &&& u.len() == lower.len()
    &&& forall|i: int| 0 <= i < u.len() ==> (#[trigger] u[i] == lower[i] || u[i] == upper[i])
}

/// `inf` or `infinity`, in any case.
pub open spec fn infinity_word(u: Seq<char>) -> bool {
    word_ci(u, "inf"@, "INF"@) || word_ci(u, "infinity"@, "INFINITY"@)
}

/// A typed quantity is accepted when, trimmed, it is empty (no quantity) or a
/// positive number as `str::parse::<f64>` reads one: an optional `+` (a `-`
/// makes it negative), then `inf` or `infinity` in any case, or a decimal
/// number with a non-zero digit and an optional exponent. So `0`, `0.0`,
/// `-1`, `nan` and `½` are refused; `200`, `1.5`, `.5`, `+2` and `1e2` are
/// accepted.
pub open spec fn quantity_ok(quantity: Seq<char>) -> bool {
    let t = trim_seq(quantity);
    ||| t.len() == 0
    ||| {
        let u = if t[0] == '+' { t.drop_first() } else { t };
        t[0] != '-' && (infinity_word(u) || positive_decimal(u))
    }
}

/// `"Quantity must be a positive number."`.
pub open spec fn quantity_error_text() -> Seq<char> {
    "Quantity must be a positive number."@
}

fn quantity_error() -> (r: String)
    ensures
        r@ == quantity_error_text(),
{
    let r = "Quantity must be a positive number.".to_owned();
    proof {
        reveal_strlit("Quantity must be a positive number.");
    }
    r
}

/// Whether `s[start..n]` spells the word, each letter in either case.
fn word_matches(s: &str, start: usize, n: usize, lower: &str, upper: &str) -> (r: bool)
    requires
        start <= n,
        n == s@.len(),
        lower@.len() == upper@.len(),
    ensures
        r == word_ci(s@.subrange(start as int, n as int), lower@, upper@),
{
    let ghost u = s@.subrange(start as int, n as int);
    let len = lower.unicode_len();
    if n - start != len {
        return false;
    }
    let mut i: usize = 0;
    while i < len
        invariant
            start <= n,
            n == s@.len(),
            len == lower@.len(),
            len == upper@.len(),
            n - start == len,
            u == s@.subrange(start as int, n as int),
            i <= len,
            forall|j: int| 0 <= j < i ==> (#[trigger] u[j] == lower@[j] || u[j] == upper@[j]),
        decreases len - i,
    {
        let c = s.get_char(start + i);
        proof {
            assert(u[i as int] == c);
        }
        if c != lower.get_char(i) && c != upper.get_char(i) {
            return false;
        }
        i = i + 1;
    }
    true
}

/// Whether `s[a..b]` is a mantissa with a non-zero digit.
fn mantissa_check(s: &str, a: usize, b: usize) -> (r: bool)
    requires
        a <= b <= s@.len(),
    ensures
        r == positive_mantissa(s@.subrange(a as int, b as int)),
{
    let ghost m = s@.subrange(a as int, b as int);
    let mut i: usize = a;
    let mut seen_dot = false;
    let mut nonzero = false;
    while i < b
        invariant
            a <= i <= b <= s@.len(),
            m == s@.subrange(a as int, b as int),
            forall|k: int| 0 <= k < i - a ==> (is_digit_char(#[trigger] m[k]) || m[k] == '.'),
            forall|p: int, q: int| #![trigger m[p], m[q]] 0 <= p < q < i - a && m[p] == '.' ==> m[q] != '.',
            seen_dot ==> exists|k: int| 0 <= k < i - a && #[trigger] m[k] == '.',
            !seen_dot ==> forall|k: int| 0 <= k < i - a ==> #[trigger] m[k] != '.',
            nonzero ==> exists|k: int| 0 <= k < i - a && is_nonzero_digit(#[trigger] m[k]),
            !nonzero ==> forall|k: int| 0 <= k < i - a ==> !is_nonzero_digit(#[trigger] m[k]),
        decreases b - i,
    {
        let c = s.get_char(i);
        proof {
            assert(m[i - a] == c);
        }
        if c == '.' {
            if seen_dot {
                proof {
                    let k = choose|k: int| 0 <= k < i - a && #[trigger] m[k] == '.';
                    assert(m[k] == '.' && m[i - a] == '.');
                }
                return false;
            }
            seen_dot = true;
        } else if '0' <= c && c <= '9' {
            if c != '0' {
                nonzero = true;
            }
        } else {
            proof {
                assert(!(is_digit_char(m[i - a]) || m[i - a] == '.'));
            }
            return false;
        }
        i = i + 1;
    }
    nonzero
}

/// Whether `s[a..n]` is an exponent.
fn exponent_check(s: &str, a: usize, n: usize) -> (r: bool)
    requires
        a <= n == s@.len(),
    ensures
        r == exponent_ok(s@.subrange(a as int, n as int)),
{
    let ghost x = s@.subrange(a as int, n as int);
    if a == n {
        return false;
    }
    let c = s.get_char(a);
    let start: usize = if c == '+' || c == '-' { a + 1 } else { a };
    let ghost d = s@.subrange(start as int, n as int);
    proof {
        assert(x[0] == c);
        if c == '+' || c == '-' {
            assert(x.drop_first() =~= d);
        } else {
            assert(x =~= d);
        }
    }
    if start == n {
        return false;
    }
    let mut i: usize = start;
    while i < n
        invariant
            a <= start <= i <= n == s@.len(),
            d == s@.subrange(start as int, n as int),
            x == s@.subrange(a as int, n as int),
            d == unsigned_exponent(x),
            forall|k: int| 0 <= k < i - start ==> is_digit_char(#[trigger] d[k]),
        decreases n - i,
    {
        let c = s.get_char(i);
        proof {
            assert(d[i - start] == c);
        }
        if !('0' <= c && c <= '9') {
            proof {
                assert(!is_digit_char(d[i - start]));
                assert(d.len() == n - start);
            }
            return false;
        }
        i = i + 1;
    }
    true
}

/// Whether `s[start..n]` is an unsigned decimal number that is not zero.
fn decimal_check(s: &str, start: usize, n: usize) -> (r: bool)
    requires
        start <= n == s@.len(),
    ensures
        r == positive_decimal(s@.subrange(start as int, n as int)),
{
    let ghost u = s@.subrange(start as int, n as int);
    let mut k: usize = start;
    while k < n && !(s.get_char(k) == 'e' || s.get_char(k) == 'E')
        invariant
            start <= k <= n == s@.len(),
            forall|j: int| start <= j < k ==> !is_exp_mark(#[trigger] s@[j]),
        decreases n - k,
    {
        k = k + 1;
    }
    let m_ok = mantissa_check(s, start, k);
    let e_ok = if k < n { exponent_check(s, k + 1, n) } else { true };
    let ghost kk = k - start;
    proof {
        assert(u.take(kk) =~= s@.subrange(start as int, k as int));
        if k < n {
            assert(u.skip(kk + 1) =~= s@.subrange(k + 1, n as int));
            assert(u[kk] == s@[k as int]);
        }
        if m_ok && e_ok {
            assert(positive_mantissa(u.take(kk)));
        } else {
            assert forall|k2: int| 0 <= k2 <= u.len() && #[trigger] positive_mantissa(u.take(k2))
                implies !(k2 == u.len() || (is_exp_mark(u[k2]) && exponent_ok(u.skip(k2 + 1)))) by {
                if k2 < kk {
                    assert(u[k2] == s@[start + k2]);
                    assert(!is_exp_mark(s@[start + k2]));
                } else if k2 > kk {
                    assert(u.take(k2)[kk] == u[kk]);
                    assert(u[kk] == s@[k as int]);
                    assert(is_exp_mark(s@[k as int]));
                    assert(!(is_digit_char(u.take(k2)[kk]) || u.take(k2)[kk] == '.'));
                }
            }
        }
    }
    m_ok && e_ok
}

/// Check the quantity typed in the ingredient dialog: accepted, or the
/// message shown under the field.
pub fn quantity_check(quantity: &str) -> (r: Result<(), String>)
    ensures
        r is Ok <==> quantity_ok(quantity@),
        r matches Err(m) ==> m@ == quantity_error_text(),
{
    let t = trim(quantity);
    let s = t.as_str();
    let n = s.unicode_len();
    if n == 0 {
        return Ok(());
    }
    let c0 = s.get_char(0);
    if c0 == '-' {
        return Err(quantity_error());
    }
    let start: usize = if c0 == '+' { 1 } else { 0 };
    proof {
        let tq = trim_seq(quantity@);
        if c0 == '+' {
            assert(tq.drop_first() =~= s@.subrange(1, n as int));
        } else {
            assert(tq =~= s@.subrange(0, n as int));
        }
        reveal_strlit("inf");
        reveal_strlit("INF");
        reveal_strlit("infinity");
        reveal_strlit("INFINITY");
    }
    if word_matches(s, start, n, "inf", "INF") || word_matches(s, start, n, "infinity", "INFINITY")
        || decimal_check(s, start, n) {
        Ok(())
    } else {
        Err(quantity_error())
    }
}

} // verus!
