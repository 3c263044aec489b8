//! Syntax of decimal numeric text: an optional sign, a digit run with an
//! optional fractional part, and an optional exponent. Ratings are carried as
//! such text, so the coercer validates the syntax without ever computing a
//! numeric value.

use vstd::prelude::*;
use crate::text::{all_digits, is_digit, spec_digit_val};

verus! {

pub open spec fn sign_char(c: char) -> bool {
    c == '+' || c == '-'
}

/// A mantissa: a nonempty digit run, or a digit run with one point somewhere
/// in it and at least one digit beside the point.
pub open spec fn spec_mantissa_ok(m: Seq<char>) -> bool {
    ||| (m.len() > 0 && all_digits(m))
    ||| (exists|j: int|
        0 <= j < m.len() && m[j] == '.' && all_digits(m.take(j)) && all_digits(m.skip(j + 1))
            && m.len() > 1)
}

/// An exponent body: an optional sign followed by a nonempty digit run.
pub open spec fn spec_exp_ok(x: Seq<char>) -> bool {
    if x.len() > 0 && sign_char(x[0]) {
        x.len() > 1 && all_digits(x.drop_first())
    } else {
        x.len() > 0 && all_digits(x)
    }
}

/// An unsigned decimal: a mantissa, optionally followed by an exponent marker
/// and an exponent body.
pub open spec fn spec_unsigned_decimal_ok(t: Seq<char>) -> bool {
    ||| spec_mantissa_ok(t)
    ||| (exists|i: int|
        0 <= i < t.len() && (t[i] == 'e' || t[i] == 'E') && spec_mantissa_ok(t.take(i))
            && spec_exp_ok(t.skip(i + 1)))
}

/// Decimal numeric text: an optional leading sign, then an unsigned decimal.
pub open spec fn decimal_text_ok(s: Seq<char>) -> bool {
    if s.len() > 0 && sign_char(s[0]) {
        spec_unsigned_decimal_ok(s.drop_first())
    } else {
        spec_unsigned_decimal_ok(s)
    }
}

/// Every character of a mantissa is a digit or the point.
proof fn lemma_mantissa_chars(m: Seq<char>)
    requires
        spec_mantissa_ok(m),
    ensures
        forall|k: int| 0 <= k < m.len() ==> is_digit(#[trigger] m[k]) || m[k] == '.',
{
    if m.len() > 0 && all_digits(m) {
    } else {
        let j = choose|j: int|
            0 <= j < m.len() && m[j] == '.' && all_digits(m.take(j)) && all_digits(m.skip(j + 1))
                && m.len() > 1;
        assert forall|k: int| 0 <= k < m.len() implies is_digit(#[trigger] m[k]) || m[k]
            == '.' by {
            if k < j {
                assert(m.take(j)[k] == m[k]);
                assert(is_digit(m.take(j)[k]));
            } else if k > j {
                assert(m.skip(j + 1)[k - j - 1] == m[k]);
                assert(is_digit(m.skip(j + 1)[k - j - 1]));
            }
        }
    }
}

spec fn digits_in_range(s: Seq<char>, a: int, b: int) -> bool {
    forall|j: int| a <= j < b ==> is_digit(#[trigger] s[j])
}

fn scan_digits(s: &str, a: usize, b: usize) -> (r: bool)
    requires
        a <= b <= s@.len(),
    ensures
        r == digits_in_range(s@, a as int, b as int),
{
    let mut i: usize = a;
    while i < b
        invariant
            a <= i <= b <= s@.len(),
            digits_in_range(s@, a as int, i as int),
        decreases b - i,
    {
        let c = s.get_char(i);
        let mut d: bool = false;
        d = c == '0' || c == '1' || c == '2' || c == '3' || c == '4' || c == '5' || c == '6' || c
            == '7' || c == '8' || c == '9';
        if !d {
            return false;
        }
        i = i + 1;
    }
    true
}

/// The position of the first exponent marker at or after `from`, or the text
/// length when there is none.
fn find_exp_marker(s: &str, from: usize) -> (r: usize)
    requires
        from <= s@.len(),
    ensures
        from <= r <= s@.len(),
        r < s@.len() ==> (s@[r as int] == 'e' || s@[r as int] == 'E'),
        forall|j: int| from <= j < r ==> #[trigger] s@[j] != 'e' && s@[j] != 'E',
{
    let n = s.unicode_len();
    let mut i: usize = from;
    while i < n
        invariant
            from <= i <= n == s@.len(),
            forall|j: int| from <= j < i ==> #[trigger] s@[j] != 'e' && s@[j] != 'E',
        decreases n - i,
    {
        let c = s.get_char(i);
        if c == 'e' || c == 'E' {
            return i;
        }
        i = i + 1;
    }
    n
}

/// The position of the first point in `[from, to)`, or `to` when there is
/// none.
fn find_point(s: &str, from: usize, to: usize) -> (r: usize)
    requires
        from <= to <= s@.len(),
    ensures
        from <= r <= to,
        r < to ==> s@[r as int] == '.',
        forall|j: int| from <= j < r ==> #[trigger] s@[j] != '.',
{
    let mut i: usize = from;
    while i < to
        invariant
            from <= i <= to <= s@.len(),
            forall|j: int| from <= j < i ==> #[trigger] s@[j] != '.',
        decreases to - i,
    {
        if s.get_char(i) == '.' {
            return i;
        }
        i = i + 1;
    }
    to
}

fn mantissa_in_range(s: &str, a: usize, b: usize) -> (r: bool)
    requires
        a <= b <= s@.len(),
    ensures
        r == spec_mantissa_ok(s@.subrange(a as int, b as int)),
{
    let ghost m = s@.subrange(a as int, b as int);
    let d = find_point(s, a, b);
    if d == b {
        let r = a < b && scan_digits(s, a, b);
        proof {
            assert(forall|k: int| 0 <= k < m.len() ==> #[trigger] m[k] == s@[a + k]);
            if r {
                assert(all_digits(m));
            } else {
                if spec_mantissa_ok(m) {
                    lemma_mantissa_chars(m);
                    if !(a < b) {
                    } else {
                        assert(!digits_in_range(s@, a as int, b as int));
                        let j = choose|j: int|
                            a <= j < b && !is_digit(s@[j]);
                        assert(m[j - a] == s@[j]);
                        assert(m[j - a] == '.');
                    }
                }
            }
        }
        r
    } else {
        let r = b - a > 1 && scan_digits(s, a, d) && scan_digits(s, d + 1, b);
        proof {
            assert(forall|k: int| 0 <= k < m.len() ==> #[trigger] m[k] == s@[a + k]);
            let jd = d - a;
            assert(m[jd] == '.');
            if r {
                assert(all_digits(m.take(jd))) by {
                    assert(forall|k: int| 0 <= k < jd ==> #[trigger] m.take(jd)[k] == s@[a + k]);
                }
                assert(all_digits(m.skip(jd + 1))) by {
                    assert(forall|k: int|
                        0 <= k < m.len() - jd - 1 ==> #[trigger] m.skip(jd + 1)[k] == s@[d + 1 + k]);
                }
                assert(spec_mantissa_ok(m));
            } else {
                if spec_mantissa_ok(m) {
                    assert(!(m.len() > 0 && all_digits(m))) by {
                        assert(!is_digit(m[jd]));
                    }
                    let j = choose|j: int|
                        0 <= j < m.len() && m[j] == '.' && all_digits(m.take(j)) && all_digits(
                            m.skip(j + 1),
                        ) && m.len() > 1;
                    if j < jd {
                        assert(s@[a + j] == m[j]);
                    } else if j > jd {
                        assert(m.take(j)[jd] == m[jd]);
                        assert(is_digit(m[jd]));
                    } else {
                        assert(m.len() > 1);
                        assert(digits_in_range(s@, a as int, d as int)) by {
                            assert(forall|k: int|
                                a <= k < d ==> #[trigger] s@[k] == m.take(jd)[k - a]);
                        }
                        assert(digits_in_range(s@, d + 1, b as int)) by {
                            assert(forall|k: int|
                                d + 1 <= k < b ==> #[trigger] s@[k] == m.skip(jd + 1)[k - d - 1]);
                        }
                    }
                }
            }
        }
        r
    }
}

fn exp_in_range(s: &str, a: usize) -> (r: bool)
    requires
        a <= s@.len(),
    ensures
        r == spec_exp_ok(s@.skip(a as int)),
{
    let n = s.unicode_len();
    let ghost x = s@.skip(a as int);
    proof {
        assert(forall|k: int| 0 <= k < x.len() ==> #[trigger] x[k] == s@[a + k]);
    }
    if a >= n {
        return false;
    }
    let c = s.get_char(a);
    let start: usize = if c == '+' || c == '-' {
        a + 1
    } else {
        a
    };
    let r = start < n && scan_digits(s, start, n);
    proof {
        if sign_char(x[0]) {
            assert(forall|k: int|
                0 <= k < x.len() - 1 ==> #[trigger] x.drop_first()[k] == s@[a + 1 + k]);
            if r {
                assert(all_digits(x.drop_first()));
            } else if spec_exp_ok(x) {
                assert(forall|j: int|
                    a + 1 <= j < n ==> #[trigger] s@[j] == x.drop_first()[j - a - 1]);
                assert(digits_in_range(s@, a + 1, n as int));
            }
        } else {
            if r {
                assert(all_digits(x));
            } else if spec_exp_ok(x) {
                assert(forall|j: int| a <= j < n ==> #[trigger] s@[j] == x[j - a]);
                assert(digits_in_range(s@, a as int, n as int));
            }
        }
    }
    r
}

/// Decides whether the text is decimal numeric text.
#[verifier::rlimit(50)]
pub fn is_decimal_text(s: &str) -> (r: bool)
    ensures
        r == decimal_text_ok(s@),
{
    let n = s.unicode_len();
    let start: usize = if n > 0 {
        let c = s.get_char(0);
        if c == '+' || c == '-' {
            1
        } else {
            0
        }
    } else {
        0
    };
    let ghost t = s@.skip(start as int);
    proof {
        assert(forall|k: int| 0 <= k < t.len() ==> #[trigger] t[k] == s@[start + k]);
    }
    let e = find_exp_marker(s, start);
    let m_ok = mantissa_in_range(s, start, e);
    proof {
        assert(s@.subrange(start as int, e as int) =~= t.take(e - start));
    }
    let r: bool;
    if e == n {
        r = m_ok;
        proof {
            assert(t.take(e - start) =~= t);
            if spec_unsigned_decimal_ok(t) && !spec_mantissa_ok(t) {
                let i = choose|i: int|
                    0 <= i < t.len() && (t[i] == 'e' || t[i] == 'E') && spec_mantissa_ok(t.take(i))
                        && spec_exp_ok(t.skip(i + 1));
                assert(s@[start + i] == t[i]);
                assert(false);
            }
            assert(r == spec_unsigned_decimal_ok(t));
        }
    } else {
        let x_ok = exp_in_range(s, e + 1);
        r = m_ok && x_ok;
        proof {
            assert(s@.skip(e + 1) =~= t.skip(e + 1 - start));
            let ie = e - start;
            assert(t[ie] == 'e' || t[ie] == 'E');
            if r {
                assert(0 <= ie < t.len() && (t[ie] == 'e' || t[ie] == 'E') && spec_mantissa_ok(
                    t.take(ie),
                ) && spec_exp_ok(t.skip(ie + 1)));
                assert(spec_unsigned_decimal_ok(t));
            } else {
                if spec_unsigned_decimal_ok(t) {
                    if spec_mantissa_ok(t) {
                        lemma_mantissa_chars(t);
                        assert(is_digit(t[ie]) || t[ie] == '.');
                        assert(spec_digit_val(t[ie]) == -1);
                        assert(false);
                    } else {
                        let i = choose|i: int|
                            0 <= i < t.len() && (t[i] == 'e' || t[i] == 'E') && spec_mantissa_ok(
                                t.take(i),
                            ) && spec_exp_ok(t.skip(i + 1));
                        if i < ie {
                            assert(s@[start + i] == t[i]);
                            assert(false);
                        } else if i > ie {
                            lemma_mantissa_chars(t.take(i));
                            assert(t.take(i)[ie] == t[ie]);
                            assert(is_digit(t[ie]) || t[ie] == '.');
                            assert(spec_digit_val(t[ie]) == -1);
                            assert(false);
                        } else {
                            assert(m_ok && x_ok);
                            assert(false);
                        }
                    }
                }
            }
            assert(r == spec_unsigned_decimal_ok(t));
        }
    }
    proof {
        if start == 1 {
            assert(s@.drop_first() =~= t);
        } else {
            assert(t =~= s@);
        }
    }
    r
}

} // verus!
