//! Character- and string-level primitives: the humanization rule that maps a
//! declared field identifier to its display name, its inverse, decimal
//! rendering and parsing of unsigned integers, boolean tokens, whitespace
//! trimming, and the syntax of decimal numeric text.

use vstd::prelude::*;

verus! {

// --- character maps ---

/// Capitalizes a lowercase ASCII letter; every other character is unchanged.
pub open spec fn spec_cap_char(c: char) -> char {
    match c {
        'a' => 'A',
        'b' => 'B',
        'c' => 'C',
        'd' => 'D',
        'e' => 'E',
        'f' => 'F',
        'g' => 'G',
        'h' => 'H',
        'i' => 'I',
        'j' => 'J',
        'k' => 'K',
        'l' => 'L',
        'm' => 'M',
        'n' => 'N',
        'o' => 'O',
        'p' => 'P',
        'q' => 'Q',
        'r' => 'R',
        's' => 'S',
        't' => 'T',
        'u' => 'U',
        'v' => 'V',
        'w' => 'W',
        'x' => 'X',
        'y' => 'Y',
        'z' => 'Z',
        _ => c,
    }
}

/// Lowercases an uppercase ASCII letter; every other character is unchanged.
pub open spec fn spec_low_char(c: char) -> char {
    match c {
        'A' => 'a',
        'B' => 'b',
        'C' => 'c',
        'D' => 'd',
        'E' => 'e',
        'F' => 'f',
        'G' => 'g',
        'H' => 'h',
        'I' => 'i',
        'J' => 'j',
        'K' => 'k',
        'L' => 'l',
        'M' => 'm',
        'N' => 'n',
        'O' => 'o',
        'P' => 'p',
        'Q' => 'q',
        'R' => 'r',
        'S' => 's',
        'T' => 't',
        'U' => 'u',
        'V' => 'v',
        'W' => 'w',
        'X' => 'x',
        'Y' => 'y',
        'Z' => 'z',
        _ => c,
    }
}

pub open spec fn is_lower_alpha(c: char) -> bool {
    spec_cap_char(c) != c
}

pub open spec fn spec_digit_val(c: char) -> int {
    if c == '0' {
        0
    } else if c == '1' {
        1
    } else if c == '2' {
        2
    } else if c == '3' {
        3
    } else if c == '4' {
        4
    } else if c == '5' {
        5
    } else if c == '6' {
        6
    } else if c == '7' {
        7
    } else if c == '8' {
        8
    } else if c == '9' {
        9
    } else {
        -1
    }
}

pub open spec fn is_digit(c: char) -> bool {
    spec_digit_val(c) >= 0
}

fn cap_char(c: char) -> (r: char)
    ensures
        r == spec_cap_char(c),
{
    match c {
        'a' => 'A',
        'b' => 'B',
        'c' => 'C',
        'd' => 'D',
        'e' => 'E',
        'f' => 'F',
        'g' => 'G',
        'h' => 'H',
        'i' => 'I',
        'j' => 'J',
        'k' => 'K',
        'l' => 'L',
        'm' => 'M',
        'n' => 'N',
        'o' => 'O',
        'p' => 'P',
        'q' => 'Q',
        'r' => 'R',
        's' => 'S',
        't' => 'T',
        'u' => 'U',
        'v' => 'V',
        'w' => 'W',
        'x' => 'X',
        'y' => 'Y',
        'z' => 'Z',
        _ => c,
    }
}

fn low_char(c: char) -> (r: char)
    ensures
        r == spec_low_char(c),
{
    match c {
        'A' => 'a',
        'B' => 'b',
        'C' => 'c',
        'D' => 'd',
        'E' => 'e',
        'F' => 'f',
        'G' => 'g',
        'H' => 'h',
        'I' => 'i',
        'J' => 'j',
        'K' => 'k',
        'L' => 'l',
        'M' => 'm',
        'N' => 'n',
        'O' => 'o',
        'P' => 'p',
        'Q' => 'q',
        'R' => 'r',
        'S' => 's',
        'T' => 't',
        'U' => 'u',
        'V' => 'v',
        'W' => 'w',
        'X' => 'x',
        'Y' => 'y',
        'Z' => 'z',
        _ => c,
    }
}

// --- humanization ---

/// A character that may occur in a declared field identifier: a lowercase
/// ASCII letter, a decimal digit, or an underscore.
pub open spec fn ident_char(c: char) -> bool {
    is_lower_alpha(c) || is_digit(c) || c == '_'
}

/// A well-formed field identifier: nonempty, made of identifier characters.
pub open spec fn wf_ident(s: Seq<char>) -> bool {
    &&& s.len() > 0
    &&& forall|i: int| 0 <= i < s.len() ==> ident_char(#[trigger] s[i])
}

/// The display name of a field identifier: underscores become spaces, and the
/// first character of each underscore-separated word is capitalized.
pub open spec fn spec_humanize(s: Seq<char>) -> Seq<char> {
    Seq::new(
        s.len(),
        |i: int|
            if s[i] == '_' {
                ' '
            } else if i == 0 || s[i - 1] == '_' {
                spec_cap_char(s[i])
            } else {
                s[i]
            },
    )
}

/// The inverse of humanization: spaces become underscores, and every other
/// character is lowercased.
pub open spec fn spec_dehumanize(s: Seq<char>) -> Seq<char> {
    Seq::new(
        s.len(),
        |i: int|
            if s[i] == ' ' {
                '_'
            } else {
                spec_low_char(s[i])
            },
    )
}

/// Humanization is reversible: dehumanizing the display name of any
/// well-formed identifier gives the identifier back.
pub proof fn lemma_dehumanize_humanize(s: Seq<char>)
    requires
        wf_ident(s),
    ensures
        spec_dehumanize(spec_humanize(s)) == s,
{
    assert forall|i: int| 0 <= i < s.len() implies spec_dehumanize(spec_humanize(s))[i] == s[i] by {
        assert(ident_char(s[i]));
    }
    assert(spec_dehumanize(spec_humanize(s)) =~= s);
}

/// Humanization is injective on well-formed identifiers.
pub proof fn lemma_humanize_injective(s: Seq<char>, t: Seq<char>)
    requires
        wf_ident(s),
        wf_ident(t),
        spec_humanize(s) == spec_humanize(t),
    ensures
        s == t,
{
    lemma_dehumanize_humanize(s);
    lemma_dehumanize_humanize(t);
}

/// Builds the display name of a field identifier.
pub fn humanize_field(s: &str) -> (r: String)
    ensures
        r@ == spec_humanize(s@),
{
    let n = s.unicode_len();
    let mut chars: Vec<char> = Vec::new();
    let mut i: usize = 0;
    while i < n
        invariant
            n == s@.len(),
            i <= n,
            chars@ == spec_humanize(s@).take(i as int),
        decreases n - i,
    {
        let c = s.get_char(i);
        let out = if c == '_' {
            ' '
        } else if i == 0 || s.get_char(i - 1) == '_' {
            cap_char(c)
        } else {
            c
        };
        chars.push(out);
        proof {
            assert(chars@ =~= spec_humanize(s@).take(i + 1));
        }
        i = i + 1;
    }
    proof {
        assert(chars@ =~= spec_humanize(s@));
    }
    chars_to_string(&chars)
}

/// Recovers the field identifier from a display name.
pub fn dehumanize_field(s: &str) -> (r: String)
    ensures
        r@ == spec_dehumanize(s@),
{
    let n = s.unicode_len();
    let mut chars: Vec<char> = Vec::new();
    let mut i: usize = 0;
    while i < n
        invariant
            n == s@.len(),
            i <= n,
            chars@ == spec_dehumanize(s@).take(i as int),
        decreases n - i,
    {
        let c = s.get_char(i);
        let out = if c == ' ' {
            '_'
        } else {
            low_char(c)
        };
        chars.push(out);
        proof {
            assert(chars@ =~= spec_dehumanize(s@).take(i + 1));
        }
        i = i + 1;
    }
    proof {
        assert(chars@ =~= spec_dehumanize(s@));
    }
    chars_to_string(&chars)
}

/// Relies on String's FromIterator over char: collecting yields exactly the
/// given characters in order.
#[verifier::external_body]
pub fn chars_to_string(v: &Vec<char>) -> (s: String)
    ensures
        s@ == v@,
{
    v.iter().collect()
}

// --- unsigned decimal numbers ---

pub open spec fn spec_digit_char(d: int) -> char {
    if d == 0 {
        '0'
    } else if d == 1 {
        '1'
    } else if d == 2 {
        '2'
    } else if d == 3 {
        '3'
    } else if d == 4 {
        '4'
    } else if d == 5 {
        '5'
    } else if d == 6 {
        '6'
    } else if d == 7 {
        '7'
    } else if d == 8 {
        '8'
    } else {
        '9'
    }
}

/// The decimal rendering of a nonnegative integer, without leading zeros.
pub open spec fn spec_uint_string(n: int) -> Seq<char>
    decreases n,
{
    if n < 10 {
        seq![spec_digit_char(n)]
    } else {
        spec_uint_string(n / 10) + seq![spec_digit_char(n % 10)]
    }
}

pub open spec fn all_digits(s: Seq<char>) -> bool {
    forall|i: int| 0 <= i < s.len() ==> is_digit(#[trigger] s[i])
}

/// The value of a digit string, most significant digit first.
pub open spec fn spec_digits_val(s: Seq<char>) -> int
    decreases s.len(),
{
    if s.len() == 0 {
        0
    } else {
        spec_digits_val(s.drop_last()) * 10 + spec_digit_val(s.last())
    }
}

/// A digit string's value is nonnegative.
pub proof fn lemma_digits_val_nonneg(s: Seq<char>)
    requires
        all_digits(s),
    ensures
        spec_digits_val(s) >= 0,
    decreases s.len(),
{
    if s.len() > 0 {
        assert(all_digits(s.drop_last()));
        lemma_digits_val_nonneg(s.drop_last());
    }
}

/// The value of a digit string is at least the value of any of its prefixes.
pub proof fn lemma_digits_val_prefix_le(s: Seq<char>, i: int)
    requires
        all_digits(s),
        0 <= i <= s.len(),
    ensures
        spec_digits_val(s.take(i)) <= spec_digits_val(s),
    decreases s.len() - i,
{
    if i < s.len() {
        lemma_digits_val_prefix_le(s, i + 1);
        let t = s.take(i + 1);
        assert(t.drop_last() =~= s.take(i));
        assert(all_digits(s.take(i)));
        lemma_digits_val_nonneg(s.take(i));
        assert(spec_digits_val(t) == spec_digits_val(s.take(i)) * 10 + spec_digit_val(s[i]));
    } else {
        assert(s.take(i) =~= s);
    }
}

/// Rendering a number gives digits whose value is the number itself.
pub proof fn lemma_uint_string_val(n: int)
    requires
        n >= 0,
    ensures
        spec_uint_string(n).len() > 0,
        all_digits(spec_uint_string(n)),
        spec_digits_val(spec_uint_string(n)) == n,
    decreases n,
{
    if n < 10 {
        let s = spec_uint_string(n);
        assert(s.len() == 1);
        assert(s.last() == spec_digit_char(n));
        assert(s.drop_last() =~= Seq::<char>::empty());
        assert(spec_digit_val(spec_digit_char(n)) == n);
        assert(spec_digits_val(s) == spec_digits_val(s.drop_last()) * 10 + spec_digit_val(s.last()));
    } else {
        lemma_uint_string_val(n / 10);
        let a = spec_uint_string(n / 10);
        let s = spec_uint_string(n);
        assert(s =~= a + seq![spec_digit_char(n % 10)]);
        assert(s.drop_last() =~= a);
        assert(forall|i: int|
            0 <= i < s.len() ==> #[trigger] s[i] == if i < a.len() {
                a[i]
            } else {
                spec_digit_char(n % 10)
            });
        assert(spec_digits_val(s) == spec_digits_val(a) * 10 + spec_digit_val(s.last()));
    }
}

fn digit_char(d: u32) -> (r: char)
    requires
        d < 10,
    ensures
        r == spec_digit_char(d as int),
{
    if d == 0 {
        '0'
    } else if d == 1 {
        '1'
    } else if d == 2 {
        '2'
    } else if d == 3 {
        '3'
    } else if d == 4 {
        '4'
    } else if d == 5 {
        '5'
    } else if d == 6 {
        '6'
    } else if d == 7 {
        '7'
    } else if d == 8 {
        '8'
    } else {
        '9'
    }
}

fn push_uint_digits(n: u32, out: &mut Vec<char>)
    ensures
        final(out)@ == old(out)@ + spec_uint_string(n as int),
    decreases n,
{
    if n < 10 {
        out.push(digit_char(n));
        proof {
            assert(final(out)@ =~= old(out)@ + spec_uint_string(n as int));
        }
    } else {
        push_uint_digits(n / 10, out);
        out.push(digit_char(n % 10));
        proof {
            assert(final(out)@ =~= old(out)@ + spec_uint_string(n as int));
        }
    }
}

/// Renders an unsigned integer in its default decimal form.
pub fn uint_to_string(n: u32) -> (r: String)
    ensures
        r@ == spec_uint_string(n as int),
{
    let mut chars: Vec<char> = Vec::new();
    push_uint_digits(n, &mut chars);
    proof {
        assert(chars@ =~= spec_uint_string(n as int));
    }
    chars_to_string(&chars)
}

pub open spec fn uint_text_ok(s: Seq<char>) -> bool {
    s.len() > 0 && all_digits(s) && spec_digits_val(s) <= u32::MAX
}

fn digit_val(c: char) -> (r: i32)
    ensures
        r == spec_digit_val(c),
{
    match c {
        '0' => 0,
        '1' => 1,
        '2' => 2,
        '3' => 3,
        '4' => 4,
        '5' => 5,
        '6' => 6,
        '7' => 7,
        '8' => 8,
        '9' => 9,
        _ => -1,
    }
}

/// Parses decimal digits into an unsigned integer; rejects empty text, any
/// non-digit character, and values out of range.
pub fn parse_uint(s: &str) -> (r: Option<u32>)
    ensures
        uint_text_ok(s@) ==> r == Some((spec_digits_val(s@) as u32)),
        !uint_text_ok(s@) ==> r is None,
{
    let n = s.unicode_len();
    if n == 0 {
        return None;
    }
    let mut acc: u64 = 0;
    let mut i: usize = 0;
    while i < n
        invariant
            n == s@.len(),
            0 < n,
            i <= n,
            all_digits(s@.take(i as int)),
            acc == spec_digits_val(s@.take(i as int)),
            acc <= u32::MAX,
        decreases n - i,
    {
        let c = s.get_char(i);
        let d = digit_val(c);
        if d < 0 {
            return None;
        }
        proof {
            assert(s@.take(i + 1).drop_last() =~= s@.take(i as int));
        }
        acc = acc * 10 + (d as u64);
        if acc > u32::MAX as u64 {
            proof {
                if all_digits(s@) {
                    lemma_digits_val_prefix_le(s@, i + 1);
                }
            }
            return None;
        }
        i = i + 1;
    }
    proof {
        assert(s@.take(n as int) =~= s@);
    }
    Some(acc as u32)
}

// --- whitespace trimming ---

/// A whitespace character, as the White_Space property defines it.
pub open spec fn is_space(c: char) -> bool {
    ||| c == ' '
    ||| c == '\t'
    ||| c == '\n'
    ||| c == '\u{B}'
    ||| c == '\u{C}'
    ||| c == '\r'
    ||| c == '\u{85}'
    ||| c == '\u{A0}'
    ||| c == '\u{1680}'
    ||| c == '\u{2000}'
    ||| c == '\u{2001}'
    ||| c == '\u{2002}'
    ||| c == '\u{2003}'
    ||| c == '\u{2004}'
    ||| c == '\u{2005}'
    ||| c == '\u{2006}'
    ||| c == '\u{2007}'
    ||| c == '\u{2008}'
    ||| c == '\u{2009}'
    ||| c == '\u{200A}'
    ||| c == '\u{2028}'
    ||| c == '\u{2029}'
    ||| c == '\u{202F}'
    ||| c == '\u{205F}'
    ||| c == '\u{3000}'
}

pub open spec fn spec_trim_start(s: Seq<char>) -> Seq<char>
    decreases s.len(),
{
    if s.len() > 0 && is_space(s[0]) {
        spec_trim_start(s.drop_first())
    } else {
        s
    }
}

pub open spec fn spec_trim_end(s: Seq<char>) -> Seq<char>
    decreases s.len(),
{
    if s.len() > 0 && is_space(s.last()) {
        spec_trim_end(s.drop_last())
    } else {
        s
    }
}

/// The text with leading and trailing whitespace removed.
pub open spec fn spec_trim(s: Seq<char>) -> Seq<char> {
    spec_trim_end(spec_trim_start(s))
}

pub open spec fn is_trimmed(s: Seq<char>) -> bool {
    spec_trim(s) == s
}

/// Text without leading or trailing whitespace is its own trim.
pub proof fn lemma_trimmed_fixpoint(s: Seq<char>)
    requires
        s.len() == 0 || (!is_space(s[0]) && !is_space(s.last())),
    ensures
        is_trimmed(s),
{
}

proof fn lemma_trim_start_skip(s: Seq<char>, lo: int)
    requires
        0 <= lo <= s.len(),
        forall|j: int| 0 <= j < lo ==> is_space(#[trigger] s[j]),
        lo == s.len() || !is_space(s[lo]),
    ensures
        spec_trim_start(s) == s.skip(lo),
    decreases lo,
{
    if lo == 0 {
        assert(s.skip(0) =~= s);
    } else {
        lemma_trim_start_skip(s.drop_first(), lo - 1);
        assert(s.drop_first().skip(lo - 1) =~= s.skip(lo));
    }
}

proof fn lemma_trim_end_take(t: Seq<char>, k: int)
    requires
        0 <= k <= t.len(),
        forall|j: int| k <= j < t.len() ==> is_space(#[trigger] t[j]),
        k == 0 || !is_space(t[k - 1]),
    ensures
        spec_trim_end(t) == t.take(k),
    decreases t.len() - k,
{
    if k == t.len() {
        assert(t.take(k) =~= t);
    } else {
        lemma_trim_end_take(t.drop_last(), k);
        assert(t.drop_last().take(k) =~= t.take(k));
    }
}

fn is_space_char(c: char) -> (r: bool)
    ensures
        r == is_space(c),
{
    c == ' ' || c == '\t' || c == '\n' || c == '\u{B}' || c == '\u{C}' || c == '\r' || c
        == '\u{85}' || c == '\u{A0}' || c == '\u{1680}' || c == '\u{2000}' || c == '\u{2001}' || c
        == '\u{2002}' || c == '\u{2003}' || c == '\u{2004}' || c == '\u{2005}' || c == '\u{2006}'
        || c == '\u{2007}' || c == '\u{2008}' || c == '\u{2009}' || c == '\u{200A}' || c
        == '\u{2028}' || c == '\u{2029}' || c == '\u{202F}' || c == '\u{205F}' || c == '\u{3000}'
}

/// Removes leading and trailing whitespace.
pub fn trim_text(s: &str) -> (r: String)
    ensures
        r@ == spec_trim(s@),
{
    let n = s.unicode_len();
    let mut lo: usize = 0;
    while lo < n && is_space_char(s.get_char(lo))
        invariant
            n == s@.len(),
            lo <= n,
            forall|j: int| 0 <= j < lo ==> is_space(#[trigger] s@[j]),
        decreases n - lo,
    {
        lo = lo + 1;
    }
    let mut hi: usize = n;
    while hi > lo && is_space_char(s.get_char(hi - 1))
        invariant
            n == s@.len(),
            lo <= hi <= n,
            forall|j: int| hi <= j < n ==> is_space(#[trigger] s@[j]),
        decreases hi,
    {
        hi = hi - 1;
    }
    let mut chars: Vec<char> = Vec::new();
    let mut i: usize = lo;
    while i < hi
        invariant
            n == s@.len(),
            lo <= i <= hi <= n,
            chars@ == s@.subrange(lo as int, i as int),
        decreases hi - i,
    {
        chars.push(s.get_char(i));
        proof {
            assert(chars@ =~= s@.subrange(lo as int, i + 1));
        }
        i = i + 1;
    }
    proof {
        lemma_trim_start_skip(s@, lo as int);
        let t = s@.skip(lo as int);
        lemma_trim_end_take(t, hi - lo as int);
        assert(chars@ =~= t.take(hi - lo as int));
    }
    chars_to_string(&chars)
}

// --- boolean tokens ---

/// The literal display token of a boolean.
pub open spec fn spec_bool_string(b: bool) -> Seq<char> {
    if b {
        "true"@
    } else {
        "false"@
    }
}

/// Renders a boolean as its literal lowercase token.
pub fn bool_to_string(b: bool) -> (r: String)
    ensures
        r@ == spec_bool_string(b),
{
    if b {
        String::from_str("true")
    } else {
        String::from_str("false")
    }
}

pub open spec fn bool_text_ok(s: Seq<char>) -> bool {
    s == "true"@ || s == "false"@
}

/// Accepts exactly the literal tokens of the two booleans.
pub fn parse_bool(s: &str) -> (r: Option<bool>)
    ensures
        s@ == "true"@ ==> r == Some(true),
        s@ == "false"@ ==> r == Some(false),
        !bool_text_ok(s@) ==> r is None,
{
    proof {
        reveal_strlit("true");
        reveal_strlit("false");
        assert("true"@.len() == 4);
        assert("false"@.len() == 5);
        assert("true"@ != "false"@);
    }
    let t = String::from_str("true");
    let f = String::from_str("false");
    let o = s.to_owned();
    if o == t {
        Some(true)
    } else if o == f {
        Some(false)
    } else {
        None
    }
}

} // verus!
