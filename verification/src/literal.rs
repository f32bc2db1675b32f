//! The grammar of a decimal number: an optional sign, then digits with at
//! most one point among them, and an optional exponent. Every text of the
//! grammar denotes a finite real number; the names that stand for infinity
//! and for no number at all are no part of it.

use crate::decimal::{all_digits, is_digit};
use vstd::prelude::*;

verus! {

/// A sign character.
pub open spec fn is_sign(c: char) -> bool {
    c == '+' || c == '-'
}

/// The text without its optional leading sign.
pub open spec fn strip_sign(s: Seq<char>) -> Seq<char> {
    if s.len() > 0 && is_sign(s[0]) {
        s.subrange(1, s.len() as int)
    } else {
        s
    }
}

/// `s` has a point at `d`, digits alone on both sides, and a digit somewhere.
pub open spec fn dotted_at(s: Seq<char>, d: int) -> bool {
    &&& 0 <= d < s.len()
    &&& s.len() > 1
    &&& s[d] == '.'
    &&& all_digits(s.subrange(0, d))
    &&& all_digits(s.subrange(d + 1, s.len() as int))
}

/// Digits, or digits with one point before, among or after them.
pub open spec fn mantissa(s: Seq<char>) -> bool {
    (s.len() > 0 && all_digits(s)) || exists|d: int| dotted_at(s, d)
}

/// An `e` in either case, an optional sign, and one digit or more.
pub open spec fn exponent(s: Seq<char>) -> bool {
    &&& s.len() > 0
    &&& (s[0] == 'e' || s[0] == 'E')
    &&& strip_sign(s.subrange(1, s.len() as int)).len() > 0
    &&& all_digits(strip_sign(s.subrange(1, s.len() as int)))
}

/// `s` is a mantissa up to `k` and, if anything follows, an exponent from there.
pub open spec fn number_split_at(s: Seq<char>, k: int) -> bool {
    &&& 0 <= k <= s.len()
    &&& mantissa(s.subrange(0, k))
    &&& (k == s.len() || exponent(s.subrange(k, s.len() as int)))
}

/// A mantissa with an optional exponent.
pub open spec fn number(s: Seq<char>) -> bool {
    exists|k: int| number_split_at(s, k)
}

/// A digit other than zero.
pub open spec fn is_nonzero_digit(c: char) -> bool {
    '1' <= c <= '9'
}

/// The number is not zero: its mantissa has a digit other than zero.
pub open spec fn nonzero_number(s: Seq<char>) -> bool {
    exists|k: int, i: int|
        #![trigger number_split_at(s, k), s[i]]
        number_split_at(s, k) && 0 <= i < k && is_nonzero_digit(s[i])
}

/// The text is a number that denotes a value greater than zero: it has no
/// minus sign, and it is not zero.
pub open spec fn positive_number(s: Seq<char>) -> bool {
    signed_number(s) && s[0] != '-' && nonzero_number(strip_sign(s))
}

/// The whole grammar: a number with an optional sign before it.
pub open spec fn signed_number(s: Seq<char>) -> bool {
    number(strip_sign(s))
}

/// A character that the grammar can hold.
pub open spec fn literal_char(c: char) -> bool {
    is_digit(c) || is_sign(c) || c == '.' || c == 'e' || c == 'E'
}

/// A number is made of digits, signs, a point and the letter `e`.
proof fn lemma_number_chars(s: Seq<char>)
    requires
        number(s),
    ensures
        forall|i: int| 0 <= i < s.len() ==> literal_char(#[trigger] s[i]),
{
    let k = choose|k: int| number_split_at(s, k);
    let m = s.subrange(0, k);
    let rest = s.subrange(k, s.len() as int);
    assert forall|i: int| 0 <= i < s.len() implies literal_char(#[trigger] s[i]) by {
        if i < k {
            assert(m[i] == s[i]);
            if m.len() > 0 && all_digits(m) {
            } else {
                let d = choose|d: int| dotted_at(m, d);
                if i < d {
                    assert(m.subrange(0, d)[i] == m[i]);
                } else if i > d {
                    assert(m.subrange(d + 1, m.len() as int)[i - d - 1] == m[i]);
                }
            }
        } else {
            assert(rest[i - k] == s[i]);
            if i > k {
                let tail = rest.subrange(1, rest.len() as int);
                assert(tail[i - k - 1] == s[i]);
                let digits = strip_sign(tail);
                if tail.len() > 0 && is_sign(tail[0]) {
                    if i > k + 1 {
                        assert(digits[i - k - 2] == s[i]);
                    }
                } else {
                    assert(digits[i - k - 1] == s[i]);
                }
            }
        }
    }
}

/// Every character of a signed number is one that the grammar can hold.
pub proof fn lemma_signed_number_chars(s: Seq<char>)
    requires
        signed_number(s),
    ensures
        forall|i: int| 0 <= i < s.len() ==> literal_char(#[trigger] s[i]),
        vstd::utf8::is_ascii_chars(s),
{
    let body = strip_sign(s);
    lemma_number_chars(body);
    assert forall|i: int| 0 <= i < s.len() implies literal_char(#[trigger] s[i]) by {
        if s.len() > 0 && is_sign(s[0]) {
            if i > 0 {
                assert(body[i - 1] == s[i]);
            }
        } else {
            assert(body[i] == s[i]);
        }
    }
    assert forall|i: int| 0 <= i < s.len() implies '\0' <= #[trigger] s[i] <= '\u{7f}' by {
        assert(literal_char(s[i]));
    }
}

/// The end of the run of digits that starts at `from`.
fn digits_end(s: &str, from: usize) -> (end: usize)
    requires
        s.is_ascii(),
        from <= s@.len(),
    ensures
        from <= end <= s@.len(),
        all_digits(s@.subrange(from as int, end as int)),
        end < s@.len() ==> !is_digit(s@[end as int]),
{
    let n: usize = s.unicode_len();
    let mut end: usize = from;
    while end < n
        invariant
            s.is_ascii(),
            n == s@.len(),
            from <= end <= n,
            all_digits(s@.subrange(from as int, end as int)),
        decreases n - end,
    {
        let b: u8 = s.get_ascii(end);
        if b < 48u8 || b > 57u8 {
            assert(!is_digit(s@[end as int]));
            return end;
        }
        assert(is_digit(s@[end as int]));
        let ghost run = s@.subrange(from as int, end as int);
        let ghost longer = s@.subrange(from as int, end + 1);
        assert forall|j: int| 0 <= j < longer.len() implies is_digit(#[trigger] longer[j]) by {
            if j < run.len() {
                assert(longer[j] == run[j]);
            }
        }
        end = end + 1;
    }
    end
}

/// A run of digits that starts at `from` ends no earlier than any digit string there.
proof fn lemma_run_reaches(s: Seq<char>, from: int, end: int, j: int)
    requires
        0 <= from <= end <= s.len(),
        from <= j <= s.len(),
        end < s.len() ==> !is_digit(s[end]),
        all_digits(s.subrange(from, j)),
    ensures
        j <= end,
{
    if end < j {
        assert(s.subrange(from, j)[end - from] == s[end]);
    }
}

/// Whether the text from `from` on is an exponent.
fn is_exponent_from(s: &str, from: usize) -> (r: bool)
    requires
        s.is_ascii(),
        from < s@.len(),
    ensures
        r == exponent(s@.subrange(from as int, s@.len() as int)),
{
    let n: usize = s.unicode_len();
    let ghost part = s@.subrange(from as int, n as int);
    let ghost tail = part.subrange(1, part.len() as int);
    assert(tail =~= s@.subrange(from + 1, n as int));
    let e: u8 = s.get_ascii(from);
    assert(part[0] == s@[from as int]);
    if e != 101u8 && e != 69u8 {
        return false;
    }
    let mut c: usize = from + 1;
    if c < n {
        let sign: u8 = s.get_ascii(c);
        assert(tail[0] == s@[c as int]);
        if sign == 43u8 || sign == 45u8 {
            c = c + 1;
        }
    }
    assert(strip_sign(tail) =~= s@.subrange(c as int, n as int));
    let d: usize = digits_end(s, c);
    proof {
        if all_digits(s@.subrange(c as int, n as int)) {
            lemma_run_reaches(s@, c as int, d as int, n as int);
        }
    }
    d == n && d > c
}

/// Where the mantissa of ASCII text ends, if the text is a mantissa with an
/// optional exponent. A number has its mantissa end at one place only.
fn split_number(s: &str) -> (r: Option<usize>)
    requires
        s.is_ascii(),
    ensures
        r is Some <==> number(s@),
        r matches Some(k) ==> number_split_at(s@, k as int),
        forall|k: int| number_split_at(s@, k) ==> (r matches Some(b) && b == k),
{
    let n: usize = s.unicode_len();
    let a: usize = digits_end(s, 0);
    let dotted: bool = a < n && s.get_ascii(a) == 46u8;
    let b: usize = if dotted {
        digits_end(s, a + 1)
    } else {
        a
    };
    let digit_count: usize = if dotted {
        b - 1
    } else {
        a
    };
    let r: bool = if digit_count == 0 {
        false
    } else if b == n {
        true
    } else {
        is_exponent_from(s, b)
    };
    proof {
        let t = s@;
        if r {
            let m = t.subrange(0, b as int);
            if dotted {
                assert(m.subrange(0, a as int) =~= t.subrange(0, a as int));
                assert(m.subrange(a + 1, m.len() as int) =~= t.subrange(a + 1, b as int));
                assert(dotted_at(m, a as int));
            } else {
                assert(m.len() > 0 && all_digits(m));
            }
            assert(number_split_at(t, b as int));
        }
        assert forall|k: int| number_split_at(t, k) implies r && k == b by {
            let m = t.subrange(0, k);
            let rest = t.subrange(k, n as int);
            if k < n {
                assert(rest[0] == t[k]);
                assert(!is_digit(t[k]) && t[k] != '.');
            }
            if m.len() > 0 && all_digits(m) {
                lemma_run_reaches(t, 0, a as int, k);
                if k < n {
                    if a > k {
                        assert(t.subrange(0, a as int)[k] == t[k]);
                    }
                    assert(a == k);
                }
                assert(!dotted);
                assert(b == k);
            } else {
                let d0 = choose|d: int| dotted_at(m, d);
                assert(m.subrange(0, d0) =~= t.subrange(0, d0));
                assert(m.subrange(d0 + 1, m.len() as int) =~= t.subrange(d0 + 1, k));
                assert(m[d0] == t[d0]);
                lemma_run_reaches(t, 0, a as int, d0);
                if a > d0 {
                    assert(t.subrange(0, a as int)[d0] == t[d0]);
                }
                assert(a == d0);
                assert(dotted);
                lemma_run_reaches(t, a + 1, b as int, k);
                if k < n {
                    if b > k {
                        assert(t.subrange(a + 1, b as int)[k - a - 1] == t[k]);
                    }
                }
                assert(b == k);
            }
        }
    }
    if r {
        Some(b)
    } else {
        None
    }
}

/// Whether ASCII text has a digit other than zero before `end`.
fn has_nonzero_digit(s: &str, end: usize) -> (r: bool)
    requires
        s.is_ascii(),
        end <= s@.len(),
    ensures
        r == exists|i: int| 0 <= i < end && is_nonzero_digit(#[trigger] s@[i]),
{
    let mut i: usize = 0;
    while i < end
        invariant
            s.is_ascii(),
            i <= end <= s@.len(),
            forall|j: int| 0 <= j < i ==> !is_nonzero_digit(#[trigger] s@[j]),
        decreases end - i,
    {
        let b: u8 = s.get_ascii(i);
        if 49u8 <= b && b <= 57u8 {
            assert(is_nonzero_digit(s@[i as int]));
            return true;
        }
        assert(!is_nonzero_digit(s@[i as int]));
        i = i + 1;
    }
    false
}

/// The sign and the body of the text, where all of it is ASCII.
fn sign_and_body(s: &str) -> (r: Option<(bool, &str)>)
    ensures
        r is Some <==> s.is_ascii(),
        r matches Some((negative, body)) ==> {
            &&& body.is_ascii()
            &&& body@ == strip_sign(s@)
            &&& negative == (s@.len() > 0 && s@[0] == '-')
        },
{
    if !s.is_ascii() {
        return None;
    }
    let n: usize = s.unicode_len();
    let mut start: usize = 0;
    let mut negative: bool = false;
    if n > 0 {
        let first: u8 = s.get_ascii(0);
        if first == 43u8 || first == 45u8 {
            start = 1;
        }
        negative = first == 45u8;
    }
    let body = s.substring_ascii(start, n);
    assert(body@ =~= strip_sign(s@));
    Some((negative, body))
}

/// Whether the text is a number with an optional sign before it.
pub fn is_signed_number(s: &str) -> (r: bool)
    ensures
        r == signed_number(s@),
{
    match sign_and_body(s) {
        None => {
            proof {
                if signed_number(s@) {
                    lemma_signed_number_chars(s@);
                }
            }
            false
        },
        Some((_, body)) => split_number(body).is_some(),
    }
}

/// Whether the text is a number that denotes a value greater than zero.
pub fn is_positive_number(s: &str) -> (r: bool)
    ensures
        r == positive_number(s@),
{
    match sign_and_body(s) {
        None => {
            proof {
                if signed_number(s@) {
                    lemma_signed_number_chars(s@);
                }
            }
            false
        },
        Some((negative, body)) => {
            if negative {
                return false;
            }
            match split_number(body) {
                None => false,
                Some(k) => {
                    let found = has_nonzero_digit(body, k);
                    proof {
                        let t = body@;
                        assert(mantissa(t.subrange(0, k as int)));
                        assert(k > 0);
                        assert(s@.len() > 0 && s@[0] != '-');
                        if found {
                            let i = choose|i: int| 0 <= i < k && is_nonzero_digit(#[trigger] t[i]);
                            assert(number_split_at(t, k as int) && 0 <= i < k && is_nonzero_digit(
                                t[i],
                            ));
                            assert(nonzero_number(t));
                        } else {
                            assert forall|j: int, i: int|
                                #![trigger number_split_at(t, j), t[i]]
                                !(number_split_at(t, j) && 0 <= i < j && is_nonzero_digit(t[i])) by {
                                if number_split_at(t, j) {
                                    assert(j == k);
                                }
                            }
                        }
                    }
                    found
                },
            }
        },
    }
}

} // verus!
