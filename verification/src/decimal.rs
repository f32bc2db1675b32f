//! Unsigned decimal literals: an optional `+`, then one or more ASCII digits.

use vstd::prelude::*;

verus! {

/// An ASCII decimal digit.
pub open spec fn is_digit(c: char) -> bool {
    '0' <= c <= '9'
}

/// The number a digit stands for.
pub open spec fn digit_value(c: char) -> nat {
    (c as u32 - '0' as u32) as nat
}

/// Every character of `s` is a decimal digit.
pub open spec fn all_digits(s: Seq<char>) -> bool {
    forall|i: int| 0 <= i < s.len() ==> is_digit(#[trigger] s[i])
}

/// The value of a digit string read in base ten, most significant digit first.
pub open spec fn digits_value(s: Seq<char>) -> nat
    decreases s.len(),
{
    if s.len() == 0 {
        0
    } else {
        10 * digits_value(s.drop_last()) + digit_value(s.last())
    }
}

/// The digits of a literal: the text without its optional leading `+`.
pub open spec fn unsigned_body(s: Seq<char>) -> Seq<char> {
    if s.len() > 0 && s[0] == '+' {
        s.subrange(1, s.len() as int)
    } else {
        s
    }
}

/// What a decimal literal denotes as a `u32`, if it is one and fits.
pub open spec fn decimal_u32(s: Seq<char>) -> Option<u32> {
    let body = unsigned_body(s);
    if body.len() > 0 && all_digits(body) && digits_value(body) <= u32::MAX {
        Some(digits_value(body) as u32)
    } else {
        None
    }
}

/// A digit string never denotes less than one of its prefixes.
pub proof fn lemma_digits_value_prefix(s: Seq<char>, n: int)
    requires
        0 <= n <= s.len(),
    ensures
        digits_value(s.subrange(0, n)) <= digits_value(s),
    decreases s.len() - n,
{
    if n == s.len() {
        assert(s.subrange(0, n) =~= s);
    } else {
        lemma_digits_value_prefix(s, n + 1);
        let longer = s.subrange(0, n + 1);
        assert(longer.drop_last() =~= s.subrange(0, n));
    }
}

/// Reads an unsigned decimal literal.
pub fn parse_u32(s: &str) -> (r: Option<u32>)
    ensures
        r == decimal_u32(s@),
{
    if !s.is_ascii() {
        proof {
            lemma_non_ascii_is_no_literal(s@);
        }
        return None;
    }
    let n: usize = s.unicode_len();
    let start: usize = if n > 0 && s.get_ascii(0) == 43u8 { 1 } else { 0 };
    let ghost body = unsigned_body(s@);
    assert(body =~= s@.subrange(start as int, n as int));
    if start == n {
        return None;
    }
    let mut acc: u64 = 0;
    let mut i: usize = start;
    while i < n
        invariant
            s.is_ascii(),
            n == s@.len(),
            start <= i <= n,
            body == unsigned_body(s@),
            body == s@.subrange(start as int, n as int),
            all_digits(body.subrange(0, i - start)),
            acc == digits_value(body.subrange(0, i - start)),
            acc <= u32::MAX,
        decreases n - i,
    {
        let b: u8 = s.get_ascii(i);
        let ghost before = body.subrange(0, i - start);
        let ghost after = body.subrange(0, i - start + 1);
        assert(after.drop_last() =~= before);
        assert(after.last() == s@[i as int]);
        if b < 48u8 || b > 57u8 {
            assert(!is_digit(body[i - start]));
            return None;
        }
        assert(is_digit(s@[i as int]));
        let d: u64 = (b - 48u8) as u64;
        assert(d == digit_value(s@[i as int]));
        acc = acc * 10 + d;
        assert(acc == digits_value(after));
        if acc > 0xffff_ffffu64 {
            proof {
                lemma_digits_value_prefix(body, i - start + 1);
            }
            return None;
        }
        assert forall|j: int| 0 <= j < after.len() implies is_digit(#[trigger] after[j]) by {
            if j < before.len() {
                assert(after[j] == before[j]);
            }
        }
        i = i + 1;
    }
    assert(body.subrange(0, n - start) =~= body);
    Some(acc as u32)
}

/// Text with a character outside ASCII is no decimal literal.
pub proof fn lemma_non_ascii_is_no_literal(s: Seq<char>)
    requires
        !vstd::utf8::is_ascii_chars(s),
    ensures
        decimal_u32(s) is None,
{
    let i = choose|i: int| 0 <= i < s.len() && !('\0' <= #[trigger] s[i] <= '\u{7f}');
    let body = unsigned_body(s);
    if s[0] == '+' {
        assert(i > 0);
        assert(body[i - 1] == s[i]);
        assert(!is_digit(body[i - 1]));
    } else {
        assert(!is_digit(body[i]));
    }
}

} // verus!
