//! Image dimensions written as `<width>x<height>`.

use crate::decimal::{decimal_u32, lemma_non_ascii_is_no_literal, parse_u32};
use crate::split::{field_after, field_before, find_only, occurs_once, only_place};
use vstd::prelude::*;

verus! {

/// The dimensions that a resolution string denotes: two unsigned decimal
/// literals with a single `x` between them.
pub open spec fn resolution_of(s: Seq<char>) -> Option<(u32, u32)> {
    if occurs_once(s, 'x') {
        match (decimal_u32(field_before(s, 'x')), decimal_u32(field_after(s, 'x'))) {
            (Some(width), Some(height)) => Some((width, height)),
            _ => None,
        }
    } else {
        None
    }
}

/// Text with a character outside ASCII is no resolution.
pub proof fn lemma_non_ascii_is_no_resolution(s: Seq<char>)
    requires
        !vstd::utf8::is_ascii_chars(s),
    ensures
        resolution_of(s) is None,
{
    if occurs_once(s, 'x') {
        let p = only_place(s, 'x');
        let i = choose|i: int| 0 <= i < s.len() && !('\0' <= #[trigger] s[i] <= '\u{7f}');
        let before = field_before(s, 'x');
        let after = field_after(s, 'x');
        if i < p {
            assert(before[i] == s[i]);
            lemma_non_ascii_is_no_literal(before);
        } else {
            assert(i > p);
            assert(after[i - p - 1] == s[i]);
            lemma_non_ascii_is_no_literal(after);
        }
    }
}

/// Reads a resolution string.
pub fn parse_resolution(resolution: &str) -> (r: Option<(u32, u32)>)
    ensures
        r == resolution_of(resolution@),
{
    if !resolution.is_ascii() {
        proof {
            lemma_non_ascii_is_no_resolution(resolution@);
        }
        return None;
    }
    let n: usize = resolution.unicode_len();
    match find_only(resolution, 'x') {
        None => None,
        Some(p) => {
            let width = parse_u32(resolution.substring_ascii(0, p));
            let height = parse_u32(resolution.substring_ascii(p + 1, n));
            match (width, height) {
                (Some(w), Some(h)) => Some((w, h)),
                _ => None,
            }
        },
    }
}

} // verus!
