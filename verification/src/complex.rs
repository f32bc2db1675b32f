//! A complex parameter written as `<re>,<im>`: two decimal numbers with a
//! single comma between them. Both parts are finite: a name for infinity or
//! for no number is no part of a complex parameter.

use crate::literal::{is_signed_number, lemma_signed_number_chars, signed_number};
use crate::split::{field_after, field_before, find_only, occurs_once, only_place};
use vstd::prelude::*;

verus! {

/// The two parts of a complex parameter, each as it was written.
#[derive(Debug, PartialEq, Eq)]
pub struct ComplexLiteral {
    pub re: String,
    pub im: String,
}

impl View for ComplexLiteral {
    type V = (Seq<char>, Seq<char>);

    open spec fn view(&self) -> (Seq<char>, Seq<char>) {
        (self.re@, self.im@)
    }
}

/// The real and the imaginary part that a complex parameter is made of,
/// each a signed decimal number.
pub open spec fn complex_of(s: Seq<char>) -> Option<(Seq<char>, Seq<char>)> {
    if occurs_once(s, ',') && signed_number(field_before(s, ',')) && signed_number(
        field_after(s, ','),
    ) {
        Some((field_before(s, ','), field_after(s, ',')))
    } else {
        None
    }
}

/// Text with a character outside ASCII is no complex parameter.
pub proof fn lemma_non_ascii_is_no_complex(s: Seq<char>)
    requires
        !vstd::utf8::is_ascii_chars(s),
    ensures
        complex_of(s) is None,
{
    if complex_of(s) is Some {
        let p = only_place(s, ',');
        let i = choose|i: int| 0 <= i < s.len() && !('\0' <= #[trigger] s[i] <= '\u{7f}');
        let before = field_before(s, ',');
        let after = field_after(s, ',');
        lemma_signed_number_chars(before);
        lemma_signed_number_chars(after);
        if i < p {
            assert(before[i] == s[i]);
        } else {
            assert(i > p);
            assert(after[i - p - 1] == s[i]);
        }
    }
}

/// Reads a complex parameter.
pub fn parse_complex_number(s: &str) -> (r: Option<ComplexLiteral>)
    ensures
        r is Some <==> complex_of(s@) is Some,
        r matches Some(c) ==> complex_of(s@) == Some(c@),
{
    if !s.is_ascii() {
        proof {
            lemma_non_ascii_is_no_complex(s@);
        }
        return None;
    }
    let n: usize = s.unicode_len();
    match find_only(s, ',') {
        None => None,
        Some(p) => {
            let re = s.substring_ascii(0, p);
            let im = s.substring_ascii(p + 1, n);
            if is_signed_number(re) && is_signed_number(im) {
                Some(ComplexLiteral { re: re.to_owned(), im: im.to_owned() })
            } else {
                None
            }
        },
    }
}

} // verus!
