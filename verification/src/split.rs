//! Text made of two fields with one separator between them.

use vstd::prelude::*;

verus! {

/// `p` is the one place in `s` where `sep` stands.
pub open spec fn is_only_at(s: Seq<char>, sep: char, p: int) -> bool {
    &&& 0 <= p < s.len()
    &&& s[p] == sep
    &&& forall|i: int| 0 <= i < s.len() && i != p ==> s[i] != sep
}

/// `sep` stands in `s` exactly once.
pub open spec fn occurs_once(s: Seq<char>, sep: char) -> bool {
    exists|p: int| is_only_at(s, sep, p)
}

/// The place of the separator, where it stands exactly once.
pub open spec fn only_place(s: Seq<char>, sep: char) -> int {
    choose|p: int| is_only_at(s, sep, p)
}

/// The field before the separator.
pub open spec fn field_before(s: Seq<char>, sep: char) -> Seq<char> {
    s.subrange(0, only_place(s, sep))
}

/// The field after the separator.
pub open spec fn field_after(s: Seq<char>, sep: char) -> Seq<char> {
    s.subrange(only_place(s, sep) + 1, s.len() as int)
}

/// A separator that stands once stands at one place only.
pub proof fn lemma_only_place(s: Seq<char>, sep: char, p: int)
    requires
        is_only_at(s, sep, p),
    ensures
        occurs_once(s, sep),
        only_place(s, sep) == p,
{
    let q = only_place(s, sep);
    assert(is_only_at(s, sep, q));
}

/// Finds the separator of ASCII text in which it stands exactly once.
pub(crate) fn find_only(s: &str, sep: char) -> (r: Option<usize>)
    requires
        s.is_ascii(),
        sep <= '\u{7f}',
    ensures
        r is Some <==> occurs_once(s@, sep),
        r matches Some(p) ==> p == only_place(s@, sep),
{
    let n: usize = s.unicode_len();
    let wanted: u8 = sep as u8;
    let mut found: Option<usize> = None;
    let mut i: usize = 0;
    while i < n
        invariant
            s.is_ascii(),
            sep <= '\u{7f}',
            wanted == sep as u8,
            n == s@.len(),
            i <= n,
            found matches Some(p) ==> p < i && s@[p as int] == sep,
            found matches Some(p) ==> forall|j: int| 0 <= j < i && j != p ==> s@[j] != sep,
            found is None ==> forall|j: int| 0 <= j < i ==> s@[j] != sep,
        decreases n - i,
    {
        let b: u8 = s.get_ascii(i);
        if b == wanted {
            assert(s@[i as int] == sep);
            match found {
                Some(p) => {
                    assert forall|q: int| !is_only_at(s@, sep, q) by {
                        if is_only_at(s@, sep, q) {
                            if q == p {
                                assert(s@[i as int] != sep);
                            } else {
                                assert(s@[p as int] != sep);
                            }
                        }
                    }
                    return None;
                },
                None => {
                    found = Some(i);
                },
            }
        } else {
            assert(s@[i as int] != sep);
        }
        i = i + 1;
    }
    match found {
        Some(p) => {
            proof {
                lemma_only_place(s@, sep, p as int);
            }
        },
        None => {
            assert forall|q: int| !is_only_at(s@, sep, q) by {}
        },
    }
    found
}

} // verus!
