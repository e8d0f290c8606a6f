use vstd::prelude::*;

verus! {

/// An ASCII letter.
pub open spec fn is_ascii_letter(c: char) -> bool {
    ('a' <= c <= 'z') || ('A' <= c <= 'Z')
}

/// The leading run of ASCII letters of `s`: the text up to its first
/// character that is not one (a space, a digit, punctuation, anything beyond
/// ASCII), or the whole text where there is none.
pub fn first_word(s: &str) -> (r: &str)
    ensures
        r@ == s@.subrange(0, r@.len() as int),
        forall|j: int| 0 <= j < r@.len() ==> is_ascii_letter(#[trigger] r@[j]),
        r@.len() < s@.len() ==> !is_ascii_letter(s@[r@.len() as int]),
{
    let n = s.unicode_len();
    let mut i: usize = 0;
    while i < n
        invariant
            i <= n,
            n == s@.len(),
            forall|j: int| 0 <= j < i ==> is_ascii_letter(#[trigger] s@[j]),
        decreases n - i,
    {
        let c = s.get_char(i);
        if !(('a' <= c && c <= 'z') || ('A' <= c && c <= 'Z')) {
            return s.substring_char(0, i);
        }
        i = i + 1;
    }
    assert(s@.subrange(0, n as int) == s@);
    s
}

} // verus!
