//! Text helpers of the search: substring search on the UTF-8 bytes of a
//! text, trimming of white space, and counting characters.

use vstd::prelude::*;
use vstd::string::StrSliceExecFns;

verus! {

/// A byte with ASCII upper-case letters taken to lower case.
pub open spec fn ascii_lower(b: u8) -> u8 {
    if 65 <= b <= 90 {
        (b + 32) as u8
    } else {
        b
    }
}

fn ascii_lower_of(b: u8) -> (r: u8)
    ensures
        r == ascii_lower(b),
{
    if 65 <= b && b <= 90 {
        b + 32
    } else {
        b
    }
}

/// `needle` occurs in `hay` starting at `i`, ASCII letters matching
/// regardless of case.
pub open spec fn occurs_at(hay: Seq<u8>, needle: Seq<u8>, i: int) -> bool {
    &&& 0 <= i
    &&& i + needle.len() <= hay.len()
    &&& forall|q: int| 0 <= q < needle.len() ==> ascii_lower(#[trigger] hay[i + q]) == ascii_lower(needle[q])
}

/// `needle` occurs somewhere in `hay`; the empty sequence occurs everywhere.
pub open spec fn contains_bytes(hay: Seq<u8>, needle: Seq<u8>) -> bool {
    exists|i: int| occurs_at(hay, needle, i)
}

/// The text `t` holds the text `k` (as consecutive UTF-8 bytes), ASCII
/// letters matching regardless of case.
pub open spec fn text_contains(t: Seq<char>, k: Seq<char>) -> bool {
    contains_bytes(vstd::utf8::encode_utf8(t), vstd::utf8::encode_utf8(k))
}

/// Tells whether `needle` occurs in `hay`, ASCII letters matching
/// regardless of case.
pub fn bytes_contain(hay: &[u8], needle: &[u8]) -> (r: bool)
    ensures
        r == contains_bytes(hay@, needle@),
{
    if needle.len() > hay.len() {
        proof {
            assert forall|i: int| !occurs_at(hay@, needle@, i) by {}
        }
        return false;
    }
    if needle.len() == 0 {
        proof {
            assert(occurs_at(hay@, needle@, 0));
        }
        return true;
    }
    let n: usize = hay.len();
    let last: usize = n - needle.len();
    let mut i: usize = 0;
    while i <= last
        invariant
            last == hay@.len() - needle@.len(),
            n == hay@.len(),
            needle@.len() > 0,
            i <= last + 1,
            forall|p: int| 0 <= p < i ==> !occurs_at(hay@, needle@, p),
        decreases last + 1 - i,
    {
        let mut j: usize = 0;
        let mut same = true;
        while same && j < needle.len()
            invariant
                i <= last,
                last == hay@.len() - needle@.len(),
                n == hay@.len(),
                j <= needle@.len(),
                forall|q: int| 0 <= q < j ==> ascii_lower(#[trigger] hay@[i + q]) == ascii_lower(needle@[q]),
                !same ==> j < needle@.len() && ascii_lower(hay@[i + j]) != ascii_lower(needle@[j as int]),
            decreases needle@.len() - j + (if same { 1int } else { 0int }),
        {
            if ascii_lower_of(hay[i + j]) != ascii_lower_of(needle[j]) {
                same = false;
            } else {
                j = j + 1;
            }
        }
        if same {
            proof {
                assert(occurs_at(hay@, needle@, i as int));
            }
            return true;
        }
        proof {
            if occurs_at(hay@, needle@, i as int) {
                assert(ascii_lower(hay@[i + j]) == ascii_lower(needle@[j as int]));
            }
        }
        i = i + 1;
    }
    proof {
        assert forall|p: int| !occurs_at(hay@, needle@, p) by {
            if 0 <= p < i {
            }
        }
    }
    false
}

/// Tells whether the text `hay` holds the text `needle`.
pub fn str_contains(hay: &str, needle: &str) -> (r: bool)
    ensures
        r == text_contains(hay@, needle@),
{
    bytes_contain(hay.as_bytes(), needle.as_bytes())
}

/// A character that trimming removes: ASCII white space.
pub open spec fn is_space(c: char) -> bool {
    c == ' ' || c == '\t' || c == '\n' || c == '\r' || c == '\x0B' || c == '\x0C'
}

/// The position of the first character of `s` at or after `i` that is not
/// white space, or the length of `s` if there is none.
pub open spec fn first_non_space(s: Seq<char>, i: int) -> int
    decreases s.len() - i,
{
    if i >= s.len() || i < 0 {
        s.len() as int
    } else if is_space(s[i]) {
        first_non_space(s, i + 1)
    } else {
        i
    }
}

/// The position just after the last character of `s` before `j` that is
/// not white space, or `lo` if there is none from `lo` on.
pub open spec fn end_non_space(s: Seq<char>, lo: int, j: int) -> int
    decreases j - lo,
{
    if j <= lo {
        lo
    } else if is_space(s[j - 1]) {
        end_non_space(s, lo, j - 1)
    } else {
        j
    }
}

/// `s` without white space at its start and its end.
pub open spec fn trimmed(s: Seq<char>) -> Seq<char> {
    let lo = first_non_space(s, 0);
    s.subrange(lo, end_non_space(s, lo, s.len() as int))
}

fn is_space_char(c: char) -> (r: bool)
    ensures
        r == is_space(c),
{
    c == ' ' || c == '\t' || c == '\n' || c == '\r' || c == '\x0B' || c == '\x0C'
}

/// The text without white space at its start and its end.
pub fn trim_spaces(s: &str) -> (r: &str)
    ensures
        r@ == trimmed(s@),
{
    let n = s.unicode_len();
    let mut lo: usize = 0;
    while lo < n && is_space_char(s.get_char(lo))
        invariant
            n == s@.len(),
            lo <= n,
            first_non_space(s@, 0) == first_non_space(s@, lo as int),
        decreases n - lo,
    {
        lo = lo + 1;
    }
    let mut hi: usize = n;
    while hi > lo && is_space_char(s.get_char(hi - 1))
        invariant
            n == s@.len(),
            lo <= hi <= n,
            lo == first_non_space(s@, 0),
            end_non_space(s@, lo as int, n as int) == end_non_space(s@, lo as int, hi as int),
        decreases hi,
    {
        hi = hi - 1;
    }
    s.substring_char(lo, hi)
}

/// The number of characters of a text.
pub fn char_count(s: &str) -> (r: usize)
    ensures
        r == s@.len(),
{
    s.unicode_len()
}

} // verus!
