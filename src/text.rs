//! Small facts about text that the account and backup rules rely on.

use vstd::prelude::*;

verus! {

/// The Unicode White_Space property.
pub open spec fn is_white_space(c: char) -> bool {
    let u = c as u32;
    (0x9 <= u <= 0xd) || u == 0x20 || u == 0x85 || u == 0xa0 || u == 0x1680 || (0x2000 <= u
        <= 0x200a) || u == 0x2028 || u == 0x2029 || u == 0x202f || u == 0x205f || u == 0x3000
}

/// A text that is empty once surrounding white space is trimmed.
pub open spec fn blank(s: Seq<char>) -> bool {
    forall|i: int| 0 <= i < s.len() ==> is_white_space(#[trigger] s[i])
}

/// A character that trimming removes: white space, and also quotes when
/// `quotes` is set.
pub open spec fn trimmable(c: char, quotes: bool) -> bool {
    is_white_space(c) || (quotes && (c == '"' || c == '\''))
}

pub open spec fn strip_front(s: Seq<char>, quotes: bool) -> Seq<char>
    decreases s.len(),
{
    if s.len() > 0 && trimmable(s[0], quotes) {
        strip_front(s.subrange(1, s.len() as int), quotes)
    } else {
        s
    }
}

pub open spec fn strip_back(s: Seq<char>, quotes: bool) -> Seq<char>
    decreases s.len(),
{
    if s.len() > 0 && trimmable(s.last(), quotes) {
        strip_back(s.drop_last(), quotes)
    } else {
        s
    }
}

/// `s` without its leading and trailing trimmable characters.
pub open spec fn stripped(s: Seq<char>, quotes: bool) -> Seq<char> {
    strip_back(strip_front(s, quotes), quotes)
}

/// Whether `p` occurs in `s` as a contiguous part.
pub open spec fn occurs_in(p: Seq<char>, s: Seq<char>) -> bool {
    exists|i: int| 0 <= i <= s.len() - p.len() && #[trigger] s.subrange(i, i + p.len()) == p
}

/// Relies on `char::is_whitespace`, which is documented to test the
/// Unicode White_Space property.
#[verifier::external_body]
fn white_space(c: char) -> (r: bool)
    ensures
        r == is_white_space(c),
{
    c.is_whitespace()
}

/// Relies on `str::starts_with` with a `&str` pattern.
#[verifier::external_body]
pub(crate) fn has_prefix(s: &str, p: &str) -> (r: bool)
    ensures
        r == p@.is_prefix_of(s@),
{
    s.starts_with(p)
}

/// Relies on `str::ends_with` with a `&str` pattern.
#[verifier::external_body]
pub(crate) fn has_suffix(s: &str, p: &str) -> (r: bool)
    ensures
        r == p@.is_suffix_of(s@),
{
    s.ends_with(p)
}

/// Relies on `str::contains` with a `&str` pattern.
#[verifier::external_body]
pub(crate) fn has_infix(s: &str, p: &str) -> (r: bool)
    ensures
        r == occurs_in(p@, s@),
{
    s.contains(p)
}

fn is_trimmable(c: char, quotes: bool) -> (r: bool)
    ensures
        r == trimmable(c, quotes),
{
    white_space(c) || (quotes && (c == '"' || c == '\''))
}

/// Whether `s` holds nothing but white space.
pub fn is_blank(s: &str) -> (r: bool)
    ensures
        r == blank(s@),
{
    let n = s.unicode_len();
    let mut i: usize = 0;
    while i < n
        invariant
            n == s@.len(),
            i <= n,
            forall|k: int| 0 <= k < i ==> is_white_space(#[trigger] s@[k]),
        decreases n - i,
    {
        if !white_space(s.get_char(i)) {
            return false;
        }
        i = i + 1;
    }
    true
}

/// `s` without leading and trailing white space, and without surrounding
/// quotes as well when `quotes` is set.
pub fn trim_text(s: &str, quotes: bool) -> (r: String)
    ensures
        r@ == stripped(s@, quotes),
{
    let n = s.unicode_len();
    let mut lo: usize = 0;
    assert(s@.subrange(0, n as int) =~= s@);
    while lo < n && is_trimmable(s.get_char(lo), quotes)
        invariant
            n == s@.len(),
            lo <= n,
            strip_front(s@, quotes) == strip_front(s@.subrange(lo as int, n as int), quotes),
        decreases n - lo,
    {
        let ghost rest = s@.subrange(lo as int, n as int);
        assert(rest.subrange(1, rest.len() as int) =~= s@.subrange(lo + 1, n as int));
        lo = lo + 1;
    }
    let ghost front = s@.subrange(lo as int, n as int);
    assert(strip_front(s@, quotes) == front);
    let mut hi: usize = n;
    while hi > lo && is_trimmable(s.get_char(hi - 1), quotes)
        invariant
            n == s@.len(),
            lo <= hi <= n,
            front == s@.subrange(lo as int, n as int),
            strip_back(front, quotes) == strip_back(s@.subrange(lo as int, hi as int), quotes),
        decreases hi - lo,
    {
        let ghost rest = s@.subrange(lo as int, hi as int);
        assert(rest.drop_last() =~= s@.subrange(lo as int, hi - 1));
        hi = hi - 1;
    }
    s.substring_char(lo, hi).to_owned()
}

} // verus!
