//! Character-level text: white space, trimming and searching.
//!
//! Every specification here is over `Seq<char>`; the executable functions
//! work on character slices.

use vstd::prelude::*;

verus! {

/// Whether `c` is white space, that is, has the Unicode property
/// `White_Space`.
pub open spec fn is_space(c: char) -> bool {
    ||| '\u{9}' <= c <= '\u{D}'
    ||| c == ' '
    ||| c == '\u{85}'
    ||| c == '\u{A0}'
    ||| c == '\u{1680}'
    ||| '\u{2000}' <= c <= '\u{200A}'
    ||| c == '\u{2028}'
    ||| c == '\u{2029}'
    ||| c == '\u{202F}'
    ||| c == '\u{205F}'
    ||| c == '\u{3000}'
}

/// `s` without its leading white space.
pub open spec fn trim_start(s: Seq<char>) -> Seq<char>
    decreases s.len(),
{
    if s.len() > 0 && is_space(s.first()) {
        trim_start(s.drop_first())
    } else {
        s
    }
}

/// `s` without its trailing white space.
pub open spec fn trim_end(s: Seq<char>) -> Seq<char>
    decreases s.len(),
{
    if s.len() > 0 && is_space(s.last()) {
        trim_end(s.drop_last())
    } else {
        s
    }
}

/// `s` without the white space on either side.
pub open spec fn trim(s: Seq<char>) -> Seq<char> {
    trim_start(trim_end(s))
}

/// The least index at or after `from` at which `s` holds `c`, or `s.len()`
/// where there is none.
pub open spec fn position(s: Seq<char>, c: char, from: int) -> int
    decreases s.len() - from,
{
    if from < 0 || from >= s.len() {
        s.len() as int
    } else if s[from] == c {
        from
    } else {
        position(s, c, from + 1)
    }
}

/// Whether the two characters `->` stand in `s` at index `i`.
pub open spec fn arrow_at(s: Seq<char>, i: int) -> bool {
    0 <= i && i + 1 < s.len() && s[i] == '-' && s[i + 1] == '>'
}

/// The least index at or after `from` at which `->` stands in `s`, or
/// `s.len()` where there is none.
pub open spec fn arrow_position(s: Seq<char>, from: int) -> int
    decreases s.len() - from,
{
    if from < 0 || from >= s.len() {
        s.len() as int
    } else if arrow_at(s, from) {
        from
    } else {
        arrow_position(s, from + 1)
    }
}

/// The index that `position` gives is the one at which `c` first stands.
pub proof fn lemma_position_is(s: Seq<char>, c: char, from: int, at: int)
    requires
        0 <= from <= at <= s.len(),
        forall|k: int| from <= k < at ==> s[k] != c,
        at < s.len() ==> s[at] == c,
    ensures
        position(s, c, from) == at,
    decreases at - from,
{
    if from < at {
        lemma_position_is(s, c, from + 1, at);
    }
}

/// The index that `position` gives is at or after `from` and at most
/// `s.len()`.
pub proof fn lemma_position_bounds(s: Seq<char>, c: char, from: int)
    requires
        0 <= from <= s.len(),
    ensures
        from <= position(s, c, from) <= s.len(),
    decreases s.len() - from,
{
    if from < s.len() && s[from] != c {
        lemma_position_bounds(s, c, from + 1);
    }
}

/// Searching a text from `from` on finds what searching its part from `cut`
/// on finds, `cut` places further on.
pub proof fn lemma_position_skip(s: Seq<char>, c: char, cut: int, from: int)
    requires
        0 <= cut <= from <= s.len(),
    ensures
        position(s.skip(cut), c, from - cut) == position(s, c, from) - cut,
    decreases s.len() - from,
{
    if from < s.len() {
        assert(s.skip(cut)[from - cut] == s[from]);
        if s[from] != c {
            lemma_position_skip(s, c, cut, from + 1);
        }
    }
}

/// The index that `arrow_position` gives is the first at which `->` stands.
pub proof fn lemma_arrow_position_is(s: Seq<char>, from: int, at: int)
    requires
        0 <= from <= at <= s.len(),
        forall|k: int| from <= k < at ==> !arrow_at(s, k),
        at < s.len() ==> arrow_at(s, at),
    ensures
        arrow_position(s, from) == at,
    decreases at - from,
{
    if from < at {
        lemma_arrow_position_is(s, from + 1, at);
    }
}

/// Tells white space from other characters.
pub fn is_whitespace(c: char) -> (b: bool)
    ensures
        b == is_space(c),
{
    ('\u{9}' <= c && c <= '\u{D}') || c == ' ' || c == '\u{85}' || c == '\u{A0}' || c
        == '\u{1680}' || ('\u{2000}' <= c && c <= '\u{200A}') || c == '\u{2028}' || c
        == '\u{2029}' || c == '\u{202F}' || c == '\u{205F}' || c == '\u{3000}'
}

/// Finds the first `c` in `s` at or after `from`.
pub fn find_char(s: &[char], c: char, from: usize) -> (i: usize)
    requires
        from <= s.len(),
    ensures
        i == position(s@, c, from as int),
        from <= i <= s.len(),
{
    let mut i: usize = from;
    while i < s.len() && s[i] != c
        invariant
            from <= i <= s.len(),
            position(s@, c, from as int) == position(s@, c, i as int),
        decreases s.len() - i,
    {
        i += 1;
    }
    i
}

/// Finds the first `->` in `s`.
pub fn find_arrow(s: &[char]) -> (i: usize)
    ensures
        i == arrow_position(s@, 0),
        i <= s.len(),
        i < s.len() ==> i + 2 <= s.len(),
{
    let mut i: usize = 0;
    while i < s.len()
        invariant
            i <= s.len(),
            arrow_position(s@, 0) == arrow_position(s@, i as int),
        decreases s.len() - i,
    {
        if s[i] == '-' && i + 1 < s.len() && s[i + 1] == '>' {
            return i;
        }
        i += 1;
    }
    i
}

/// Finds where `s` without its trailing white space ends.
pub fn trim_end_bound(s: &[char]) -> (hi: usize)
    ensures
        hi <= s.len(),
        s@.take(hi as int) == trim_end(s@),
{
    let mut hi: usize = s.len();
    assert(s@.take(hi as int) =~= s@);
    while hi > 0 && is_whitespace(s[hi - 1])
        invariant
            hi <= s.len(),
            trim_end(s@) == trim_end(s@.take(hi as int)),
        decreases hi,
    {
        assert(s@.take(hi as int).drop_last() =~= s@.take(hi - 1));
        hi -= 1;
    }
    hi
}

/// Finds where `s` without the white space on either side begins and ends.
pub fn trim_bounds(s: &[char]) -> (r: (usize, usize))
    ensures
        r.0 <= r.1 <= s.len(),
        s@.subrange(r.0 as int, r.1 as int) == trim(s@),
{
    let hi: usize = trim_end_bound(s);
    let mut lo: usize = 0;
    assert(s@.subrange(0, hi as int) =~= s@.take(hi as int));
    while lo < hi && is_whitespace(s[lo])
        invariant
            lo <= hi <= s.len(),
            trim(s@) == trim_start(s@.subrange(lo as int, hi as int)),
        decreases hi - lo,
    {
        assert(s@.subrange(lo as int, hi as int).drop_first() =~= s@.subrange(lo + 1, hi as int));
        lo += 1;
    }
    (lo, hi)
}

/// Copies the characters of `s` into a vector.
pub fn chars_of(s: &str) -> (v: Vec<char>)
    ensures
        v@ == s@,
{
    let mut v: Vec<char> = Vec::new();
    for c in it: s.chars()
        invariant
            v@ == it.seq().take(it.index()),
            it.seq() == s@,
    {
        v.push(c);
    }
    v
}

/// Whether `s` holds the characters of `text`.
pub fn is_text(s: &[char], text: &str) -> (b: bool)
    ensures
        b == (s@ == text@),
{
    let other = chars_of(text);
    if s.len() != other.len() {
        return false;
    }
    let mut i: usize = 0;
    while i < s.len()
        invariant
            i <= s.len(),
            s.len() == other.len(),
            other@ == text@,
            forall|k: int| 0 <= k < i ==> s@[k] == other@[k],
        decreases s.len() - i,
    {
        if s[i] != other[i] {
            return false;
        }
        i += 1;
    }
    assert(s@ =~= other@);
    true
}

} // verus!
