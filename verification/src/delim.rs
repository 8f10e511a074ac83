//! The delimiter capability: a pattern that can locate its next
//! occurrence in a text, as a span of character indices.

use vstd::prelude::*;

verus! {

/// A span `[start, end)` that a delimiter may report for a text of
/// length `len`: non-empty and entirely inside the text.
pub open spec fn valid_span(start: int, end: int, len: int) -> bool {
    0 <= start && start < end && end <= len
}

/// Index of the first occurrence of the character `c` in `s` at or
/// after position `from`, if any.
pub open spec fn first_char_at(s: Seq<char>, c: char, from: int) -> Option<int>
    decreases s.len() - from,
{
    if from < 0 || from >= s.len() {
        None
    } else if s[from] == c {
        Some(from)
    } else {
        first_char_at(s, c, from + 1)
    }
}

/// What the single-character delimiter finds in `s`: the span of the
/// first occurrence of `c`, one character wide.
pub open spec fn char_find_spec(s: Seq<char>, c: char) -> Option<(int, int)> {
    match first_char_at(s, c, 0) {
        Some(i) => Some((i, i + 1)),
        None => None,
    }
}

/// The pattern `p` occurs in `s` at position `i`.
pub open spec fn match_at(s: Seq<char>, p: Seq<char>, i: int) -> bool {
    &&& 0 <= i
    &&& i + p.len() <= s.len()
    &&& s.subrange(i, i + p.len() as int) == p
}

/// Position of the leftmost occurrence of `p` in `s` at or after
/// position `from`, if any.
pub open spec fn first_match_at(s: Seq<char>, p: Seq<char>, from: int) -> Option<int>
    decreases s.len() - from + 1,
{
    if from < 0 || from + p.len() > s.len() {
        None
    } else if s.subrange(from, from + p.len() as int) == p {
        Some(from)
    } else {
        first_match_at(s, p, from + 1)
    }
}

/// What the substring delimiter finds in `s`: the span of the leftmost
/// occurrence of `p`, as wide as `p`.  An empty pattern never matches.
pub open spec fn substr_find_spec(s: Seq<char>, p: Seq<char>) -> Option<(int, int)> {
    if p.len() == 0 {
        None
    } else {
        match first_match_at(s, p, 0) {
            Some(i) => Some((i, i + p.len() as int)),
            None => None,
        }
    }
}

/// `first_char_at` returns the leftmost occurrence at or after `from`,
/// and `None` exactly when there is none.
pub proof fn lemma_first_char_at_props(s: Seq<char>, c: char, from: int)
    requires
        0 <= from <= s.len(),
    ensures
        match first_char_at(s, c, from) {
            Some(i) => from <= i < s.len() && s[i] == c && (forall|j: int|
                from <= j < i ==> s[j] != c),
            None => forall|j: int| from <= j < s.len() ==> s[j] != c,
        },
    decreases s.len() - from,
{
    if from < s.len() && s[from] != c {
        lemma_first_char_at_props(s, c, from + 1);
    }
}

/// `first_match_at` returns the leftmost occurrence at or after `from`,
/// and `None` exactly when there is none.
pub proof fn lemma_first_match_at_props(s: Seq<char>, p: Seq<char>, from: int)
    requires
        0 <= from <= s.len(),
    ensures
        match first_match_at(s, p, from) {
            Some(i) => from <= i && match_at(s, p, i) && (forall|j: int|
                from <= j < i ==> !match_at(s, p, j)),
            None => forall|j: int| from <= j ==> !match_at(s, p, j),
        },
    decreases s.len() - from,
{
    if from + p.len() > s.len() {
        // no occurrence fits at or after `from`
    } else if p.len() == 0 {
        assert(s.subrange(from, from + p.len() as int) =~= p);
    } else if s.subrange(from, from + p.len() as int) == p {
        // `from` itself is an occurrence
    } else {
        lemma_first_match_at_props(s, p, from + 1);
    }
}

/// Where the single-character search points when it succeeds, and what
/// its failure means.
pub proof fn lemma_char_find_spec_props(s: Seq<char>, c: char)
    ensures
        match char_find_spec(s, c) {
            Some(se) => {
                &&& valid_span(se.0, se.1, s.len() as int)
                &&& se.1 == se.0 + 1
                &&& s[se.0] == c
                &&& forall|j: int| 0 <= j < se.0 ==> s[j] != c
            },
            None => forall|j: int| 0 <= j < s.len() ==> s[j] != c,
        },
{
    lemma_first_char_at_props(s, c, 0);
}

/// Where the substring search points when it succeeds, and what its
/// failure means for a non-empty pattern.
pub proof fn lemma_substr_find_spec_props(s: Seq<char>, p: Seq<char>)
    ensures
        match substr_find_spec(s, p) {
            Some(se) => {
                &&& valid_span(se.0, se.1, s.len() as int)
                &&& se.1 == se.0 + p.len()
                &&& match_at(s, p, se.0)
                &&& forall|j: int| 0 <= j < se.0 ==> !match_at(s, p, j)
            },
            None => p.len() > 0 ==> forall|j: int| !match_at(s, p, j),
        },
{
    if p.len() > 0 {
        lemma_first_match_at_props(s, p, 0);
    }
}

/// A pattern that can locate its next occurrence in a text, returning
/// the span `[start, end)` of the match as character offsets.
///
/// `find_spec` is the mathematical statement of where the pattern next
/// occurs; `find_next` computes it.  Every implementation must show
/// that a reported span is non-empty and lies inside the text, so that
/// a splitting iterator can always consume it and shrink.
pub trait Delimiter {
    /// The span this delimiter matches in `s`, if any.
    spec fn find_spec(&self, s: Seq<char>) -> Option<(int, int)>;

    /// A reported span is non-empty and lies inside the text.
    proof fn lemma_find_spec_in_range(&self, s: Seq<char>)
        ensures
            self.find_spec(s) matches Some(se) ==> valid_span(se.0, se.1, s.len() as int),
    ;

    /// Locate the next occurrence of this delimiter in `s`.
    fn find_next(&self, s: &str) -> (r: Option<(usize, usize)>)
        ensures
            match (r, self.find_spec(s@)) {
                (Some(rr), Some(se)) => rr.0 == se.0 && rr.1 == se.1,
                (None, None) => true,
                _ => false,
            },
    ;
}

impl Delimiter for char {
    open spec fn find_spec(&self, s: Seq<char>) -> Option<(int, int)> {
        char_find_spec(s, *self)
    }

    proof fn lemma_find_spec_in_range(&self, s: Seq<char>) {
        lemma_char_find_spec_props(s, *self);
    }

    fn find_next(&self, s: &str) -> (r: Option<(usize, usize)>) {
        let len: usize = s.unicode_len();
        let mut i: usize = 0;
        while i < len
            invariant
                len == s@.len(),
                0 <= i <= len,
                first_char_at(s@, *self, 0) == first_char_at(s@, *self, i as int),
            decreases len - i,
        {
            if s.get_char(i) == *self {
                assert(first_char_at(s@, *self, i as int) == Some(i as int));
                return Some((i, i + 1));
            }
            assert(first_char_at(s@, *self, i as int) == first_char_at(s@, *self, i + 1));
            i = i + 1;
        }
        assert(first_char_at(s@, *self, i as int) is None);
        None
    }
}

/// The characters of `s` starting at `i` begin with the characters of
/// `p`; equivalently, `p` occurs in `s` at position `i`.
fn matches_at(s: &str, p: &str, i: usize) -> (r: bool)
    requires
        i + p@.len() <= s@.len(),
    ensures
        r == match_at(s@, p@, i as int),
{
    let s_len: usize = s.unicode_len();
    let p_len: usize = p.unicode_len();
    let mut j: usize = 0;
    while j < p_len
        invariant
            s_len == s@.len(),
            p_len == p@.len(),
            i + p_len <= s_len,
            0 <= j <= p_len,
            forall|k: int| 0 <= k < j ==> s@[i + k] == p@[k],
        decreases p_len - j,
    {
        if s.get_char(i + j) != p.get_char(j) {
            assert(!match_at(s@, p@, i as int)) by {
                if s@.subrange(i as int, i + p@.len() as int) == p@ {
                    assert(s@.subrange(i as int, i + p@.len() as int)[j as int] == s@[i + j]);
                }
            }
            return false;
        }
        j = j + 1;
    }
    assert(s@.subrange(i as int, i + p@.len() as int) =~= p@);
    true
}

impl<'p> Delimiter for &'p str {
    open spec fn find_spec(&self, s: Seq<char>) -> Option<(int, int)> {
        substr_find_spec(s, self@)
    }

    proof fn lemma_find_spec_in_range(&self, s: Seq<char>) {
        lemma_substr_find_spec_props(s, self@);
    }

    fn find_next(&self, s: &str) -> (r: Option<(usize, usize)>) {
        let p_len: usize = self.unicode_len();
        if p_len == 0 {
            return None;
        }
        let s_len: usize = s.unicode_len();
        if s_len < p_len {
            assert(first_match_at(s@, self@, 0) is None);
            return None;
        }
        let mut i: usize = 0;
        while i <= s_len - p_len
            invariant
                s_len == s@.len(),
                p_len == self@.len(),
                1 <= p_len <= s_len,
                0 <= i <= s_len - p_len + 1,
                first_match_at(s@, self@, 0) == first_match_at(s@, self@, i as int),
            decreases s_len - i,
        {
            if matches_at(s, self, i) {
                assert(first_match_at(s@, self@, i as int) == Some(i as int));
                return Some((i, i + p_len));
            }
            assert(first_match_at(s@, self@, i as int) == first_match_at(s@, self@, i + 1));
            i = i + 1;
        }
        assert(first_match_at(s@, self@, i as int) is None);
        None
    }
}

} // verus!
