//! A mathematical model of a whole split: the sequence of segments an
//! iterator will yield, the matched delimiter occurrences between
//! them, and the laws that tie the two back to the source text.

use vstd::prelude::*;

use crate::delim::char_find_spec;
use crate::delim::lemma_char_find_spec_props;
use crate::delim::lemma_substr_find_spec_props;
use crate::delim::match_at;
use crate::delim::substr_find_spec;
use crate::delim::valid_span;
use crate::delim::Delimiter;

verus! {

/// The segments that splitting `s` on `d` yields, in order.  A span
/// that would not be a valid one is treated as no match, so the
/// definition is total; every `Delimiter` only reports valid spans.
pub open spec fn split_spec<D: Delimiter>(d: D, s: Seq<char>) -> Seq<Seq<char>>
    decreases s.len(),
{
    match d.find_spec(s) {
        Some(se) => if valid_span(se.0, se.1, s.len() as int) {
            seq![s.subrange(0, se.0)] + split_spec(d, s.subrange(se.1, s.len() as int))
        } else {
            seq![s]
        },
        None => seq![s],
    }
}

/// The delimiter occurrences that splitting `s` on `d` consumes, in
/// order: one fewer than the segments.
pub open spec fn seps_spec<D: Delimiter>(d: D, s: Seq<char>) -> Seq<Seq<char>>
    decreases s.len(),
{
    match d.find_spec(s) {
        Some(se) => if valid_span(se.0, se.1, s.len() as int) {
            seq![s.subrange(se.0, se.1)] + seps_spec(d, s.subrange(se.1, s.len() as int))
        } else {
            seq![]
        },
        None => seq![],
    }
}

/// Interleave segments with the separators that were found between
/// them: `segments[0] + seps[0] + segments[1] + ... + segments[n]`.
pub open spec fn rejoin(segments: Seq<Seq<char>>, seps: Seq<Seq<char>>) -> Seq<char>
    decreases segments.len(),
{
    if segments.len() == 0 {
        Seq::empty()
    } else if segments.len() == 1 || seps.len() == 0 {
        segments[0]
    } else {
        segments[0] + seps[0] + rejoin(segments.drop_first(), seps.drop_first())
    }
}

/// Splitting yields at least one segment, whatever the text and the
/// delimiter.
pub proof fn lemma_at_least_one<D: Delimiter>(d: D, s: Seq<char>)
    ensures
        split_spec(d, s).len() >= 1,
{
}

/// A delimiter that finds nothing leaves the text in one piece: the
/// single segment is the whole text.
pub proof fn lemma_no_match<D: Delimiter>(d: D, s: Seq<char>)
    requires
        d.find_spec(s) is None,
    ensures
        split_spec(d, s) == seq![s],
        seps_spec(d, s) == Seq::<Seq<char>>::empty(),
{
}

/// Rejoining the segments with the consumed delimiter occurrences
/// reproduces the source text exactly, and there is always exactly one
/// more segment than separators.
pub proof fn lemma_reconstruction<D: Delimiter>(d: D, s: Seq<char>)
    ensures
        split_spec(d, s).len() == seps_spec(d, s).len() + 1,
        rejoin(split_spec(d, s), seps_spec(d, s)) == s,
    decreases s.len(),
{
    match d.find_spec(s) {
        Some(se) => {
            if valid_span(se.0, se.1, s.len() as int) {
                let rest = s.subrange(se.1, s.len() as int);
                lemma_reconstruction(d, rest);
                let segments = split_spec(d, s);
                let seps = seps_spec(d, s);
                assert(segments.drop_first() =~= split_spec(d, rest));
                assert(seps.drop_first() =~= seps_spec(d, rest));
                assert(rejoin(segments, seps) =~= s);
            }
        },
        None => {},
    }
}

/// A character that occurs nowhere in the text leaves it in one
/// piece: the single segment is the whole text.
pub proof fn lemma_no_match_char(c: char, s: Seq<char>)
    requires
        forall|i: int| 0 <= i < s.len() ==> s[i] != c,
    ensures
        split_spec(c, s) == seq![s],
{
    lemma_char_find_spec_props(s, c);
}

/// A pattern that occurs nowhere in the text leaves it in one piece:
/// the single segment is the whole text.
pub proof fn lemma_no_match_substr(p: &str, s: Seq<char>)
    requires
        forall|i: int| !match_at(s, p@, i),
    ensures
        split_spec(p, s) == seq![s],
{
    lemma_substr_find_spec_props(s, p@);
}

/// The empty pattern is treated as never matching, so splitting on it
/// leaves the text in one piece.
pub proof fn lemma_empty_pattern(p: &str, s: Seq<char>)
    requires
        p@.len() == 0,
    ensures
        split_spec(p, s) == seq![s],
{
}

/// A text that ends with the delimiter character splits into a
/// sequence whose final segment is empty.
pub proof fn lemma_trailing_empty_char(c: char, s: Seq<char>)
    requires
        s.len() > 0,
        s[s.len() - 1] == c,
    ensures
        split_spec(c, s).last() == Seq::<char>::empty(),
    decreases s.len(),
{
    lemma_char_find_spec_props(s, c);
    match char_find_spec(s, c) {
        Some(se) => {
            let rest = s.subrange(se.1, s.len() as int);
            if se.0 == s.len() - 1 {
                lemma_char_find_spec_props(rest, c);
                assert(split_spec(c, rest) == seq![rest]);
                assert(rest =~= Seq::<char>::empty());
            } else {
                assert(rest[rest.len() - 1] == s[s.len() - 1]);
                lemma_trailing_empty_char(c, rest);
                let sp = split_spec(c, rest);
                assert((seq![s.subrange(0, se.0)] + sp).last() == sp.last());
            }
        },
        None => {
            assert(false);
        },
    }
}

/// A text that ends with an occurrence of the pattern splits into a
/// sequence whose final segment is empty, provided no other occurrence
/// of the pattern overlaps that trailing occurrence.  (When one does,
/// the leftmost search can consume it and run past the trailing
/// occurrence, and the final segment is then not empty.)
pub proof fn lemma_trailing_empty_substr(p: &str, s: Seq<char>)
    requires
        p@.len() >= 1,
        p@.len() <= s.len(),
        match_at(s, p@, s.len() - p@.len()),
        forall|i: int|
            s.len() - 2 * p@.len() < i < s.len() - p@.len() ==> !match_at(s, p@, i),
    ensures
        split_spec(p, s).last() == Seq::<char>::empty(),
    decreases s.len(),
{
    let plen = p@.len() as int;
    let q = s.len() - plen;
    lemma_substr_find_spec_props(s, p@);
    match substr_find_spec(s, p@) {
        Some(se) => {
            let start = se.0;
            let end = se.1;
            assert(start <= q);
            let rest = s.subrange(end, s.len() as int);
            if start == q {
                assert(substr_find_spec(rest, p@) is None);
                assert(split_spec(p, rest) == seq![rest]);
                assert(rest =~= Seq::<char>::empty());
            } else {
                assert(start <= q - plen);
                assert(match_at(rest, p@, rest.len() - plen)) by {
                    assert(rest.subrange(rest.len() - plen, rest.len() as int) =~= s.subrange(
                        q,
                        s.len() as int,
                    ));
                }
                assert forall|i: int|
                    rest.len() - 2 * plen < i < rest.len() - plen implies !match_at(
                    rest,
                    p@,
                    i,
                ) by {
                    if match_at(rest, p@, i) {
                        assert(s.subrange(end + i, end + i + plen) =~= rest.subrange(
                            i,
                            i + plen,
                        ));
                        assert(match_at(s, p@, end + i));
                    }
                }
                lemma_trailing_empty_substr(p, rest);
                let sp = split_spec(p, rest);
                assert((seq![s.subrange(0, start)] + sp).last() == sp.last());
            }
        },
        None => {
            assert(false);
        },
    }
}

} // verus!
