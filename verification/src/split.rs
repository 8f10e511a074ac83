//! The splitting iterator and the convenience prefix extraction.

use vstd::prelude::*;

use crate::delim::char_find_spec;
use crate::delim::lemma_char_find_spec_props;
use crate::delim::Delimiter;
use crate::model::split_spec;

verus! {

/// A lazy splitting iterator: the not-yet-consumed suffix of the
/// source text, or `None` once the sequence is exhausted, together
/// with the delimiter looked for.
#[derive(Debug)]
pub struct StrSplit<'a, D> {
    /// The unconsumed suffix of the source text; `None` once the
    /// sequence is exhausted, and it never becomes `Some` again.
    pub remainder: Option<&'a str>,
    /// The pattern that separates the segments.
    pub delimiter: D,
}

impl<'a, D> StrSplit<'a, D> {
    /// Start splitting `haystack` on `delimiter`: the whole text is
    /// still to be consumed.
    pub fn new(haystack: &'a str, delimiter: D) -> (r: Self)
        ensures
            r.remainder matches Some(h) && h@ == haystack@,
            r.delimiter == delimiter,
    {
        StrSplit { remainder: Some(haystack), delimiter }
    }
}

impl<'a, D: Delimiter> StrSplit<'a, D> {
    /// Advance the iterator: yield the segment before the next
    /// delimiter occurrence, or the whole remainder (once) when the
    /// delimiter no longer occurs, or nothing when already exhausted.
    ///
    /// Exhaustion is monotonic: once the remainder is `None` it stays
    /// `None`, and nothing further is yielded.
    pub fn next(&mut self) -> (r: Option<&'a str>)
        ensures
            final(self).delimiter == old(self).delimiter,
            match old(self).remainder {
                None => r is None && final(self).remainder is None,
                Some(rem) => match old(self).delimiter.find_spec(rem@) {
                    Some(se) => {
                        &&& r matches Some(seg) && seg@ == rem@.subrange(0, se.0)
                        &&& final(self).remainder matches Some(rest) && rest@ == rem@.subrange(
                            se.1,
                            rem@.len() as int,
                        )
                    },
                    None => {
                        &&& r matches Some(seg) && seg@ == rem@
                        &&& final(self).remainder is None
                    },
                },
            },
            old(self).remainder matches Some(rem) ==> r matches Some(seg) && ({
                &&& seg@ == split_spec(old(self).delimiter, rem@)[0]
                &&& match final(self).remainder {
                    Some(rest) => split_spec(old(self).delimiter, rem@) == seq![seg@]
                        + split_spec(old(self).delimiter, rest@),
                    None => split_spec(old(self).delimiter, rem@) == seq![seg@],
                }
            }),
    {
        match self.remainder {
            None => None,
            Some(rem) => {
                proof {
                    self.delimiter.lemma_find_spec_in_range(rem@);
                }
                match self.delimiter.find_next(rem) {
                    Some((start, end)) => {
                        let until = rem.substring_char(0, start);
                        let rest = rem.substring_char(end, rem.unicode_len());
                        self.remainder = Some(rest);
                        proof {
                            assert(split_spec(self.delimiter, rem@) =~= seq![until@]
                                + split_spec(self.delimiter, rest@));
                        }
                        Some(until)
                    },
                    None => {
                        self.remainder = None;
                        proof {
                            assert(split_spec(self.delimiter, rem@) =~= seq![rem@]);
                        }
                        Some(rem)
                    },
                }
            },
        }
    }
}

/// The prefix of `s` that lies before the first occurrence of `c`, or
/// the whole of `s` when `c` does not occur in it.
pub open spec fn until_char_spec(s: Seq<char>, c: char) -> Seq<char> {
    match char_find_spec(s, c) {
        Some(se) => s.subrange(0, se.0),
        None => s,
    }
}

/// Return the slice of `s` preceding the first occurrence of `c`, or
/// all of `s` if `c` never occurs: the first segment of splitting `s`
/// on `c`, which always exists.
pub fn until_char<'a>(s: &'a str, c: char) -> (r: &'a str)
    ensures
        r@ == until_char_spec(s@, c),
        r@ == s@.subrange(0, r@.len() as int),
        forall|j: int| 0 <= j < r@.len() ==> r@[j] != c,
        r@.len() < s@.len() ==> s@[r@.len() as int] == c,
{
    proof {
        lemma_char_find_spec_props(s@, c);
    }
    let mut iter = StrSplit::new(s, c);
    iter.next().unwrap()
}

} // verus!
