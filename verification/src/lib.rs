//! Lazy, allocation-free string splitting.
//!
//! A [`StrSplit`] iterates over the segments of a source text that lie
//! between occurrences of a delimiter, yielding borrowed slices of the
//! source without copying it.  A delimiter is anything that implements
//! [`Delimiter`]: a literal substring or a single character are provided.
//!
//! Positions throughout the crate are character indices into the text's
//! character sequence (the view of a `str` is a `Seq<char>`).

pub mod delim;
pub mod model;
pub mod split;

pub use crate::delim::Delimiter;
pub use crate::split::until_char;
pub use crate::split::StrSplit;
