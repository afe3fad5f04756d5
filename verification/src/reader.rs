//! Source-access failures and character/string conversions.
//!
//! The tokenizer works on an in-memory sequence of characters; reading
//! that text from a file or another byte source is the embedding
//! program's business. What the tokenizer shares with any such source
//! is the failure vocabulary below: reaching the end of the input is a
//! normal terminal condition at a token boundary and a failure inside
//! a token, and both are reported through `ReaderError::EOF`.

use vstd::prelude::*;

verus! {

/// Failure while obtaining source characters.
#[derive(Debug, Clone, PartialEq)]
pub enum ReaderError {
    /// An I/O fault outside the tokenizer's control.
    IoError(String),
    /// A read returned the wrong amount of data.
    ReadError(String),
    /// No characters are left.
    EOF,
}

/// Mathematical value of a `ReaderError`.
pub enum ReaderErrorView {
    IoError(Seq<char>),
    ReadError(Seq<char>),
    EOF,
}

impl View for ReaderError {
    type V = ReaderErrorView;

    open spec fn view(&self) -> ReaderErrorView {
        match self {
            ReaderError::IoError(s) => ReaderErrorView::IoError(s@),
            ReaderError::ReadError(s) => ReaderErrorView::ReadError(s@),
            ReaderError::EOF => ReaderErrorView::EOF,
        }
    }
}

/// Relies on `str::chars` and `Vec`'s `FromIterator`: the characters of
/// a string, in order, as a vector.
#[verifier::external_body]
pub(crate) fn str_to_chars(s: &str) -> (r: Vec<char>)
    ensures
        r@ == s@,
{
    s.chars().collect()
}

/// Relies on `String`'s `FromIterator` over `char`: collects exactly
/// the characters `v[from..to]`, in order.
#[verifier::external_body]
pub(crate) fn string_from_chars(v: &Vec<char>, from: usize, to: usize) -> (r: String)
    requires
        from <= to <= v@.len(),
    ensures
        r@ == v@.subrange(from as int, to as int),
{
    v[from..to].iter().collect()
}

} // verus!
