//! The parser of lettered policy text.

pub use super::parse::ParseError;
use super::parse::{parse_tokens, parse_tokens_spec, parse_view, ParseFailure};
use super::scanner::{scan_spec, Scanner};
use super::LogicTree;
use vstd::prelude::*;

verus! {

/// A parsed policy whose terminals are letters.
pub type TokenTree = LogicTree<char>;

/// The tree of a lettered text.
pub open spec fn parse_spec(text: Seq<char>) -> Result<TokenTree, ParseFailure> {
    match scan_spec(text) {
        Err(failure) => Err(ParseFailure::ScanError(failure)),
        Ok(tokens) => parse_tokens_spec(tokens),
    }
}

/// Parses lettered policy text into its tree.
pub fn parse(source: &str) -> (result: Result<TokenTree, ParseError>)
    ensures
        parse_view(result) == parse_spec(source@),
        result matches Ok(tree) ==> tree.well_formed(),
{
    match Scanner::scan(source) {
        Ok(scanned) => parse_tokens(&scanned),
        Err(error) => Err(ParseError::ScanError(error)),
    }
}

} // verus!
