//! The scanner of lettered policy text, in which a terminal is written as
//! one small letter.

use super::scan::{
    balanced, nesting, never_negative, prepend, scan_view, take_token, LexemeError, LexemeFailure,
    ScanError, ScanFailure,
};
use super::Token;
use crate::gate::Gate;
use crate::text::{blank, is_blank, lemma_run_len_bound, run_len, string_of, CharClass};
use vstd::prelude::*;

verus! {

/// Why a lettered text has no token sequence.
pub type ScannerError = ScanError;

/// Whether `c` writes a terminal: a small letter.
pub open spec fn is_terminal(c: char) -> bool {
    'a' <= c && c <= 'z'
}

/// The lexeme that starts at `from`: the token or the failure, and the
/// position behind it.
pub open spec fn next_lexeme(text: Seq<char>, from: int) -> (Result<Token<char>, ScanFailure>, int) {
    let c = text[from];
    if is_blank(c) {
        (Ok(Token::Whitespace), from + 1)
    } else if c == '(' {
        (Ok(Token::OpeningParenthesis), from + 1)
    } else if c == ')' {
        (Ok(Token::ClosingParenthesis), from + 1)
    } else if is_terminal(c) {
        (Ok(Token::Terminal(c)), from + 1)
    } else if CharClass::Upper.holds(c) {
        let end = from + 1 + run_len(text, from + 1, CharClass::Upper);
        let word = text.subrange(from, end);
        match Gate::from_keyword(word) {
            Some(gate) => (Ok(Token::Gate(gate)), end),
            None => (Err(ScanFailure::Transparent(LexemeFailure::UnknownGate(word))), end),
        }
    } else {
        (Err(ScanFailure::InvalidToken(c, from)), from + 1)
    }
}

/// A lexeme is not empty and ends within the text.
pub proof fn lemma_next_lexeme_end(text: Seq<char>, from: int)
    requires
        0 <= from < text.len(),
    ensures
        from < next_lexeme(text, from).1 <= text.len(),
{
    lemma_run_len_bound(text, from + 1, CharClass::Upper);
}

/// The tokens of `text` from `from` on, without the whitespace, or the
/// first failure.
pub open spec fn scan_tokens(text: Seq<char>, from: int) -> Result<Seq<Token<char>>, ScanFailure>
    decreases text.len() - from,
{
    if from < 0 || from >= text.len() {
        Ok(Seq::empty())
    } else {
        proof {
            lemma_next_lexeme_end(text, from);
        }
        let (lexeme, end) = next_lexeme(text, from);
        match lexeme {
            Err(failure) => Err(failure),
            Ok(token) => match scan_tokens(text, end) {
                Err(failure) => Err(failure),
                Ok(rest) => if token is Whitespace {
                    Ok(rest)
                } else {
                    Ok(seq![token] + rest)
                },
            },
        }
    }
}

/// The token sequence of a lettered text: its lexemes without the
/// whitespace, provided that there is one and that the parentheses are
/// balanced.
pub open spec fn scan_spec(text: Seq<char>) -> Result<Seq<Token<char>>, ScanFailure> {
    match scan_tokens(text, 0) {
        Err(failure) => Err(failure),
        Ok(tokens) => if tokens.len() == 0 {
            Err(ScanFailure::EmptyExpression)
        } else if !balanced(tokens) {
            Err(ScanFailure::InvalidParentheses)
        } else {
            Ok(tokens)
        },
    }
}

/// Reads a lettered text lexeme by lexeme.
pub struct Scanner {
    cursor: super::scan::Scanner,
}

impl Scanner {
    /// Scans `source` into its tokens. Whitespace separates tokens and is
    /// left out; a small letter is a terminal, a run of capitals a gate.
    pub fn scan(source: &str) -> (result: Result<Vec<Token<char>>, ScannerError>)
        ensures
            scan_view(result) == scan_spec(source@),
    {
        let mut scanner = Scanner { cursor: super::scan::Scanner::start(source) };
        let mut tokens: Vec<Token<char>> = Vec::new();
        let mut depth: usize = 0;
        let mut dipped = false;
        loop
            invariant
                scanner.cursor.wf(),
                scanner.cursor.source@ == source@,
                scan_tokens(source@, 0) == prepend(
                    tokens@,
                    scan_tokens(source@, scanner.cursor.position as int),
                ),
                tokens.len() <= scanner.cursor.position,
                dipped == !never_negative(tokens@),
                !dipped ==> depth == nesting(tokens@),
                depth <= tokens.len(),
            ensures
                scanner.cursor.position == source@.len(),
            decreases source@.len() - scanner.cursor.position,
        {
            let ghost before = scanner.cursor.position as int;
            match scanner.scan_next() {
                Ok(token) => {
                    proof {
                        lemma_next_lexeme_end(source@, before);
                    }
                    match token {
                        Token::Whitespace => {},
                        _ => {
                            let ghost earlier = tokens@;
                            take_token(&mut tokens, token, &mut depth, &mut dipped);
                            proof {
                                let rest = scan_tokens(source@, scanner.cursor.position as int);
                                if rest is Ok {
                                    assert(earlier + (seq![token] + rest->Ok_0) =~= tokens@
                                        + rest->Ok_0);
                                }
                            }
                        },
                    }
                },
                Err(ScanError::EofReached) => {
                    break ;
                },
                Err(error) => {
                    proof {
                        lemma_next_lexeme_end(source@, before);
                    }
                    return Err(error);
                },
            }
        }
        if tokens.len() == 0 {
            Err(ScanError::EmptyExpression)
        } else if dipped || depth != 0 {
            Err(ScanError::InvalidParentheses)
        } else {
            Ok(tokens)
        }
    }

    /// Reads the lexeme at the current position and moves behind it.
    fn scan_next(&mut self) -> (result: Result<Token<char>, ScannerError>)
        requires
            old(self).cursor.wf(),
        ensures
            final(self).cursor.wf(),
            final(self).cursor.source@ == old(self).cursor.source@,
            old(self).cursor.position >= old(self).cursor.source.len() ==> {
                &&& result matches Err(ScanError::EofReached)
                &&& final(self).cursor.position == old(self).cursor.position
            },
            old(self).cursor.position < old(self).cursor.source.len() ==> {
                let (lexeme, end) = next_lexeme(
                    old(self).cursor.source@,
                    old(self).cursor.position as int,
                );
                &&& final(self).cursor.position == end
                &&& final(self).cursor.lexeme@ == old(self).cursor.source@.subrange(
                    old(self).cursor.position as int,
                    end,
                )
                &&& !(lexeme matches Err(ScanFailure::EofReached))
                &&& match result {
                    Ok(token) => lexeme == Ok::<Token<char>, ScanFailure>(token),
                    Err(error) => lexeme == Err::<Token<char>, ScanFailure>(error@),
                }
            },
    {
        self.cursor.begin_lexeme();
        let start: usize = self.cursor.position;
        let next_char = match self.cursor.advance() {
            Some(c) => c,
            None => {
                return Err(ScanError::EofReached);
            },
        };
        if blank(next_char) {
            Ok(Token::Whitespace)
        } else if next_char == '(' {
            Ok(Token::OpeningParenthesis)
        } else if next_char == ')' {
            Ok(Token::ClosingParenthesis)
        } else if 'a' <= next_char && next_char <= 'z' {
            Ok(Token::Terminal(next_char))
        } else if CharClass::Upper.test(next_char) {
            self.cursor.advance_while(CharClass::Upper);
            match Gate::from_chars(&self.cursor.lexeme) {
                Some(gate) => Ok(Token::Gate(gate)),
                None => Err(
                    ScanError::Transparent(
                        LexemeError::UnknownGate(string_of(&self.cursor.lexeme)),
                    ),
                ),
            }
        } else {
            Err(ScanError::InvalidToken(next_char, start))
        }
    }
}

} // verus!
