//! The lexer of list notation.
//!
//! Parentheses are counted here and matched by the parser: a text passes
//! that opens as many as it closes.

use crate::data::{Gate, Token};
use crate::text::{
    blank, is_blank, chars_of, decimal_value, lemma_run_len_bound, parse_decimal, run_end, run_len, slice_of,
    string_of, uppercase, uppercase_of, CharClass,
};
use vstd::prelude::*;

verus! {

/// Why a list-notation text has no token sequence.
#[derive(Debug, PartialEq)]
pub enum LexingError {
    /// The text opens and closes parentheses in different numbers.
    ParenCountMismatch,
    /// The letters, in capitals, are no gate keyword.
    NoSuchGate(String),
    /// The digits write a number beyond the 16 bits of a terminal id.
    ParseIntError,
    /// The character, at the given position, starts no token.
    InvalidCharacter(char, usize),
}

/// The value of a [`LexingError`].
pub enum LexingFailure {
    ParenCountMismatch,
    NoSuchGate(Seq<char>),
    ParseIntError,
    InvalidCharacter(char, int),
}

impl Clone for LexingError {
    fn clone(&self) -> (copy: Self)
        ensures
            copy@ == self@,
    {
        match self {
            LexingError::ParenCountMismatch => LexingError::ParenCountMismatch,
            LexingError::NoSuchGate(word) => LexingError::NoSuchGate(word.clone()),
            LexingError::ParseIntError => LexingError::ParseIntError,
            LexingError::InvalidCharacter(c, at) => LexingError::InvalidCharacter(*c, *at),
        }
    }
}

impl View for LexingError {
    type V = LexingFailure;

    open spec fn view(&self) -> LexingFailure {
        match self {
            LexingError::ParenCountMismatch => LexingFailure::ParenCountMismatch,
            LexingError::NoSuchGate(word) => LexingFailure::NoSuchGate(word@),
            LexingError::ParseIntError => LexingFailure::ParseIntError,
            LexingError::InvalidCharacter(c, at) => LexingFailure::InvalidCharacter(*c, *at as int),
        }
    }
}

/// The lexeme that starts at `from`: its token (none for a blank) or the
/// failure, and the position behind it. Letters are read without regard to
/// their case.
pub open spec fn next_lexeme(text: Seq<char>, from: int) -> (
    Result<Option<Token>, LexingFailure>,
    int,
) {
    let c = text[from];
    if is_blank(c) {
        (Ok(None), from + 1)
    } else if c == '(' {
        (Ok(Some(Token::ParenOpen)), from + 1)
    } else if c == ')' {
        (Ok(Some(Token::ParenClose)), from + 1)
    } else if CharClass::Digit.holds(c) {
        let end = from + run_len(text, from, CharClass::Digit);
        let word = text.subrange(from, end);
        if decimal_value(word) <= u16::MAX {
            (Ok(Some(Token::TerminalId(decimal_value(word) as u16))), end)
        } else {
            (Err(LexingFailure::ParseIntError), end)
        }
    } else if CharClass::Letter.holds(c) {
        let end = from + run_len(text, from, CharClass::Letter);
        let word = uppercase(text.subrange(from, end));
        match Gate::from_keyword(word) {
            Some(gate) => (Ok(Some(Token::Gate(gate))), end),
            None => (Err(LexingFailure::NoSuchGate(word)), end),
        }
    } else {
        (Err(LexingFailure::InvalidCharacter(c, from)), from + 1)
    }
}

/// A lexeme is not empty and ends within the text.
pub proof fn lemma_next_lexeme_end(text: Seq<char>, from: int)
    requires
        0 <= from < text.len(),
    ensures
        from < next_lexeme(text, from).1 <= text.len(),
{
    lemma_run_len_bound(text, from, CharClass::Digit);
    lemma_run_len_bound(text, from, CharClass::Letter);
}

/// The tokens of `text` from `from` on, or the first failure.
pub open spec fn lex_tokens(text: Seq<char>, from: int) -> Result<Seq<Token>, LexingFailure>
    decreases text.len() - from,
{
    if from < 0 || from >= text.len() {
        Ok(Seq::empty())
    } else {
        proof {
            lemma_next_lexeme_end(text, from);
        }
        let (lexeme, end) = next_lexeme(text, from);
        match lexeme {
            Err(failure) => Err(failure),
            Ok(token) => match lex_tokens(text, end) {
                Err(failure) => Err(failure),
                Ok(rest) => match token {
                    None => Ok(rest),
                    Some(token) => Ok(seq![token] + rest),
                },
            },
        }
    }
}

/// How often `token` occurs in `tokens`.
pub open spec fn count_of(tokens: Seq<Token>, token: Token) -> nat
    decreases tokens.len(),
{
    if tokens.len() == 0 {
        0
    } else {
        count_of(tokens.drop_last(), token) + if tokens.last() == token {
            1nat
        } else {
            0nat
        }
    }
}

/// The token sequence of a list-notation text: its lexemes, provided that as
/// many parentheses open as close.
pub open spec fn tokenize_spec(text: Seq<char>) -> Result<Seq<Token>, LexingFailure> {
    match lex_tokens(text, 0) {
        Err(failure) => Err(failure),
        Ok(tokens) => if count_of(tokens, Token::ParenOpen) != count_of(
            tokens,
            Token::ParenClose,
        ) {
            Err(LexingFailure::ParenCountMismatch)
        } else {
            Ok(tokens)
        },
    }
}

/// The value of what [`tokenize`] returns.
pub open spec fn tokenize_view(result: Result<Vec<Token>, LexingError>) -> Result<
    Seq<Token>,
    LexingFailure,
> {
    match result {
        Ok(tokens) => Ok(tokens@),
        Err(error) => Err(error@),
    }
}

/// `tokens` put before the outcome of lexing the rest.
pub open spec fn prepend(tokens: Seq<Token>, rest: Result<Seq<Token>, LexingFailure>) -> Result<
    Seq<Token>,
    LexingFailure,
> {
    match rest {
        Ok(more) => Ok(tokens + more),
        Err(failure) => Err(failure),
    }
}

/// Splits list-notation text into its tokens.
pub fn tokenize(input: &str) -> (result: Result<Vec<Token>, LexingError>)
    ensures
        tokenize_view(result) == tokenize_spec(input@),
{
    let chars = chars_of(input);
    let mut tokens: Vec<Token> = Vec::new();
    let mut open: usize = 0;
    let mut close: usize = 0;
    let mut position: usize = 0;
    while position < chars.len()
        invariant
            chars@ == input@,
            position <= chars.len(),
            tokens.len() <= position,
            lex_tokens(input@, 0) == prepend(tokens@, lex_tokens(input@, position as int)),
            open == count_of(tokens@, Token::ParenOpen),
            close == count_of(tokens@, Token::ParenClose),
            open <= tokens.len(),
            close <= tokens.len(),
        decreases chars.len() - position,
    {
        let ghost from = position as int;
        proof {
            lemma_next_lexeme_end(input@, from);
        }
        let c = chars[position];
        let token = if blank(c) {
            position += 1;
            None
        } else if c == '(' {
            position += 1;
            open += 1;
            Some(Token::ParenOpen)
        } else if c == ')' {
            position += 1;
            close += 1;
            Some(Token::ParenClose)
        } else if CharClass::Digit.test(c) {
            let end = run_end(&chars, position, CharClass::Digit);
            let word = slice_of(&chars, position, end);
            proof {
                lemma_run_len_bound(chars@, from, CharClass::Digit);
            }
            position = end;
            match parse_decimal(&word) {
                Some(id) => Some(Token::TerminalId(id)),
                None => {
                    return Err(LexingError::ParseIntError);
                },
            }
        } else if CharClass::Letter.test(c) {
            let end = run_end(&chars, position, CharClass::Letter);
            let gate_str = uppercase_of(&chars, position, end);
            position = end;
            match Gate::from_chars(&gate_str) {
                Some(gate) => Some(Token::Gate(gate)),
                None => {
                    return Err(LexingError::NoSuchGate(string_of(&gate_str)));
                },
            }
        } else {
            return Err(LexingError::InvalidCharacter(c, position));
        };
        match token {
            None => {},
            Some(token) => {
                let ghost earlier = tokens@;
                tokens.push(token);
                proof {
                    assert(tokens@.drop_last() =~= earlier);
                    let rest = lex_tokens(input@, position as int);
                    if rest is Ok {
                        assert(earlier + (seq![token] + rest->Ok_0) =~= tokens@ + rest->Ok_0);
                    }
                }
            },
        }
    }
    if open != close {
        return Err(LexingError::ParenCountMismatch);
    }
    Ok(tokens)
}

} // verus!
