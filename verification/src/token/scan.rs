//! The scanner: source text to tokens.
//!
//! Parentheses are matched here: a text passes in which none closes what was
//! not opened and none stays open.

use super::Token;
use crate::gate::Gate;
use crate::text::{
    blank, is_blank, chars_of, decimal_value, lemma_run_len_bound, parse_decimal, run_len, string_of, uppercase,
    uppercase_of, CharClass,
};
use vstd::prelude::*;

verus! {

/// Why a run of digits or letters is no token.
#[derive(Debug)]
pub enum LexemeError {
    /// The digits write a number beyond the 16 bits of a terminal id.
    MalformedTerminalId,
    /// The letters, given in capitals, are no gate keyword.
    UnknownGate(String),
}

/// Why a source text has no token sequence.
#[derive(Debug)]
pub enum ScanError {
    /// The text holds no token at all.
    EmptyExpression,
    /// Nothing is left to read.
    EofReached,
    /// A parenthesis closes what was not opened, or one stays open.
    InvalidParentheses,
    /// The character, at the given position, starts no token.
    InvalidToken(char, usize),
    /// A run of digits or letters was read and refused.
    Transparent(LexemeError),
}

/// The value of a [`LexemeError`].
pub enum LexemeFailure {
    MalformedTerminalId,
    UnknownGate(Seq<char>),
}

/// The value of a [`ScanError`].
pub enum ScanFailure {
    EmptyExpression,
    EofReached,
    InvalidParentheses,
    InvalidToken(char, int),
    Transparent(LexemeFailure),
}

impl View for LexemeError {
    type V = LexemeFailure;

    open spec fn view(&self) -> LexemeFailure {
        match self {
            LexemeError::MalformedTerminalId => LexemeFailure::MalformedTerminalId,
            LexemeError::UnknownGate(word) => LexemeFailure::UnknownGate(word@),
        }
    }
}

impl View for ScanError {
    type V = ScanFailure;

    open spec fn view(&self) -> ScanFailure {
        match self {
            ScanError::EmptyExpression => ScanFailure::EmptyExpression,
            ScanError::EofReached => ScanFailure::EofReached,
            ScanError::InvalidParentheses => ScanFailure::InvalidParentheses,
            ScanError::InvalidToken(c, at) => ScanFailure::InvalidToken(*c, *at as int),
            ScanError::Transparent(cause) => ScanFailure::Transparent(cause@),
        }
    }
}

/// The lexeme that starts at `from`: the token or the failure, and the
/// position behind it.
pub open spec fn next_lexeme(text: Seq<char>, from: int) -> (Result<Token, ScanFailure>, int) {
    let c = text[from];
    if is_blank(c) {
        (Ok(Token::Whitespace), from + 1)
    } else if c == '(' {
        (Ok(Token::OpeningParenthesis), from + 1)
    } else if c == ')' {
        (Ok(Token::ClosingParenthesis), from + 1)
    } else if CharClass::Digit.holds(c) {
        let end = from + 1 + run_len(text, from + 1, CharClass::Digit);
        let word = text.subrange(from, end);
        if decimal_value(word) <= u16::MAX {
            (Ok(Token::Terminal(decimal_value(word) as u16)), end)
        } else {
            (Err(ScanFailure::Transparent(LexemeFailure::MalformedTerminalId)), end)
        }
    } else if CharClass::Letter.holds(c) {
        let end = from + 1 + run_len(text, from + 1, CharClass::Letter);
        let word = uppercase(text.subrange(from, end));
        match Gate::from_keyword(word) {
            Some(gate) => (Ok(Token::Gate(gate)), end),
            None => (Err(ScanFailure::Transparent(LexemeFailure::UnknownGate(word))), end),
        }
    } else {
        (Err(ScanFailure::InvalidToken(c, from)), from + 1)
    }
}

/// A lexeme is not empty and ends within the text.
pub proof fn lemma_next_lexeme_end(text: Seq<char>, from: int)
    requires
        0 <= from < text.len(),
    ensures
        from < next_lexeme(text, from).1 <= text.len(),
{
    lemma_run_len_bound(text, from + 1, CharClass::Digit);
    lemma_run_len_bound(text, from + 1, CharClass::Letter);
}

/// The tokens of `text` from `from` on, without the whitespace, or the
/// first failure.
pub open spec fn scan_tokens(text: Seq<char>, from: int) -> Result<Seq<Token>, ScanFailure>
    decreases text.len() - from,
{
    if from < 0 || from >= text.len() {
        Ok(Seq::empty())
    } else {
        proof {
            lemma_next_lexeme_end(text, from);
        }
        let (lexeme, end) = next_lexeme(text, from);
        match lexeme {
            Err(failure) => Err(failure),
            Ok(token) => match scan_tokens(text, end) {
                Err(failure) => Err(failure),
                Ok(rest) => if token is Whitespace {
                    Ok(rest)
                } else {
                    Ok(seq![token] + rest)
                },
            },
        }
    }
}

/// The nesting depth behind `tokens`: parentheses opened less parentheses closed.
pub open spec fn nesting<T>(tokens: Seq<Token<T>>) -> int
    decreases tokens.len(),
{
    if tokens.len() == 0 {
        0
    } else {
        nesting(tokens.drop_last()) + match tokens.last() {
            Token::OpeningParenthesis => 1int,
            Token::ClosingParenthesis => -1int,
            _ => 0int,
        }
    }
}

/// No parenthesis of `tokens` closes what was not opened.
pub open spec fn never_negative<T>(tokens: Seq<Token<T>>) -> bool
    decreases tokens.len(),
{
    tokens.len() == 0 || (never_negative(tokens.drop_last()) && nesting(tokens) >= 0)
}

/// Every parenthesis of `tokens` has its partner.
pub open spec fn balanced<T>(tokens: Seq<Token<T>>) -> bool {
    never_negative(tokens) && nesting(tokens) == 0
}

/// The token sequence of a source text: its lexemes without the whitespace,
/// provided that there is one and that the parentheses are balanced.
pub open spec fn scan_spec(text: Seq<char>) -> Result<Seq<Token>, ScanFailure> {
    match scan_tokens(text, 0) {
        Err(failure) => Err(failure),
        Ok(tokens) => if tokens.len() == 0 {
            Err(ScanFailure::EmptyExpression)
        } else if !balanced(tokens) {
            Err(ScanFailure::InvalidParentheses)
        } else {
            Ok(tokens)
        },
    }
}

/// The value of what [`Scanner::scan`] returns.
pub open spec fn scan_view<T>(result: Result<Vec<Token<T>>, ScanError>) -> Result<
    Seq<Token<T>>,
    ScanFailure,
> {
    match result {
        Ok(tokens) => Ok(tokens@),
        Err(error) => Err(error@),
    }
}

/// `tokens` put before the outcome of scanning the rest.
pub open spec fn prepend<T>(tokens: Seq<Token<T>>, rest: Result<Seq<Token<T>>, ScanFailure>) -> Result<
    Seq<Token<T>>,
    ScanFailure,
> {
    match rest {
        Ok(more) => Ok(tokens + more),
        Err(failure) => Err(failure),
    }
}

/// Takes `token` to the end of `tokens` and follows the nesting: `depth` is
/// the depth behind the tokens, as long as `dipped` does not say that it has
/// been below zero.
pub(crate) fn take_token<T>(
    tokens: &mut Vec<Token<T>>,
    token: Token<T>,
    depth: &mut usize,
    dipped: &mut bool,
)
    requires
        *old(dipped) == !never_negative(old(tokens)@),
        !*old(dipped) ==> *old(depth) == nesting(old(tokens)@),
        *old(depth) <= old(tokens).len(),
    ensures
        final(tokens)@ == old(tokens)@.push(token),
        *final(dipped) == !never_negative(final(tokens)@),
        !*final(dipped) ==> *final(depth) == nesting(final(tokens)@),
        *final(depth) <= final(tokens).len(),
{
    let opens = matches!(token, Token::OpeningParenthesis);
    let closes = matches!(token, Token::ClosingParenthesis);
    tokens.push(token);
    proof {
        assert(tokens@.drop_last() =~= old(tokens)@);
        assert(tokens.len() == old(tokens).len() + 1);
    }
    if !*dipped {
        if opens {
            *depth = *depth + 1;
        } else if closes {
            if *depth == 0 {
                *dipped = true;
            } else {
                *depth = *depth - 1;
            }
        }
    }
}

/// Reads a source text lexeme by lexeme.
pub struct Scanner {
    pub(crate) source: Vec<char>,
    pub(crate) position: usize,
    pub(crate) lexeme: Vec<char>,
}

impl Scanner {
    /// The lexeme is what was read last, and ends at the position.
    pub(crate) open spec fn wf(&self) -> bool {
        &&& self.position <= self.source.len()
        &&& self.lexeme.len() <= self.position
        &&& self.lexeme@ == self.source@.subrange(
            self.position - self.lexeme.len(),
            self.position as int,
        )
    }

    /// A scanner at the start of `source`.
    pub(crate) fn start(source: &str) -> (scanner: Scanner)
        ensures
            scanner.wf(),
            scanner.source@ == source@,
            scanner.position == 0,
    {
        let scanner = Scanner { source: chars_of(source), position: 0, lexeme: Vec::new() };
        proof {
            assert(scanner.lexeme@ =~= scanner.source@.subrange(0, 0));
        }
        scanner
    }

    /// Forgets the lexeme that was read last.
    pub(crate) fn begin_lexeme(&mut self)
        requires
            old(self).wf(),
        ensures
            final(self).wf(),
            final(self).source@ == old(self).source@,
            final(self).position == old(self).position,
            final(self).lexeme@ == Seq::<char>::empty(),
    {
        self.lexeme.clear();
        proof {
            assert(self.lexeme@ =~= self.source@.subrange(
                self.position as int,
                self.position as int,
            ));
        }
    }

    /// Scans `source` into its tokens. Whitespace separates tokens and is
    /// left out; a run of digits is a terminal id, a run of letters a gate,
    /// whatever the case of the letters.
    pub fn scan(source: &str) -> (result: Result<Vec<Token>, ScanError>)
        ensures
            scan_view(result) == scan_spec(source@),
    {
        let mut scanner = Scanner::start(source);
        let mut tokens: Vec<Token> = Vec::new();
        let mut depth: usize = 0;
        let mut dipped = false;
        loop
            invariant
                scanner.wf(),
                scanner.source@ == source@,
                scan_tokens(source@, 0) == prepend(
                    tokens@,
                    scan_tokens(source@, scanner.position as int),
                ),
                tokens.len() <= scanner.position,
                dipped == !never_negative(tokens@),
                !dipped ==> depth == nesting(tokens@),
                depth <= tokens.len(),
            ensures
                scanner.position == source@.len(),
            decreases source@.len() - scanner.position,
        {
            let ghost before = scanner.position as int;
            match scanner.scan_next() {
                Ok(token) => {
                    proof {
                        lemma_next_lexeme_end(source@, before);
                    }
                    match token {
                        Token::Whitespace => {},
                        _ => {
                            let ghost earlier = tokens@;
                            take_token(&mut tokens, token, &mut depth, &mut dipped);
                            proof {
                                let rest = scan_tokens(source@, scanner.position as int);
                                if rest is Ok {
                                    assert(earlier + (seq![token] + rest->Ok_0) =~= tokens@
                                        + rest->Ok_0);
                                }
                            }
                        },
                    }
                },
                Err(ScanError::EofReached) => {
                    break ;
                },
                Err(error) => {
                    proof {
                        lemma_next_lexeme_end(source@, before);
                    }
                    return Err(error);
                },
            }
        }
        if tokens.len() == 0 {
            Err(ScanError::EmptyExpression)
        } else if dipped || depth != 0 {
            Err(ScanError::InvalidParentheses)
        } else {
            Ok(tokens)
        }
    }

    /// Reads the lexeme at the current position and moves behind it.
    fn scan_next(&mut self) -> (result: Result<Token, ScanError>)
        requires
            old(self).wf(),
        ensures
            final(self).wf(),
            final(self).source@ == old(self).source@,
            old(self).position >= old(self).source.len() ==> {
                &&& result matches Err(ScanError::EofReached)
                &&& final(self).position == old(self).position
            },
            old(self).position < old(self).source.len() ==> {
                let (lexeme, end) = next_lexeme(old(self).source@, old(self).position as int);
                &&& final(self).position == end
                &&& final(self).lexeme@ == old(self).source@.subrange(
                    old(self).position as int,
                    end,
                )
                &&& !(lexeme matches Err(ScanFailure::EofReached))
                &&& match result {
                    Ok(token) => lexeme == Ok::<Token, ScanFailure>(token),
                    Err(error) => lexeme == Err::<Token, ScanFailure>(error@),
                }
            },
    {
        self.begin_lexeme();
        let start: usize = self.position;
        let next_char = match self.advance() {
            Some(c) => c,
            None => {
                return Err(ScanError::EofReached);
            },
        };
        if blank(next_char) {
            Ok(Token::Whitespace)
        } else if next_char == '(' {
            Ok(Token::OpeningParenthesis)
        } else if next_char == ')' {
            Ok(Token::ClosingParenthesis)
        } else if CharClass::Digit.test(next_char) {
            self.advance_while(CharClass::Digit);
            proof {
                lemma_run_len_bound(self.source@, start + 1, CharClass::Digit);
            }
            match parse_decimal(&self.lexeme) {
                Some(id) => Ok(Token::Terminal(id)),
                None => Err(ScanError::Transparent(LexemeError::MalformedTerminalId)),
            }
        } else if CharClass::Letter.test(next_char) {
            self.advance_while(CharClass::Letter);
            let word = uppercase_of(&self.lexeme, 0, self.lexeme.len());
            proof {
                assert(self.lexeme@.subrange(0, self.lexeme.len() as int) =~= self.lexeme@);
            }
            match Gate::from_chars(&word) {
                Some(gate) => Ok(Token::Gate(gate)),
                None => Err(ScanError::Transparent(LexemeError::UnknownGate(string_of(&word)))),
            }
        } else {
            Err(ScanError::InvalidToken(next_char, start))
        }
    }

    /// Takes the next character into the lexeme, if there is one.
    pub(crate) fn advance(&mut self) -> (next: Option<char>)
        requires
            old(self).wf(),
        ensures
            final(self).wf(),
            final(self).source@ == old(self).source@,
            old(self).position >= old(self).source.len() ==> next is None && *final(self) == *old(
                self,
            ),
            old(self).position < old(self).source.len() ==> {
                &&& next == Some(old(self).source@[old(self).position as int])
                &&& final(self).position == old(self).position + 1
                &&& final(self).lexeme@ == old(self).lexeme@.push(
                    old(self).source@[old(self).position as int],
                )
            },
    {
        if self.position < self.source.len() {
            let c = self.source[self.position];
            self.lexeme.push(c);
            self.position = self.position + 1;
            proof {
                assert(self.lexeme@ =~= self.source@.subrange(
                    self.position - self.lexeme.len(),
                    self.position as int,
                ));
            }
            Some(c)
        } else {
            None
        }
    }

    /// Whether the next character exists and belongs to `class`.
    pub(crate) fn peek_check(&self, class: CharClass) -> (member: bool)
        requires
            self.wf(),
        ensures
            member == (self.position < self.source.len() && class.holds(
                self.source@[self.position as int],
            )),
    {
        if self.position < self.source.len() {
            class.test(self.source[self.position])
        } else {
            false
        }
    }

    /// Takes characters into the lexeme as long as they belong to `class`.
    pub(crate) fn advance_while(&mut self, class: CharClass)
        requires
            old(self).wf(),
        ensures
            final(self).wf(),
            final(self).source@ == old(self).source@,
            final(self).position == old(self).position + run_len(
                old(self).source@,
                old(self).position as int,
                class,
            ),
            final(self).lexeme@ == old(self).lexeme@ + old(self).source@.subrange(
                old(self).position as int,
                final(self).position as int,
            ),
    {
        proof {
            assert(self.lexeme@ + self.source@.subrange(
                self.position as int,
                self.position as int,
            ) =~= self.lexeme@);
        }
        while self.peek_check(class)
            invariant
                self.wf(),
                self.source@ == old(self).source@,
                old(self).position <= self.position,
                self.position + run_len(self.source@, self.position as int, class) == old(
                    self,
                ).position + run_len(old(self).source@, old(self).position as int, class),
                self.lexeme@ == old(self).lexeme@ + old(self).source@.subrange(
                    old(self).position as int,
                    self.position as int,
                ),
            decreases self.source.len() - self.position,
        {
            self.advance();
            proof {
                assert(self.lexeme@ =~= old(self).lexeme@ + old(self).source@.subrange(
                    old(self).position as int,
                    self.position as int,
                ));
            }
        }
    }
}

} // verus!
