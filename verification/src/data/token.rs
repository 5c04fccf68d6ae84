//! The tokens of list notation.

pub use crate::gate::Gate;
pub use crate::TerminalId;
use vstd::prelude::*;

verus! {

/// A lexeme of list-notation policy text.
#[derive(Clone, Copy, Debug, PartialEq, Eq, Structural)]
pub enum Token {
    ParenOpen,
    ParenClose,
    TerminalId(TerminalId),
    Gate(Gate),
}

impl Token {
    /// The name of the token's kind.
    pub open spec fn name(self) -> Seq<char> {
        match self {
            Token::ParenOpen => "ParenOpen"@,
            Token::ParenClose => "ParenClose"@,
            Token::TerminalId(_) => "TerminalId"@,
            Token::Gate(_) => "Gate"@,
        }
    }

    /// The lexeme of infix text that writes the same as the token.
    pub open spec fn infix(self) -> crate::token::Token {
        match self {
            Token::ParenOpen => crate::token::Token::OpeningParenthesis,
            Token::ParenClose => crate::token::Token::ClosingParenthesis,
            Token::TerminalId(id) => crate::token::Token::Terminal(id),
            Token::Gate(gate) => crate::token::Token::Gate(gate),
        }
    }

    /// The lexeme of infix text that writes the same as the token.
    pub fn to_infix(&self) -> (lexeme: crate::token::Token)
        ensures
            lexeme == self.infix(),
    {
        match self {
            Token::ParenOpen => crate::token::Token::OpeningParenthesis,
            Token::ParenClose => crate::token::Token::ClosingParenthesis,
            Token::TerminalId(id) => crate::token::Token::Terminal(*id),
            Token::Gate(gate) => crate::token::Token::Gate(*gate),
        }
    }

    /// The name of the token's kind, as text.
    pub fn to_string(&self) -> (text: String)
        ensures
            text@ == self.name(),
    {
        match self {
            Token::ParenOpen => "ParenOpen".to_owned(),
            Token::ParenClose => "ParenClose".to_owned(),
            Token::TerminalId(_) => "TerminalId".to_owned(),
            Token::Gate(_) => "Gate".to_owned(),
        }
    }
}

/// The lexemes of infix text that write the same as `tokens`.
pub open spec fn infix_tokens(tokens: Seq<Token>) -> Seq<crate::token::Token> {
    Seq::new(tokens.len(), |i: int| tokens[i].infix())
}

} // verus!
