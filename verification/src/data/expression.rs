//! Expressions of list notation.

use super::token::{Gate, TerminalId, Token};
use crate::parser::{ParsingError, ParsingFailure};
use crate::text::{decimal_digits, digits_of, string_of};
use vstd::prelude::*;

verus! {

/// A leaf of an expression.
#[derive(Clone, Copy, Debug, PartialEq, Eq, Structural)]
pub enum Literal {
    TerminalId(TerminalId),
    Gate(Gate),
}

impl Literal {
    /// The literal as text: the digits of a terminal id, the keyword of a
    /// gate.
    pub open spec fn text(self) -> Seq<char> {
        match self {
            Literal::TerminalId(id) => decimal_digits(id as nat),
            Literal::Gate(gate) => gate.keyword(),
        }
    }

    /// The token that writes the literal.
    pub open spec fn token(self) -> Token {
        match self {
            Literal::TerminalId(id) => Token::TerminalId(id),
            Literal::Gate(gate) => Token::Gate(gate),
        }
    }

    /// The literal that a token stands for; a parenthesis stands for none.
    pub open spec fn of_token(token: Token) -> Result<Literal, ParsingFailure> {
        match token {
            Token::TerminalId(id) => Ok(Literal::TerminalId(id)),
            Token::Gate(gate) => Ok(Literal::Gate(gate)),
            _ => Err(ParsingFailure::NoSuchExpression(token.name())),
        }
    }

    /// The literal as text.
    pub fn to_string(&self) -> (text: String)
        ensures
            text@ == self.text(),
    {
        match self {
            Literal::TerminalId(id) => string_of(&digits_of(*id)),
            Literal::Gate(gate) => gate.to_string(),
        }
    }

    /// Turns a token into the literal it stands for.
    pub fn try_from(token: Token) -> (result: Result<Literal, ParsingError>)
        ensures
            match result {
                Ok(literal) => Literal::of_token(token) == Ok::<Literal, ParsingFailure>(literal),
                Err(error) => Literal::of_token(token) == Err::<Literal, ParsingFailure>(error@),
            },
    {
        let value = match token {
            Token::TerminalId(id) => Literal::TerminalId(id),
            Token::Gate(gate) => Literal::Gate(gate),
            _ => {
                return Err(ParsingError::NoSuchExpression(token.to_string()));
            },
        };
        Ok(value)
    }
}

/// A parsed list-notation policy: a literal, or a list of expressions.
#[derive(Debug, PartialEq)]
pub enum Expression {
    Literal(Literal),
    List(Vec<Expression>),
}

/// The value of an [`Expression`].
pub enum ExpressionView {
    Literal(Literal),
    List(Seq<ExpressionView>),
}

/// The value of an expression: its literal, or the values of its items.
pub open spec fn expression_view(expression: Expression) -> ExpressionView
    decreases expression,
{
    match expression {
        Expression::Literal(literal) => ExpressionView::Literal(literal),
        Expression::List(list) => ExpressionView::List(
            Seq::new(
                list.len() as nat,
                |i: int|
                    if 0 <= i < list.len() {
                        expression_view(list[i])
                    } else {
                        ExpressionView::List(Seq::empty())
                    },
            ),
        ),
    }
}

impl View for Expression {
    type V = ExpressionView;

    open spec fn view(&self) -> ExpressionView {
        expression_view(*self)
    }
}

impl Clone for Expression {
    fn clone(&self) -> (copy: Self)
        ensures
            copy@ == self@,
        decreases self,
    {
        match self {
            Expression::Literal(literal) => Expression::Literal(*literal),
            Expression::List(list) => {
                let mut items: Vec<Expression> = Vec::new();
                let mut i: usize = 0;
                while i < list.len()
                    invariant
                        0 <= i <= list.len(),
                        *self == Expression::List(*list),
                        decreases_to!(*self => *list),
                        items.len() == i,
                        forall|j: int| 0 <= j < i ==> items@[j]@ == list@[j]@,
                    decreases list.len() - i,
                {
                    items.push(list[i].clone());
                    i += 1;
                }
                let copy = Expression::List(items);
                proof {
                    assert(copy@->List_0 =~= self@->List_0);
                }
                copy
            },
        }
    }
}

} // verus!
