//! The parser of list notation.
//!
//! A text is one expression: a terminal, or a list in parentheses. The empty
//! text and `()` are the empty list, which evaluates to true.

use crate::data::{infix_tokens, Expression, ExpressionView, Literal, Token};
use crate::token::parse::{parse_tokens, ParseError, ParseFailure};
use crate::lexer::{tokenize, tokenize_spec, LexingError, LexingFailure};
use vstd::prelude::*;

verus! {

/// Why a list-notation text has no expression.
#[derive(Debug)]
pub enum ParsingError {
    /// The token, named in the text, stands where an expression must.
    NoSuchExpression(String),
    /// The text goes on behind a first token that opens no list, and
    /// nothing else is wrong with it.
    InvalidStart(String),
    /// An operand follows an operand without a gate between them.
    InvalidTerminalPlacement,
    /// A gate lacks an operand, or stands behind the expression.
    InvalidGatePlacement,
    /// The tokens ended where one more was needed.
    OutOfTokens,
    /// The text has no token sequence.
    LexingError(LexingError),
}

/// The value of a [`ParsingError`].
pub enum ParsingFailure {
    NoSuchExpression(Seq<char>),
    InvalidStart(Seq<char>),
    InvalidTerminalPlacement,
    InvalidGatePlacement,
    OutOfTokens,
    LexingError(LexingFailure),
}

impl View for ParsingError {
    type V = ParsingFailure;

    open spec fn view(&self) -> ParsingFailure {
        match self {
            ParsingError::NoSuchExpression(name) => ParsingFailure::NoSuchExpression(name@),
            ParsingError::InvalidStart(name) => ParsingFailure::InvalidStart(name@),
            ParsingError::InvalidTerminalPlacement => ParsingFailure::InvalidTerminalPlacement,
            ParsingError::InvalidGatePlacement => ParsingFailure::InvalidGatePlacement,
            ParsingError::OutOfTokens => ParsingFailure::OutOfTokens,
            ParsingError::LexingError(error) => ParsingFailure::LexingError(error@),
        }
    }
}

/// The values of a sequence of expressions.
pub open spec fn views(list: Seq<Expression>) -> Seq<ExpressionView> {
    Seq::new(list.len(), |i: int| list[i]@)
}

/// Reads the items of a list from a stack of tokens, whose last token is the
/// next one, up to the parenthesis that closes the list or to the end of the
/// tokens: the list, made of `list` and the items read, and the tokens left.
pub open spec fn list_items(stack: Seq<Token>, list: Seq<ExpressionView>) -> (
    Result<ExpressionView, ParsingFailure>,
    Seq<Token>,
)
    decreases stack.len(),
{
    if stack.len() == 0 {
        (Ok(ExpressionView::List(list)), stack)
    } else {
        let rest = stack.drop_last();
        match stack.last() {
            Token::ParenOpen => if rest.len() == 0 {
                (Err(ParsingFailure::NoSuchExpression(Token::ParenOpen.name())), rest)
            } else {
                let (inner, left) = list_items(rest, Seq::empty());
                if left.len() >= stack.len() {
                    // never the case: reading leaves fewer tokens
                    (Err(ParsingFailure::OutOfTokens), left)
                } else {
                    match inner {
                        Err(failure) => (Err(failure), left),
                        Ok(item) => list_items(left, list.push(item)),
                    }
                }
            },
            Token::ParenClose => (Ok(ExpressionView::List(list)), rest),
            Token::TerminalId(id) => list_items(
                rest,
                list.push(ExpressionView::Literal(Literal::TerminalId(id))),
            ),
            Token::Gate(gate) => list_items(
                rest,
                list.push(ExpressionView::Literal(Literal::Gate(gate))),
            ),
        }
    }
}

/// Whether an operand begins with `token`: a terminal or a list.
pub open spec fn starts_operand(token: Token) -> bool {
    token is TerminalId || token is ParenOpen
}

/// Why the tokens left behind an expression, the next one last, make the
/// text no expression; nothing, if none is left.
pub open spec fn trailing(left: Seq<Token>) -> Option<ParsingFailure> {
    if left.len() == 0 {
        None
    } else if starts_operand(left.last()) {
        Some(ParsingFailure::InvalidTerminalPlacement)
    } else if left.last() is Gate {
        Some(ParsingFailure::InvalidGatePlacement)
    } else {
        Some(ParsingFailure::NoSuchExpression(left.last().name()))
    }
}

/// Why tokens that go on behind a first token that opens no list are
/// refused: for the misplaced operand or gate that reading them as infix
/// text finds, if it finds one, else for their start.
pub open spec fn start_failure(stack: Seq<Token>) -> ParsingFailure {
    match crate::token::parse::parse_tokens_spec(infix_tokens(stack.reverse())) {
        Err(ParseFailure::InvalidTerminalPlacement) => ParsingFailure::InvalidTerminalPlacement,
        Err(ParseFailure::InvalidGatePlacement) => ParsingFailure::InvalidGatePlacement,
        _ => ParsingFailure::InvalidStart(stack.last().name()),
    }
}

/// Reads one expression from a stack of tokens, whose last token is the
/// next one: the expression, and the tokens left.
///
/// No token at all is the empty list. A single token must be a terminal id.
/// Otherwise the first token must open a list, whose items follow.
pub open spec fn parse_list_spec(stack: Seq<Token>) -> (
    Result<ExpressionView, ParsingFailure>,
    Seq<Token>,
) {
    if stack.len() == 0 {
        (Ok(ExpressionView::List(Seq::empty())), stack)
    } else {
        let rest = stack.drop_last();
        let token = stack.last();
        if rest.len() == 0 {
            match token {
                Token::TerminalId(id) => (
                    Ok(ExpressionView::Literal(Literal::TerminalId(id))),
                    rest,
                ),
                Token::Gate(gate) => (
                    Err(ParsingFailure::NoSuchExpression(gate.keyword())),
                    rest,
                ),
                _ => (Err(ParsingFailure::NoSuchExpression(token.name())), rest),
            }
        } else if token != Token::ParenOpen {
            (Err(start_failure(stack)), rest)
        } else {
            list_items(rest, Seq::empty())
        }
    }
}

/// The value of a list is the list of its items' values.
pub proof fn lemma_list_view(list: Vec<Expression>)
    ensures
        Expression::List(list)@ == ExpressionView::List(views(list@)),
{
    assert(Expression::List(list)@->List_0 =~= views(list@));
}

/// Reading takes tokens off the stack and puts none on it.
pub proof fn lemma_list_items_left(stack: Seq<Token>, list: Seq<ExpressionView>)
    ensures
        list_items(stack, list).1.len() <= stack.len(),
        list_items(stack, list).1 == stack.take(list_items(stack, list).1.len() as int),
    decreases stack.len(),
{
    if stack.len() > 0 {
        let rest = stack.drop_last();
        match stack.last() {
            Token::ParenOpen => {
                if rest.len() > 0 {
                    lemma_list_items_left(rest, Seq::empty());
                    let (inner, left) = list_items(rest, Seq::empty());
                    if inner is Ok {
                        lemma_list_items_left(left, list.push(inner->Ok_0));
                    }
                }
            },
            Token::ParenClose => {},
            Token::TerminalId(id) => {
                lemma_list_items_left(
                    rest,
                    list.push(ExpressionView::Literal(Literal::TerminalId(id))),
                );
            },
            Token::Gate(gate) => {
                lemma_list_items_left(rest, list.push(ExpressionView::Literal(Literal::Gate(gate))));
            },
        }
    }
}

/// The expression of a token sequence in reading order: the one expression
/// that the tokens write, with no token left behind it.
pub open spec fn parse_tokens_spec(tokens: Seq<Token>) -> Result<ExpressionView, ParsingFailure> {
    let (expression, left) = parse_list_spec(tokens.reverse());
    match expression {
        Err(failure) => Err(failure),
        Ok(expression) => match trailing(left) {
            Some(failure) => Err(failure),
            None => Ok(expression),
        },
    }
}

/// The expression of a list-notation text.
pub open spec fn parse_spec(text: Seq<char>) -> Result<ExpressionView, ParsingFailure> {
    match tokenize_spec(text) {
        Err(failure) => Err(ParsingFailure::LexingError(failure)),
        Ok(tokens) => parse_tokens_spec(tokens),
    }
}

/// The value of what [`parse`] returns.
pub open spec fn parsing_view(result: Result<Expression, ParsingError>) -> Result<
    ExpressionView,
    ParsingFailure,
> {
    match result {
        Ok(expression) => Ok(expression@),
        Err(error) => Err(error@),
    }
}

/// `tokens` in the opposite order.
fn reversed(tokens: Vec<Token>) -> (stack: Vec<Token>)
    ensures
        stack@ == tokens@.reverse(),
{
    let mut stack: Vec<Token> = Vec::new();
    let mut left: usize = tokens.len();
    while left > 0
        invariant
            left <= tokens.len(),
            stack.len() == tokens.len() - left,
            forall|i: int| 0 <= i < stack.len() ==> stack@[i] == tokens@[tokens.len() - 1 - i],
        decreases left,
    {
        left -= 1;
        stack.push(tokens[left]);
    }
    stack
}

/// Parses list-notation policy text: all of it, or nothing.
pub fn parse(input: &str) -> (result: Result<Expression, ParsingError>)
    ensures
        parsing_view(result) == parse_spec(input@),
{
    match tokenize(input) {
        Ok(tokens) => {
            let mut stack = reversed(tokens);
            let expression = match parse_list(&mut stack) {
                Ok(expression) => expression,
                Err(error) => {
                    return Err(error);
                },
            };
            if stack.len() == 0 {
                return Ok(expression);
            }
            match stack[stack.len() - 1] {
                Token::TerminalId(_) | Token::ParenOpen => Err(
                    ParsingError::InvalidTerminalPlacement,
                ),
                Token::Gate(_) => Err(ParsingError::InvalidGatePlacement),
                Token::ParenClose => Err(
                    ParsingError::NoSuchExpression(Token::ParenClose.to_string()),
                ),
            }
        },
        Err(error) => Err(ParsingError::LexingError(error)),
    }
}

/// Reads one expression from a stack of tokens, whose last token is the next
/// one. The tokens that were read are taken off the stack.
pub fn parse_list(tokens: &mut Vec<Token>) -> (result: Result<Expression, ParsingError>)
    ensures
        parsing_view(result) == parse_list_spec(old(tokens)@).0,
        result is Ok ==> final(tokens)@ == parse_list_spec(old(tokens)@).1,
        final(tokens).len() <= old(tokens).len(),
        final(tokens)@ == old(tokens)@.take(final(tokens).len() as int),
    decreases old(tokens).len(),
{
    let ghost stack = old(tokens)@;
    let token = match tokens.pop() {
        Some(token) => token,
        None => {
            let items: Vec<Expression> = Vec::new();
            proof {
                lemma_list_view(items);
                assert(views(items@) =~= Seq::empty());
            }
            let empty = Expression::List(items);
            return Ok(empty);
        },
    };
    if tokens.is_empty() {
        return match token {
            Token::ParenOpen | Token::ParenClose => Err(
                ParsingError::NoSuchExpression(token.to_string()),
            ),
            Token::Gate(gate) => Err(ParsingError::NoSuchExpression(gate.to_string())),
            _ => match Literal::try_from(token) {
                Ok(literal) => Ok(Expression::Literal(literal)),
                Err(error) => Err(error),
            },
        };
    }
    if token != Token::ParenOpen {
        let mut lexemes: Vec<crate::token::Token> = Vec::new();
        lexemes.push(token.to_infix());
        let mut left: usize = tokens.len();
        let ghost wanted = infix_tokens(stack.reverse());
        proof {
            assert(wanted[0] == stack.reverse()[0].infix());
            assert(lexemes@ =~= wanted.take(1));
        }
        while left > 0
            invariant
                left <= tokens.len(),
                stack.len() == tokens.len() + 1,
                tokens@ == stack.take(tokens.len() as int),
                wanted == infix_tokens(stack.reverse()),
                lexemes@ == wanted.take(stack.len() - left),
            decreases left,
        {
            left -= 1;
            lexemes.push(tokens[left].to_infix());
            proof {
                let place = stack.len() - 1 - left;
                assert(tokens@[left as int] == stack[left as int]);
                assert(wanted[place] == stack.reverse()[place].infix());
                assert(stack.reverse()[place] == stack[left as int]);
                assert(lexemes@ =~= wanted.take(stack.len() - left));
            }
        }
        proof {
            assert(wanted.take(stack.len() as int) =~= wanted);
        }
        return match parse_tokens(&lexemes) {
            Err(ParseError::InvalidTerminalPlacement) => Err(
                ParsingError::InvalidTerminalPlacement,
            ),
            Err(ParseError::InvalidGatePlacement) => Err(ParsingError::InvalidGatePlacement),
            _ => Err(ParsingError::InvalidStart(token.to_string())),
        };
    }
    let mut list: Vec<Expression> = Vec::new();
    proof {
        assert(views(list@) =~= Seq::empty());
    }
    while !tokens.is_empty()
        invariant
            stack == old(tokens)@,
            tokens.len() < stack.len(),
            tokens@ == stack.take(tokens.len() as int),
            parse_list_spec(stack) == list_items(tokens@, views(list@)),
        decreases tokens.len(),
    {
        let ghost before = tokens@;
        let ghost items = views(list@);
        let token = match tokens.pop() {
            Some(token) => token,
            None => {
                return Err(ParsingError::OutOfTokens);
            },
        };
        match &token {
            Token::ParenOpen => {
                if tokens.is_empty() {
                    return Err(ParsingError::NoSuchExpression(token.to_string()));
                }
                tokens.push(Token::ParenOpen);
                proof {
                    assert(tokens@ =~= before);
                    lemma_list_items_left(before.drop_last(), Seq::empty());
                }
                let sub_list = match parse_list(tokens) {
                    Ok(sub_list) => sub_list,
                    Err(error) => {
                        return Err(error);
                    },
                };
                list.push(sub_list);
                proof {
                    assert(views(list@) =~= items.push(sub_list@));
                }
            },
            Token::ParenClose => {
                proof {
                    lemma_list_view(list);
                }
                return Ok(Expression::List(list));
            },
            _ => match Literal::try_from(token) {
                Ok(literal) => {
                    list.push(Expression::Literal(literal));
                    proof {
                        assert(views(list@) =~= items.push(ExpressionView::Literal(literal)));
                    }
                },
                Err(error) => {
                    return Err(error);
                },
            },
        }
    }
    proof {
        lemma_list_view(list);
    }
    Ok(Expression::List(list))
}

} // verus!
