//! The parser: tokens to a logic tree.
//!
//! A text without any operand, such as `()`, has no tree: it is refused.

use super::scan::{scan_spec, ScanError, ScanFailure, Scanner};
use super::{LogicTree, Token};
use crate::gate::Gate;
use vstd::prelude::*;

verus! {

/// Why a source text has no logic tree.
#[derive(Debug)]
pub enum ParseError {
    /// The text holds no operand at all.
    InvalidExpression,
    /// Two operands follow each other without a gate between them.
    InvalidTerminalPlacement,
    /// A gate lacks an operand.
    InvalidGatePlacement,
    /// The text has no token sequence.
    ScanError(ScanError),
}

/// The value of a [`ParseError`].
pub enum ParseFailure {
    InvalidExpression,
    InvalidTerminalPlacement,
    InvalidGatePlacement,
    ScanError(ScanFailure),
}

impl View for ParseError {
    type V = ParseFailure;

    open spec fn view(&self) -> ParseFailure {
        match self {
            ParseError::InvalidExpression => ParseFailure::InvalidExpression,
            ParseError::InvalidTerminalPlacement => ParseFailure::InvalidTerminalPlacement,
            ParseError::InvalidGatePlacement => ParseFailure::InvalidGatePlacement,
            ParseError::ScanError(error) => ParseFailure::ScanError(error@),
        }
    }
}

/// `tree` under `times` negations.
pub open spec fn negate<T>(tree: LogicTree<T>, times: nat) -> LogicTree<T>
    decreases times,
{
    if times == 0 {
        tree
    } else {
        LogicTree::Not(Box::new(negate(tree, (times - 1) as nat)))
    }
}

/// A completed operand meets what its group holds so far: it becomes the
/// group's tree, or the right operand of the pending gate.
pub open spec fn finalize<T>(
    current: Option<LogicTree<T>>,
    gate: Option<Gate>,
    leaf: LogicTree<T>,
) -> Result<(Option<LogicTree<T>>, Option<Gate>), ParseFailure> {
    match (current, gate) {
        (None, None) => Ok((Some(leaf), None)),
        (None, Some(_)) => Err(ParseFailure::InvalidGatePlacement),
        (Some(_), None) => Err(ParseFailure::InvalidTerminalPlacement),
        (Some(tree), Some(gate)) => Ok(
            (Some(LogicTree::Gate { gate, left: Box::new(tree), right: Box::new(leaf) }), None),
        ),
    }
}

/// What a group yields where it ends: its tree, or nothing if it held no
/// operand. A gate or a negation that still waits for its operand is refused.
pub open spec fn close<T>(
    current: Option<LogicTree<T>>,
    gate: Option<Gate>,
    negations: nat,
) -> Result<Option<LogicTree<T>>, ParseFailure> {
    if gate is Some || negations > 0 {
        Err(ParseFailure::InvalidGatePlacement)
    } else {
        Ok(current)
    }
}

/// Reads a group from `from` on, up to its closing parenthesis or the end of
/// the tokens: what the group yields, and the position behind it.
///
/// `current` is the group's tree so far, `gate` a gate that waits for its
/// right operand, `negations` the number of `NOT`s that wait for theirs.
/// A group in parentheses is an operand, unless it is empty: then it is
/// passed over. A binary gate must follow an operand, a `NOT` must not.
pub open spec fn parse_group<T>(
    tokens: Seq<Token<T>>,
    from: int,
    current: Option<LogicTree<T>>,
    gate: Option<Gate>,
    negations: nat,
) -> (Result<Option<LogicTree<T>>, ParseFailure>, int)
    decreases tokens.len() - from,
{
    if from < 0 || from >= tokens.len() {
        (close(current, gate, negations), from)
    } else {
        match tokens[from] {
            Token::Whitespace => parse_group(tokens, from + 1, current, gate, negations),
            Token::OpeningParenthesis => {
                let (inner, end) = parse_group(tokens, from + 1, None, None, 0);
                if end <= from || end > tokens.len() {
                    // never the case: a group ends behind its start, within the tokens
                    (Err(ParseFailure::InvalidExpression), from + 1)
                } else {
                    match inner {
                        Err(failure) => (Err(failure), end),
                        Ok(None) => parse_group(tokens, end, current, gate, negations),
                        Ok(Some(leaf)) => match finalize(current, gate, negate(leaf, negations)) {
                            Err(failure) => (Err(failure), end),
                            Ok((tree, pending)) => parse_group(tokens, end, tree, pending, 0),
                        },
                    }
                }
            },
            Token::ClosingParenthesis => (close(current, gate, negations), from + 1),
            Token::Terminal(id) => match finalize(
                current,
                gate,
                negate(LogicTree::Terminal(id), negations),
            ) {
                Err(failure) => (Err(failure), from + 1),
                Ok((tree, pending)) => parse_group(tokens, from + 1, tree, pending, 0),
            },
            Token::Gate(Gate::Not) => if current is Some && gate is None {
                (Err(ParseFailure::InvalidGatePlacement), from + 1)
            } else {
                parse_group(tokens, from + 1, current, gate, negations + 1)
            },
            Token::Gate(binary) => if current is Some && gate is None {
                parse_group(tokens, from + 1, current, Some(binary), negations)
            } else {
                (Err(ParseFailure::InvalidGatePlacement), from + 1)
            },
        }
    }
}

/// A group ends behind its start, and within the tokens.
pub proof fn lemma_parse_group_end<T>(
    tokens: Seq<Token<T>>,
    from: int,
    current: Option<LogicTree<T>>,
    gate: Option<Gate>,
    negations: nat,
)
    requires
        0 <= from <= tokens.len(),
    ensures
        from <= parse_group(tokens, from, current, gate, negations).1 <= tokens.len(),
        from < tokens.len() ==> from < parse_group(tokens, from, current, gate, negations).1,
    decreases tokens.len() - from,
{
    if from < tokens.len() {
        match tokens[from] {
            Token::Whitespace => {
                lemma_parse_group_end(tokens, from + 1, current, gate, negations);
            },
            Token::OpeningParenthesis => {
                lemma_parse_group_end(tokens, from + 1, None, None, 0);
                let (inner, end) = parse_group(tokens, from + 1, None, None, 0);
                match inner {
                    Err(_) => {},
                    Ok(None) => {
                        lemma_parse_group_end(tokens, end, current, gate, negations);
                    },
                    Ok(Some(leaf)) => match finalize(current, gate, negate(leaf, negations)) {
                        Err(_) => {},
                        Ok((tree, pending)) => {
                            lemma_parse_group_end(tokens, end, tree, pending, 0);
                        },
                    },
                }
            },
            Token::ClosingParenthesis => {},
            Token::Terminal(id) => match finalize(
                current,
                gate,
                negate(LogicTree::Terminal(id), negations),
            ) {
                Err(_) => {},
                Ok((tree, pending)) => {
                    lemma_parse_group_end(tokens, from + 1, tree, pending, 0);
                },
            },
            Token::Gate(Gate::Not) => {
                if !(current is Some && gate is None) {
                    lemma_parse_group_end(tokens, from + 1, current, gate, negations + 1);
                }
            },
            Token::Gate(binary) => {
                if current is Some && gate is None {
                    lemma_parse_group_end(tokens, from + 1, current, Some(binary), negations);
                }
            },
        }
    }
}

/// The tree of a token sequence: what its outermost group yields, which
/// must be an operand.
pub open spec fn parse_tokens_spec<T>(tokens: Seq<Token<T>>) -> Result<LogicTree<T>, ParseFailure> {
    match parse_group(tokens, 0, None, None, 0).0 {
        Err(failure) => Err(failure),
        Ok(None) => Err(ParseFailure::InvalidExpression),
        Ok(Some(tree)) => Ok(tree),
    }
}

/// The tree of a source text.
pub open spec fn parse_spec(text: Seq<char>) -> Result<LogicTree, ParseFailure> {
    match scan_spec(text) {
        Err(failure) => Err(ParseFailure::ScanError(failure)),
        Ok(tokens) => parse_tokens_spec(tokens),
    }
}

/// The value of what [`parse`] returns.
pub open spec fn parse_view<T>(result: Result<LogicTree<T>, ParseError>) -> Result<
    LogicTree<T>,
    ParseFailure,
> {
    match result {
        Ok(tree) => Ok(tree),
        Err(error) => Err(error@),
    }
}

/// Parses infix policy text into its logic tree.
pub fn parse(source: &str) -> (result: Result<LogicTree, ParseError>)
    ensures
        parse_view(result) == parse_spec(source@),
        result matches Ok(tree) ==> tree.well_formed(),
{
    match Scanner::scan(source) {
        Ok(scanned) => parse_tokens(&scanned),
        Err(error) => Err(ParseError::ScanError(error)),
    }
}

/// Parses a token sequence into its logic tree.
pub fn parse_tokens<T: Copy>(tokens: &Vec<Token<T>>) -> (result: Result<LogicTree<T>, ParseError>)
    ensures
        parse_view(result) == parse_tokens_spec(tokens@),
        result matches Ok(tree) ==> tree.well_formed(),
{
    let mut position: usize = 0;
    match parse_next(tokens, &mut position) {
        Ok(Some(tree)) => Ok(tree),
        Ok(None) => Err(ParseError::InvalidExpression),
        Err(error) => Err(error),
    }
}

/// Wraps `tree` in `times` negations.
fn negated<T>(tree: LogicTree<T>, times: usize) -> (result: LogicTree<T>)
    ensures
        result == negate(tree, times as nat),
        tree.well_formed() ==> result.well_formed(),
{
    let mut result = tree;
    let mut done: usize = 0;
    while done < times
        invariant
            done <= times,
            result == negate(tree, done as nat),
            tree.well_formed() ==> result.well_formed(),
        decreases times - done,
    {
        result = LogicTree::Not(Box::new(result));
        done += 1;
    }
    result
}

/// Reads one group, from `position` on, and leaves `position` behind it.
fn parse_next<T: Copy>(tokens: &Vec<Token<T>>, position: &mut usize) -> (result: Result<
    Option<LogicTree<T>>,
    ParseError,
>)
    requires
        *old(position) <= tokens.len(),
    ensures
        *old(position) <= *final(position) <= tokens.len(),
        match result {
            Ok(tree) => parse_group(tokens@, *old(position) as int, None, None, 0) == (
                Ok::<Option<LogicTree<T>>, ParseFailure>(tree),
                *final(position) as int,
            ),
            Err(error) => parse_group(tokens@, *old(position) as int, None, None, 0).0 == Err::<
                Option<LogicTree<T>>,
                ParseFailure,
            >(error@),
        },
        result matches Ok(Some(tree)) ==> tree.well_formed(),
    decreases tokens.len() - *old(position),
{
    let mut current_tree: Option<LogicTree<T>> = None;
    let mut current_gate: Option<Gate> = None;
    let mut negations: usize = 0;
    while *position < tokens.len()
        invariant
            *old(position) <= *position <= tokens.len(),
            negations <= *position,
            parse_group(tokens@, *old(position) as int, None, None, 0) == parse_group(
                tokens@,
                *position as int,
                current_tree,
                current_gate,
                negations as nat,
            ),
            current_tree matches Some(tree) ==> tree.well_formed(),
            current_gate matches Some(gate) ==> gate.is_binary(),
        decreases tokens.len() - *position,
    {
        let token = tokens[*position];
        let ghost at = *position as int;
        *position = *position + 1;
        match token {
            Token::Whitespace => {},
            Token::OpeningParenthesis => {
                proof {
                    lemma_parse_group_end(tokens@, at + 1, None, None, 0);
                }
                match parse_next(tokens, position) {
                    Err(error) => {
                        return Err(error);
                    },
                    Ok(None) => {},
                    Ok(Some(new_leaf)) => {
                        let operand = negated(new_leaf, negations);
                        match try_finalize_leaf(current_tree, current_gate, operand) {
                            Err(error) => {
                                return Err(error);
                            },
                            Ok((tree, gate)) => {
                                current_tree = tree;
                                current_gate = gate;
                                negations = 0;
                            },
                        }
                    },
                }
            },
            Token::ClosingParenthesis => {
                return if current_gate.is_some() || negations > 0 {
                    Err(ParseError::InvalidGatePlacement)
                } else {
                    Ok(current_tree)
                };
            },
            Token::Terminal(id) => {
                let operand = negated(LogicTree::Terminal(id), negations);
                match try_finalize_leaf(current_tree, current_gate, operand) {
                    Err(error) => {
                        return Err(error);
                    },
                    Ok((tree, gate)) => {
                        current_tree = tree;
                        current_gate = gate;
                        negations = 0;
                    },
                }
            },
            Token::Gate(Gate::Not) => {
                if current_tree.is_some() && current_gate.is_none() {
                    return Err(ParseError::InvalidGatePlacement);
                }
                negations = negations + 1;
            },
            Token::Gate(gate) => {
                if current_tree.is_some() && current_gate.is_none() {
                    current_gate = Some(gate);
                } else {
                    return Err(ParseError::InvalidGatePlacement);
                }
            },
        }
    }
    if current_gate.is_some() || negations > 0 {
        Err(ParseError::InvalidGatePlacement)
    } else {
        Ok(current_tree)
    }
}

/// Combines what a group holds so far with a completed operand.
fn try_finalize_leaf<T>(
    current_tree: Option<LogicTree<T>>,
    current_gate: Option<Gate>,
    new_leaf: LogicTree<T>,
) -> (result: Result<(Option<LogicTree<T>>, Option<Gate>), ParseError>)
    ensures
        match result {
            Ok(state) => finalize(current_tree, current_gate, new_leaf) == Ok::<
                (Option<LogicTree<T>>, Option<Gate>),
                ParseFailure,
            >(state),
            Err(error) => finalize(current_tree, current_gate, new_leaf) == Err::<
                (Option<LogicTree<T>>, Option<Gate>),
                ParseFailure,
            >(error@),
        },
{
    match (current_tree, current_gate) {
        (None, None) => Ok((Some(new_leaf), None)),
        (None, Some(_)) => Err(ParseError::InvalidGatePlacement),
        (Some(_), None) => Err(ParseError::InvalidTerminalPlacement),
        (Some(tree), Some(gate)) => Ok(
            (Some(LogicTree::Gate { gate, left: Box::new(tree), right: Box::new(new_leaf) }), None),
        ),
    }
}

} // verus!
