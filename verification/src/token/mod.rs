//! Infix policy text: tokens, the tree they parse to, and its truth value.

use crate::gate::Gate;
use crate::truths;
use crate::TerminalId;
use parse::{parse, parse_spec, parse_view, ParseError};
use std::collections::HashMap;
use std::str::FromStr;
use vstd::prelude::*;

pub mod parse;
pub mod parser;
pub mod render;
pub mod scan;
pub mod scanner;

verus! {

/// A lexeme of infix policy text, whose terminals are written as `T`:
/// numbered, unless said otherwise.
#[derive(Copy, Debug, Eq, PartialEq, Structural)]
pub enum Token<T = TerminalId> {
    Whitespace,
    OpeningParenthesis,
    ClosingParenthesis,
    Terminal(T),
    Gate(Gate),
}

impl<T: Copy> Clone for Token<T> {
    fn clone(&self) -> (copy: Self)
        ensures
            copy == *self,
    {
        *self
    }
}

/// A parsed policy: terminals at the leaves, gates inside.
#[derive(Debug, PartialEq, Eq)]
pub enum LogicTree<T = TerminalId> {
    Terminal(T),
    Not(Box<LogicTree<T>>),
    Gate { gate: Gate, left: Box<LogicTree<T>>, right: Box<LogicTree<T>> },
}

impl<T: Copy> Clone for LogicTree<T> {
    fn clone(&self) -> (copy: Self)
        ensures
            copy == *self,
        decreases self,
    {
        match self {
            LogicTree::Terminal(id) => LogicTree::Terminal(*id),
            LogicTree::Not(operand) => LogicTree::Not(Box::new((&**operand).clone())),
            LogicTree::Gate { gate, left, right } => LogicTree::Gate {
                gate: *gate,
                left: Box::new((&**left).clone()),
                right: Box::new((&**right).clone()),
            },
        }
    }
}

impl<T> LogicTree<T> {
    /// No gate with two operands is a `Not`.
    pub open spec fn well_formed(self) -> bool
        decreases self,
    {
        match self {
            LogicTree::Terminal(_) => true,
            LogicTree::Not(operand) => operand.well_formed(),
            LogicTree::Gate { gate, left, right } => gate.is_binary() && left.well_formed()
                && right.well_formed(),
        }
    }

    /// Tests whether the tree is well formed.
    pub fn is_well_formed(&self) -> (well_formed: bool)
        ensures
            well_formed == self.well_formed(),
        decreases self,
    {
        match self {
            LogicTree::Terminal(_) => true,
            LogicTree::Not(operand) => operand.is_well_formed(),
            LogicTree::Gate { gate, left, right } => match gate {
                Gate::Not => false,
                _ => left.is_well_formed() && right.is_well_formed(),
            },
        }
    }
}

impl LogicTree {
    /// The terminal ids that occur in the tree.
    pub open spec fn terminals(self) -> Set<TerminalId>
        decreases self,
    {
        match self {
            LogicTree::Terminal(id) => set![id],
            LogicTree::Not(operand) => operand.terminals(),
            LogicTree::Gate { gate, left, right } => left.terminals().union(right.terminals()),
        }
    }

    /// The truth value of the tree where exactly the terminals in `truths`
    /// hold.
    pub open spec fn value(self, truths: Set<TerminalId>) -> bool
        decreases self,
    {
        match self {
            LogicTree::Terminal(id) => truths.contains(id),
            LogicTree::Not(operand) => !operand.value(truths),
            LogicTree::Gate { gate, left, right } => gate.apply(
                left.value(truths),
                right.value(truths),
            ),
        }
    }

    /// What [`LogicTree::evaluate`] says of a terminal without an entry.
    pub open spec fn missing_terminal() -> Seq<char> {
        "Invalid terminals map"@
    }

    /// What [`LogicTree::evaluate`] says of a `Not` with two operands.
    pub open spec fn misplaced_not() -> Seq<char> {
        "NOT takes one operand"@
    }

    /// The truth value of the tree under `assignment`, the operands of a gate
    /// taken from left to right. A terminal without an entry is refused, and
    /// so is a `Not` at a gate with two operands.
    pub open spec fn outcome(self, assignment: Map<TerminalId, bool>) -> Result<bool, Seq<char>>
        decreases self,
    {
        match self {
            LogicTree::Terminal(id) => if assignment.contains_key(id) {
                Ok(assignment[id])
            } else {
                Err(Self::missing_terminal())
            },
            LogicTree::Not(operand) => match operand.outcome(assignment) {
                Ok(value) => Ok(!value),
                Err(message) => Err(message),
            },
            LogicTree::Gate { gate, left, right } => match left.outcome(assignment) {
                Err(message) => Err(message),
                Ok(left_value) => match right.outcome(assignment) {
                    Err(message) => Err(message),
                    Ok(right_value) => if gate.is_binary() {
                        Ok(gate.apply(left_value, right_value))
                    } else {
                        Err(Self::misplaced_not())
                    },
                },
            },
        }
    }

    /// Parses infix policy text.
    pub fn new(source: &str) -> (result: Result<Self, ParseError>)
        ensures
            parse_view(result) == parse_spec(source@),
            result matches Ok(tree) ==> tree.well_formed(),
    {
        parse(source)
    }

    /// Evaluates the tree under an assignment of its terminals.
    pub fn evaluate(&self, terminals: &HashMap<TerminalId, bool>) -> (result: Result<bool, String>)
        ensures
            match result {
                Ok(value) => self.outcome(terminals@) == Ok::<bool, Seq<char>>(value),
                Err(message) => self.outcome(terminals@) == Err::<bool, Seq<char>>(message@),
            },
        decreases self,
    {
        broadcast use vstd::std_specs::hash::group_hash_axioms;

        match self {
            LogicTree::Terminal(id) => match terminals.get(id) {
                Some(value) => Ok(*value),
                None => Err("Invalid terminals map".to_owned()),
            },
            LogicTree::Not(operand) => match operand.evaluate(terminals) {
                Ok(value) => Ok(!value),
                Err(message) => Err(message),
            },
            LogicTree::Gate { gate, left, right } => {
                let left_eval = match left.evaluate(terminals) {
                    Ok(value) => value,
                    Err(message) => {
                        return Err(message);
                    },
                };
                let right_eval = match right.evaluate(terminals) {
                    Ok(value) => value,
                    Err(message) => {
                        return Err(message);
                    },
                };
                match gate {
                    Gate::Not => Err("NOT takes one operand".to_owned()),
                    _ => Ok(gate.compute(left_eval, right_eval)),
                }
            },
        }
    }
}

impl FromStr for LogicTree {
    type Err = ParseError;

    fn from_str(input: &str) -> (result: Result<Self, Self::Err>)
        ensures
            parse_view(result) == parse_spec(input@),
    {
        Self::new(input)
    }
}

/// Where a tree is well formed and the assignment covers its terminals, its
/// evaluation succeeds with the tree's truth value.
pub proof fn lemma_outcome_is_value(tree: LogicTree, assignment: Map<TerminalId, bool>)
    requires
        tree.well_formed(),
        tree.terminals().subset_of(assignment.dom()),
    ensures
        tree.outcome(assignment) == Ok::<bool, Seq<char>>(
            tree.value(truths(assignment)),
        ),
    decreases tree,
{
    match tree {
        LogicTree::Terminal(_) => {},
        LogicTree::Not(operand) => {
            lemma_outcome_is_value(*operand, assignment);
        },
        LogicTree::Gate { gate, left, right } => {
            lemma_outcome_is_value(*left, assignment);
            lemma_outcome_is_value(*right, assignment);
        },
    }
}

} // verus!
