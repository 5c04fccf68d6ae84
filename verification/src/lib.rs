//! Boolean access policies: text over requirement slots ("terminals") and
//! logic gates.
//!
//! Infix text (`0 AND (1 OR NOT 2)`) is scanned and parsed in [`token`],
//! compiled to a binary decision diagram and evaluated against the outcomes
//! of the requirement checks in [`evaluator`]. List notation
//! (`((0 and 1) or 2)`) is read in [`lexer`] and [`parser`], written back
//! in [`writer`], and evaluated against a vector of truths in [`eval`].

use vstd::prelude::*;

pub mod data;
pub mod eval;
pub mod evaluator;
pub mod gate;
pub mod lexer;
pub mod parser;
pub mod requirement;
pub mod text;
pub mod token;
pub mod writer;

pub use eval::eval;
pub use gate::Gate;
pub use parser::parse;

verus! {

/// The number of a requirement slot. Equal numbers denote the same slot.
pub type TerminalId = u16;

/// An assignment as the set of terminals that hold under it: a terminal
/// without an entry does not.
pub open spec fn truths(values: Map<TerminalId, bool>) -> Set<TerminalId> {
    Set::new(|id: TerminalId| values.contains_key(id) && values[id])
}

} // verus!
