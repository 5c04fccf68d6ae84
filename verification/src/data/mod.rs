//! The data of list-notation policies: tokens, expressions and values.

mod expression;
mod token;
mod value;

pub use self::expression::{expression_view, Expression, ExpressionView, Literal};
pub use self::token::{infix_tokens, TerminalId, Token};
pub use self::value::{lemma_value_list_view, names, value_view, value_views, List, Value, ValueView};
pub use crate::gate::Gate;
