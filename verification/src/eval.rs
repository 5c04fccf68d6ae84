//! Evaluating list-notation policies against a vector of truths.

use crate::data::{
    lemma_value_list_view, value_views, Expression, ExpressionView, Gate, List, Literal, Value,
    ValueView,
};
use crate::parser::{parse, parse_spec, ParsingError, ParsingFailure};
use vstd::prelude::*;

verus! {

/// Why a list-notation policy has no truth value.
#[derive(Debug)]
pub enum EvalError {
    /// The value stands where a gate must.
    NotAGate(Value),
    /// A gate stands where a truth or a list must.
    NotATerminalId(Value),
    /// A gate of one operand stands between two.
    UnaryOperator(Gate),
    /// A gate of two operands stands before one.
    BinaryOperator(Gate),
    /// The list has more than three items.
    InvalidList(Value),
    /// The text has no expression.
    ParsingError(ParsingError),
}

/// The value of an [`EvalError`].
pub enum EvalFailure {
    NotAGate(ValueView),
    NotATerminalId(ValueView),
    UnaryOperator(Gate),
    BinaryOperator(Gate),
    InvalidList(ValueView),
    ParsingError(ParsingFailure),
}

impl View for EvalError {
    type V = EvalFailure;

    open spec fn view(&self) -> EvalFailure {
        match self {
            EvalError::NotAGate(value) => EvalFailure::NotAGate(value@),
            EvalError::NotATerminalId(value) => EvalFailure::NotATerminalId(value@),
            EvalError::UnaryOperator(gate) => EvalFailure::UnaryOperator(*gate),
            EvalError::BinaryOperator(gate) => EvalFailure::BinaryOperator(*gate),
            EvalError::InvalidList(value) => EvalFailure::InvalidList(value@),
            EvalError::ParsingError(error) => EvalFailure::ParsingError(error@),
        }
    }
}

/// Every terminal id of the expression is below `count`.
pub open spec fn ids_below(expression: ExpressionView, count: int) -> bool
    decreases expression,
{
    match expression {
        ExpressionView::Literal(Literal::TerminalId(id)) => id < count,
        ExpressionView::Literal(Literal::Gate(_)) => true,
        ExpressionView::List(list) => forall|i: int|
            0 <= i < list.len() ==> ids_below(#[trigger] list[i], count),
    }
}

/// Tests whether every terminal id of the expression is below `count`.
pub fn covers(expression: &Expression, count: usize) -> (covered: bool)
    ensures
        covered == ids_below(expression@, count as int),
    decreases expression,
{
    match expression {
        Expression::Literal(Literal::TerminalId(id)) => (*id as usize) < count,
        Expression::Literal(Literal::Gate(_)) => true,
        Expression::List(list) => {
            let mut i: usize = 0;
            proof {
                assert(decreases_to!(*expression => *list));
            }
            while i < list.len()
                invariant
                    0 <= i <= list.len(),
                    *expression == Expression::List(*list),
                    decreases_to!(*expression => *list),
                    forall|j: int| 0 <= j < i ==> ids_below(list@[j]@, count as int),
                decreases list.len() - i,
            {
                proof {
                    assert(decreases_to!(*list => list[i as int]));
                    assert(expression@->List_0[i as int] == list@[i as int]@);
                }
                if !covers(&list[i], count) {
                    return false;
                }
                i += 1;
            }
            proof {
                assert forall|j: int| 0 <= j < expression@->List_0.len() implies ids_below(
                    #[trigger] expression@->List_0[j],
                    count as int,
                ) by {
                    assert(expression@->List_0[j] == list@[j]@);
                }
            }
            true
        },
    }
}

/// The expression with each terminal replaced by its truth: terminal `id`
/// by `thruths[id]`.
pub open spec fn resolve(expression: ExpressionView, thruths: Seq<bool>) -> ValueView
    decreases expression,
{
    match expression {
        ExpressionView::Literal(Literal::TerminalId(id)) => ValueView::Thruth(thruths[id as int]),
        ExpressionView::Literal(Literal::Gate(gate)) => ValueView::Gate(gate),
        ExpressionView::List(list) => ValueView::List(
            Seq::new(
                list.len(),
                |i: int|
                    if 0 <= i < list.len() {
                        resolve(list[i], thruths)
                    } else {
                        ValueView::List(Seq::empty())
                    },
            ),
        ),
    }
}

/// The truth of a value. A truth is itself. The empty list is true; a list
/// of one item is that item; a list of two is `NOT` and its operand; a list
/// of three is a gate of two operands between them, the left one evaluated
/// first. Anything else is refused.
pub open spec fn logic(value: ValueView) -> Result<bool, EvalFailure>
    decreases value,
{
    match value {
        ValueView::Thruth(thruth) => Ok(thruth),
        ValueView::Gate(_) => Err(EvalFailure::NotATerminalId(value)),
        ValueView::List(list) => if list.len() == 0 {
            Ok(true)
        } else if list.len() == 1 {
            logic(list[0])
        } else if list.len() == 2 {
            match list[0] {
                ValueView::Gate(gate) => if gate == Gate::Not {
                    match logic(list[1]) {
                        Ok(right) => Ok(!right),
                        Err(failure) => Err(failure),
                    }
                } else {
                    Err(EvalFailure::BinaryOperator(gate))
                },
                _ => Err(EvalFailure::NotAGate(list[0])),
            }
        } else if list.len() == 3 {
            match logic(list[0]) {
                Err(failure) => Err(failure),
                Ok(left) => match logic(list[2]) {
                    Err(failure) => Err(failure),
                    Ok(right) => match list[1] {
                        ValueView::Gate(gate) => if gate.is_binary() {
                            Ok(gate.apply(left, right))
                        } else {
                            Err(EvalFailure::UnaryOperator(gate))
                        },
                        _ => Err(EvalFailure::NotAGate(list[1])),
                    },
                },
            }
        } else {
            Err(EvalFailure::InvalidList(value))
        },
    }
}

/// The truth of a list-notation text under `thruths`.
pub open spec fn eval_spec(text: Seq<char>, thruths: Seq<bool>) -> Result<bool, EvalFailure> {
    match parse_spec(text) {
        Err(failure) => Err(EvalFailure::ParsingError(failure)),
        Ok(expression) => logic(resolve(expression, thruths)),
    }
}

/// The value of what an evaluation returns.
pub open spec fn eval_view(result: Result<bool, EvalError>) -> Result<bool, EvalFailure> {
    match result {
        Ok(thruth) => Ok(thruth),
        Err(error) => Err(error@),
    }
}

/// Evaluates list-notation policy text, terminal `id` being `thruths[id]`.
pub fn eval(logic_str: &str, thruths: &[bool]) -> (result: Result<bool, EvalError>)
    requires
        parse_spec(logic_str@) matches Ok(expression) ==> ids_below(
            expression,
            thruths@.len() as int,
        ),
    ensures
        eval_view(result) == eval_spec(logic_str@, thruths@),
{
    let parsed = match parse(logic_str) {
        Ok(parsed) => parsed,
        Err(error) => {
            return Err(EvalError::ParsingError(error));
        },
    };
    let value = match eval_expression(&parsed, thruths) {
        Ok(value) => value,
        Err(error) => {
            return Err(error);
        },
    };
    eval_logic(&value)
}

/// Replaces each terminal of the expression by its truth.
pub fn eval_expression(expression: &Expression, thruths: &[bool]) -> (result: Result<
    Value,
    EvalError,
>)
    requires
        ids_below(expression@, thruths@.len() as int),
    ensures
        result matches Ok(value) && value@ == resolve(expression@, thruths@),
    decreases expression,
{
    let value = match expression {
        Expression::Literal(literal) => match literal {
            Literal::TerminalId(id) => Value::Thruth(thruths[*id as usize]),
            Literal::Gate(gate) => Value::Gate(*gate),
        },
        Expression::List(list) => {
            let mut values: Vec<Value> = Vec::new();
            let mut i: usize = 0;
            while i < list.len()
                invariant
                    0 <= i <= list.len(),
                    *expression == Expression::List(*list),
                    decreases_to!(*expression => *list),
                    ids_below(expression@, thruths@.len() as int),
                    values.len() == i,
                    forall|j: int| 0 <= j < i ==> values@[j]@ == resolve(list@[j]@, thruths@),
                decreases list.len() - i,
            {
                proof {
                    assert(expression@->List_0[i as int] == list@[i as int]@);
                }
                let value = match eval_expression(&list[i], thruths) {
                    Ok(value) => value,
                    Err(error) => {
                        return Err(error);
                    },
                };
                values.push(value);
                i += 1;
            }
            proof {
                lemma_value_list_view(values);
                assert(value_views(values@) =~= resolve(expression@, thruths@)->List_0);
            }
            Value::List(List(values))
        },
    };
    Ok(value)
}

/// Computes the truth of a value.
pub fn eval_logic(value: &Value) -> (result: Result<bool, EvalError>)
    ensures
        eval_view(result) == logic(value@),
    decreases value,
{
    let res = match value {
        Value::Thruth(thruth) => *thruth,
        Value::Gate(_) => {
            return Err(EvalError::NotATerminalId(value.clone()));
        },
        Value::List(List(list)) => {
            proof {
                assert(forall|i: int|
                    0 <= i < list.len() ==> decreases_to!(*list => #[trigger] list[i]));
                assert(forall|i: int|
                    0 <= i < list.len() ==> value@->List_0[i] == #[trigger] list@[i]@);
            }
            match list.len() {
                0 => true,
                1 => match eval_logic(&list[0]) {
                    Ok(thruth) => thruth,
                    Err(error) => {
                        return Err(error);
                    },
                },
                2 => {
                    let gate = match &list[0] {
                        Value::Gate(gate) => *gate,
                        _ => {
                            return Err(EvalError::NotAGate(list[0].clone()));
                        },
                    };
                    if gate == Gate::Not {
                        let right = match eval_logic(&list[1]) {
                            Ok(thruth) => thruth,
                            Err(error) => {
                                return Err(error);
                            },
                        };
                        !right
                    } else {
                        return Err(EvalError::BinaryOperator(gate));
                    }
                },
                3 => {
                    let left = match eval_logic(&list[0]) {
                        Ok(thruth) => thruth,
                        Err(error) => {
                            return Err(error);
                        },
                    };
                    let right = match eval_logic(&list[2]) {
                        Ok(thruth) => thruth,
                        Err(error) => {
                            return Err(error);
                        },
                    };
                    let gate = match &list[1] {
                        Value::Gate(gate) => *gate,
                        _ => {
                            return Err(EvalError::NotAGate(list[1].clone()));
                        },
                    };
                    match gate {
                        Gate::Not => {
                            return Err(EvalError::UnaryOperator(gate));
                        },
                        _ => gate.compute(left, right),
                    }
                },
                _ => {
                    return Err(EvalError::InvalidList(value.clone()));
                },
            }
        },
    };
    Ok(res)
}

} // verus!
