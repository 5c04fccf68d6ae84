use boolean_policy::data::{Expression, Gate, List, Literal, Value};
use boolean_policy::eval::{covers, eval, eval_expression, eval_logic, EvalError};
use boolean_policy::parser::{parse, ParsingError};

const THRUTHS: &[bool] = &[true, false, true, false, true, false];

#[test]
fn test_eval() {
    let res = eval("", THRUTHS).unwrap();
    assert!(res);

    let res = eval("()", THRUTHS).unwrap();
    assert!(res);

    let res = eval("0", THRUTHS).unwrap();
    assert!(res);

    let res = eval("1", THRUTHS).unwrap();
    assert!(!res);

    let res = eval("(not 0)", THRUTHS).unwrap();
    assert!(!res);

    let res = eval("(0 and 1)", THRUTHS).unwrap();
    assert!(!res);

    let res = eval("((0 and 1) or 2)", THRUTHS).unwrap();
    assert!(res);
}

#[test]
fn eval_every_gate() {
    for (left, right) in [(0, 2), (0, 1), (1, 0), (1, 3)] {
        let (l, r) = (THRUTHS[left], THRUTHS[right]);
        let text = |gate: &str| format!("({} {} {})", left, gate, right);
        assert_eq!(eval(&text("and"), THRUTHS).unwrap(), l && r);
        assert_eq!(eval(&text("or"), THRUTHS).unwrap(), l || r);
        assert_eq!(eval(&text("nand"), THRUTHS).unwrap(), !(l && r));
        assert_eq!(eval(&text("nor"), THRUTHS).unwrap(), !(l || r));
        assert_eq!(eval(&text("xor"), THRUTHS).unwrap(), l ^ r);
    }
    assert!(eval("(not 1)", THRUTHS).unwrap());
    assert!(eval("((5))", THRUTHS).map(|v| !v).unwrap());
}

#[test]
fn eval_refuses_misplaced_items() {
    match eval("(and)", THRUTHS) {
        Err(EvalError::NotATerminalId(Value::Gate(Gate::And))) => {}
        other => panic!("unexpected {:?}", other),
    }
    match eval("(0 1)", THRUTHS) {
        Err(EvalError::NotAGate(Value::Thruth(true))) => {}
        other => panic!("unexpected {:?}", other),
    }
    match eval("(and 1)", THRUTHS) {
        Err(EvalError::BinaryOperator(Gate::And)) => {}
        other => panic!("unexpected {:?}", other),
    }
    match eval("(0 not 1)", THRUTHS) {
        Err(EvalError::UnaryOperator(Gate::Not)) => {}
        other => panic!("unexpected {:?}", other),
    }
    match eval("(0 1 2)", THRUTHS) {
        Err(EvalError::NotAGate(Value::Thruth(false))) => {}
        other => panic!("unexpected {:?}", other),
    }
    match eval("(0 and 1 or)", THRUTHS) {
        Err(EvalError::InvalidList(Value::List(List(items)))) => assert_eq!(items.len(), 4),
        other => panic!("unexpected {:?}", other),
    }
    match eval("(and and 1)", THRUTHS) {
        Err(EvalError::NotATerminalId(Value::Gate(Gate::And))) => {}
        other => panic!("unexpected {:?}", other),
    }
    match eval("0 and 1", THRUTHS) {
        Err(EvalError::ParsingError(ParsingError::InvalidStart(_))) => {}
        other => panic!("unexpected {:?}", other),
    }
}

#[test]
fn eval_expression_resolves_terminals() {
    let expression = Expression::List(vec![
        Expression::Literal(Literal::TerminalId(0)),
        Expression::Literal(Literal::Gate(Gate::Xor)),
        Expression::List(vec![Expression::Literal(Literal::TerminalId(1))]),
    ]);
    let value = eval_expression(&expression, THRUTHS).unwrap();
    assert_eq!(
        value,
        Value::List(List(vec![
            Value::Thruth(true),
            Value::Gate(Gate::Xor),
            Value::List(List(vec![Value::Thruth(false)])),
        ]))
    );
    assert!(eval_logic(&value).unwrap());
    assert_eq!(value.clone(), value);
    assert_eq!(value.to_string(), "List");
    match value {
        Value::List(list) => {
            assert_eq!(list.to_string(), "(Thruth Gate List)");
            assert_eq!(list.clone(), list);
        }
        _ => unreachable!(),
    }
    assert_eq!(List(vec![]).to_string(), "()");
}

#[test]
fn covers_tells_whether_the_truths_reach() {
    let expression = parse("((0 and 5) or (not 2))").unwrap();
    assert!(covers(&expression, 6));
    assert!(covers(&expression, 7));
    assert!(!covers(&expression, 5));
    assert!(!covers(&expression, 0));
    assert!(covers(&parse("()").unwrap(), 0));
    assert!(covers(&parse("(and)").unwrap(), 0));
    assert!(!covers(&parse("65535").unwrap(), 65535));
}
