use boolean_policy::gate::Gate;
use boolean_policy::token::parse::{parse, parse_tokens, ParseError};
use boolean_policy::token::scan::ScanError;
use boolean_policy::token::{LogicTree, Token};
use std::collections::HashMap;
use std::str::FromStr;

fn is_equal_discriminant(this: &ParseError, that: &ParseError) -> bool {
    std::mem::discriminant(this) == std::mem::discriminant(that)
}

fn terminal(id: u16) -> Box<LogicTree> {
    Box::new(LogicTree::Terminal(id))
}

fn gate(gate: Gate, left: Box<LogicTree>, right: Box<LogicTree>) -> Box<LogicTree> {
    Box::new(LogicTree::Gate { gate, left, right })
}

#[test]
fn evaluate_tree() {
    let tree = LogicTree::from_str("0 AND 1 OR ((0 NAND 2) OR 3)").unwrap();
    let mut terminals = HashMap::new();
    terminals.insert(0, true);
    terminals.insert(1, true);
    terminals.insert(2, true);
    terminals.insert(3, true);
    assert!(tree.evaluate(&terminals).unwrap());
    let terminal = terminals.get_mut(&1).unwrap();
    *terminal = false;
    assert!(tree.evaluate(&terminals).unwrap());
    let terminal = terminals.get_mut(&3).unwrap();
    *terminal = false;
    assert!(!tree.evaluate(&terminals).unwrap());
    let terminal = terminals.get_mut(&2).unwrap();
    *terminal = false;
    assert!(tree.evaluate(&terminals).unwrap());
    let terminal = terminals.get_mut(&0).unwrap();
    *terminal = false;
    assert!(tree.evaluate(&terminals).unwrap());
}

#[test]
fn parse_parse_single_variable() {
    let tree = parse("0").unwrap();
    match tree {
        LogicTree::Terminal(c) => assert_eq!(c, 0),
        _ => panic!("should be terminal"),
    }

    let tree = parse("(11)").unwrap();
    match tree {
        LogicTree::Terminal(c) => assert_eq!(c, 11),
        _ => panic!("should be terminal"),
    }

    let tree = parse("((((111))))").unwrap();
    match tree {
        LogicTree::Terminal(c) => assert_eq!(c, 111),
        _ => panic!("should be terminal"),
    }
}

#[test]
fn parse_parse_single_whitespace() {
    match parse(" ").err().unwrap() {
        ParseError::ScanError(ScanError::EmptyExpression) => {}
        _ => panic!("should be scanner error, empty expression"),
    }
}

#[test]
fn parse_parse_invalid_terminals() {
    assert!(is_equal_discriminant(
        &parse("0 1").err().unwrap(),
        &ParseError::InvalidTerminalPlacement
    ));

    assert!(is_equal_discriminant(
        &parse("(1 AND 2) 3").err().unwrap(),
        &ParseError::InvalidTerminalPlacement
    ));

    assert!(is_equal_discriminant(
        &parse("(4) 5").err().unwrap(),
        &ParseError::InvalidTerminalPlacement
    ));

    assert!(is_equal_discriminant(
        &parse("(((6)) (7))").err().unwrap(),
        &ParseError::InvalidTerminalPlacement
    ));
}

#[test]
fn parse_parse_invalid_gates() {
    assert!(is_equal_discriminant(
        &parse("55 AND OR 44").err().unwrap(),
        &ParseError::InvalidGatePlacement
    ));

    assert!(is_equal_discriminant(
        &parse("(10 AND) OR 99").err().unwrap(),
        &ParseError::InvalidGatePlacement
    ));

    assert!(is_equal_discriminant(
        &parse("(1000 AND OR ) 12").err().unwrap(),
        &ParseError::InvalidGatePlacement
    ));

    assert!(is_equal_discriminant(
        &parse("0 AND (OR) 1").err().unwrap(),
        &ParseError::InvalidGatePlacement
    ));

    assert!(is_equal_discriminant(
        &parse("(1 NAND 4 OR )").err().unwrap(),
        &ParseError::InvalidGatePlacement
    ));

    assert!(is_equal_discriminant(
        &parse("0 NAND (1 OR ) XOR 2").err().unwrap(),
        &ParseError::InvalidGatePlacement
    ));
}

#[test]
fn parse_parse_valid_statement() {
    // empty parentheses are "discarded"
    assert!(parse("1 XOR () 2").is_ok());
    assert!(parse("1 NAND ( ()) 2").is_ok());

    let parsed = parse("119").unwrap();
    match parsed {
        LogicTree::Terminal(119) => {}
        _ => unreachable!(),
    }

    let parsed = parse("((15) NOR ((16)))").unwrap();
    match parsed {
        LogicTree::Gate {
            gate: Gate::Nor,
            left: terminal_15,
            right: terminal_16,
        } => match (*terminal_15, *terminal_16) {
            (LogicTree::Terminal(15), LogicTree::Terminal(16)) => {}
            _ => unreachable!(),
        },
        _ => unreachable!(),
    }

    let parsed = parse("0 AND 1 OR 2").unwrap();
    match parsed {
        LogicTree::Gate {
            gate: Gate::Or,
            left: tree,
            right: terminal_2,
        } => {
            match *terminal_2 {
                LogicTree::Terminal(2) => {}
                _ => unreachable!(),
            }
            match *tree {
                LogicTree::Gate {
                    gate: Gate::And,
                    left: terminal_0,
                    right: terminal_1,
                } => match (*terminal_0, *terminal_1) {
                    (LogicTree::Terminal(0), LogicTree::Terminal(1)) => {}
                    _ => unreachable!(),
                },
                _ => unreachable!(),
            }
        }
        _ => unreachable!(),
    }
    let parsed = parse("0 AND (10 OR 11) XOR 0").unwrap();
    // descending the tree is quite painful like this
    match parsed {
        LogicTree::Gate {
            gate: Gate::Xor,
            left: tree,
            right: terminal_0,
        } => {
            match *terminal_0 {
                LogicTree::Terminal(0) => {}
                _ => unreachable!(),
            }
            match *tree {
                LogicTree::Gate {
                    gate: Gate::And,
                    left: terminal_0,
                    right: tree,
                } => {
                    match *terminal_0 {
                        LogicTree::Terminal(0) => {}
                        _ => unreachable!(),
                    }
                    match *tree {
                        LogicTree::Gate {
                            gate: Gate::Or,
                            left: terminal_10,
                            right: terminal_11,
                        } => match (*terminal_10, *terminal_11) {
                            (LogicTree::Terminal(10), LogicTree::Terminal(11)) => {}
                            _ => unreachable!(),
                        },
                        _ => unreachable!(),
                    }
                }
                _ => unreachable!(),
            }
        }
        _ => unreachable!(),
    }
}

#[test]
fn parse_empty_groups_are_passed_over() {
    assert_eq!(
        parse("1 XOR () 2").unwrap(),
        *gate(Gate::Xor, terminal(1), terminal(2))
    );
    assert_eq!(
        parse("1 NAND ( ()) 2").unwrap(),
        *gate(Gate::Nand, terminal(1), terminal(2))
    );
    assert!(is_equal_discriminant(
        &parse("()").err().unwrap(),
        &ParseError::InvalidExpression
    ));
    assert!(is_equal_discriminant(
        &parse("(()) ()").err().unwrap(),
        &ParseError::InvalidExpression
    ));
}

#[test]
fn parse_structural_validation() {
    assert!(is_equal_discriminant(
        &parse("0 1").err().unwrap(),
        &ParseError::InvalidTerminalPlacement
    ));
    assert!(is_equal_discriminant(
        &parse("0 AND").err().unwrap(),
        &ParseError::InvalidGatePlacement
    ));
    match parse("(0").err().unwrap() {
        ParseError::ScanError(ScanError::InvalidParentheses) => {}
        other => panic!("unexpected {:?}", other),
    }
    assert!(is_equal_discriminant(
        &parse("0 AND OR 1").err().unwrap(),
        &ParseError::InvalidGatePlacement
    ));
    assert!(is_equal_discriminant(
        &parse("AND 1").err().unwrap(),
        &ParseError::InvalidGatePlacement
    ));
}

#[test]
fn parse_not_takes_the_operand_that_follows() {
    assert_eq!(
        parse("NOT 0").unwrap(),
        LogicTree::Not(terminal(0))
    );
    assert_eq!(
        parse("NOT NOT 4").unwrap(),
        LogicTree::Not(Box::new(LogicTree::Not(terminal(4))))
    );
    assert_eq!(
        parse("0 AND NOT 1").unwrap(),
        *gate(Gate::And, terminal(0), Box::new(LogicTree::Not(terminal(1))))
    );
    assert_eq!(
        parse("NOT (0 OR 1) XOR 2").unwrap(),
        *gate(
            Gate::Xor,
            Box::new(LogicTree::Not(gate(Gate::Or, terminal(0), terminal(1)))),
            terminal(2)
        )
    );
    assert_eq!(
        parse("NOT () 3").unwrap(),
        LogicTree::Not(terminal(3))
    );
    for text in ["NOT", "0 NOT", "0 NOT 1", "0 AND NOT", "(NOT) 1", "0 AND (NOT) 1", "NOT AND 1"] {
        assert!(
            is_equal_discriminant(&parse(text).err().unwrap(), &ParseError::InvalidGatePlacement),
            "{}",
            text
        );
    }
}

#[test]
fn parse_tokens_reads_one_group() {
    let tokens = vec![
        Token::Terminal(0),
        Token::Whitespace,
        Token::Gate(Gate::Or),
        Token::Terminal(1),
        Token::ClosingParenthesis,
        Token::Terminal(2),
    ];
    assert_eq!(
        parse_tokens(&tokens).unwrap(),
        *gate(Gate::Or, terminal(0), terminal(1))
    );
    assert!(is_equal_discriminant(
        &parse_tokens::<u16>(&vec![]).err().unwrap(),
        &ParseError::InvalidExpression
    ));
    assert_eq!(
        parse_tokens(&vec![Token::OpeningParenthesis, Token::Terminal(9)]).unwrap(),
        LogicTree::Terminal(9)
    );
}

#[test]
fn tree_evaluation_refuses_what_it_cannot_value() {
    let tree = LogicTree::new("0 XOR NOT 1").unwrap();
    let mut terminals = HashMap::new();
    terminals.insert(0, true);
    assert_eq!(tree.evaluate(&terminals), Err("Invalid terminals map".to_string()));
    terminals.insert(1, true);
    assert_eq!(tree.evaluate(&terminals), Ok(true));
    terminals.insert(1, false);
    assert_eq!(tree.evaluate(&terminals), Ok(false));
    assert_eq!(tree.clone(), tree);

    let misplaced = gate(Gate::Not, terminal(0), terminal(1));
    assert_eq!(misplaced.evaluate(&terminals), Err("NOT takes one operand".to_string()));
}

#[test]
fn well_formed_trees_have_no_not_between_operands() {
    assert!(parse("NOT (0 AND NOT 1) XOR 2").unwrap().is_well_formed());
    assert!(LogicTree::Terminal(0u16).is_well_formed());
    assert!(!gate(Gate::Not, terminal(0), terminal(1)).is_well_formed());
    assert!(!LogicTree::Not(gate(Gate::Not, terminal(0), terminal(1))).is_well_formed());
    assert!(!gate(Gate::And, terminal(0), gate(Gate::Not, terminal(1), terminal(2))).is_well_formed());
}
