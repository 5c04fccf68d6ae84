use boolean_policy::gate::Gate;
use boolean_policy::token::parser::{parse, ParseError, TokenTree};
use boolean_policy::token::scanner::ScannerError;

fn is_equal_discriminant(this: &ParseError, that: &ParseError) -> bool {
    std::mem::discriminant(this) == std::mem::discriminant(that)
}

#[test]
fn parser_parse_single_variable() {
    let tree = parse("p").unwrap();
    match tree {
        TokenTree::Terminal(c) => assert_eq!(c, 'p'),
        _ => panic!("should be terminal"),
    }

    let tree = parse("(p)").unwrap();
    match tree {
        TokenTree::Terminal(c) => assert_eq!(c, 'p'),
        _ => panic!("should be terminal"),
    }

    let tree = parse("((((p))))").unwrap();
    match tree {
        TokenTree::Terminal(c) => assert_eq!(c, 'p'),
        _ => panic!("should be terminal"),
    }
}

#[test]
fn parser_parse_single_whitespace() {
    match parse(" ").err().unwrap() {
        ParseError::ScanError(ScannerError::EmptyExpression) => {}
        _ => panic!("should be scanner error, empty expression"),
    }
}

#[test]
fn parser_parse_invalid_terminals() {
    assert!(is_equal_discriminant(
        &parse("a b").err().unwrap(),
        &ParseError::InvalidTerminalPlacement
    ));

    assert!(is_equal_discriminant(
        &parse("(a AND c) b").err().unwrap(),
        &ParseError::InvalidTerminalPlacement
    ));

    assert!(is_equal_discriminant(
        &parse("(a) b").err().unwrap(),
        &ParseError::InvalidTerminalPlacement
    ));

    assert!(is_equal_discriminant(
        &parse("(((a)) (b))").err().unwrap(),
        &ParseError::InvalidTerminalPlacement
    ));
}

#[test]
fn parser_parse_invalid_gates() {
    assert!(is_equal_discriminant(
        &parse("a AND OR b").err().unwrap(),
        &ParseError::InvalidGatePlacement
    ));

    assert!(is_equal_discriminant(
        &parse("(a AND) OR b").err().unwrap(),
        &ParseError::InvalidGatePlacement
    ));

    assert!(is_equal_discriminant(
        &parse("(a AND OR ) b").err().unwrap(),
        &ParseError::InvalidGatePlacement
    ));

    assert!(is_equal_discriminant(
        &parse("a AND (OR) b").err().unwrap(),
        &ParseError::InvalidGatePlacement
    ));

    assert!(is_equal_discriminant(
        &parse("(a NAND b OR )").err().unwrap(),
        &ParseError::InvalidGatePlacement
    ));

    assert!(is_equal_discriminant(
        &parse("a NAND (b OR ) XOR c").err().unwrap(),
        &ParseError::InvalidGatePlacement
    ));
}

#[test]
fn parser_parse_valid_statement() {
    // empty parentheses are "discarded"
    assert!(parse("a XOR () b").is_ok());
    assert!(parse("a NAND ( ()) b").is_ok());

    let parsed = parse("a AND b OR c").unwrap();
    match parsed {
        TokenTree::Gate {
            gate: Gate::Or,
            left: tree,
            right: terminal_c,
        } => {
            match *terminal_c {
                TokenTree::Terminal('c') => {}
                _ => unreachable!(),
            }
            match *tree {
                TokenTree::Gate {
                    gate: Gate::And,
                    left: terminal_a,
                    right: terminal_b,
                } => match (*terminal_a, *terminal_b) {
                    (TokenTree::Terminal('a'), TokenTree::Terminal('b')) => {}
                    _ => unreachable!(),
                },
                _ => unreachable!(),
            }
        }
        _ => unreachable!(),
    }
    let parsed = parse("a AND (b OR c) XOR d").unwrap();
    // descending the tree is quite painful like this
    match parsed {
        TokenTree::Gate {
            gate: Gate::Xor,
            left: tree,
            right: terminal_d,
        } => {
            match *terminal_d {
                TokenTree::Terminal('d') => {}
                _ => unreachable!(),
            }
            match *tree {
                TokenTree::Gate {
                    gate: Gate::And,
                    left: terminal_a,
                    right: tree,
                } => {
                    match *terminal_a {
                        TokenTree::Terminal('a') => {}
                        _ => unreachable!(),
                    }
                    match *tree {
                        TokenTree::Gate {
                            gate: Gate::Or,
                            left: terminal_b,
                            right: terminal_c,
                        } => match (*terminal_b, *terminal_c) {
                            (TokenTree::Terminal('b'), TokenTree::Terminal('c')) => {}
                            _ => unreachable!(),
                        },
                        _ => unreachable!(),
                    }
                }
                _ => unreachable!(),
            }
        }
        _ => unreachable!(),
    }
}

#[test]
fn parser_negation_of_letters() {
    assert_eq!(
        parse("NOT p AND q").unwrap(),
        TokenTree::Gate {
            gate: Gate::And,
            left: Box::new(TokenTree::Not(Box::new(TokenTree::Terminal('p')))),
            right: Box::new(TokenTree::Terminal('q')),
        }
    );
}
