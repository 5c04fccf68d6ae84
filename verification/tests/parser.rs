use boolean_policy::data::{Expression, Gate, Literal, Token};
use boolean_policy::lexer::LexingError;
use boolean_policy::parser::{parse, parse_list, ParsingError};

#[test]
fn parser_test_empty() {
    let list = parse("").unwrap();
    assert_eq!(list, Expression::List(vec![]));

    let list = parse("()").unwrap();
    assert_eq!(list, Expression::List(vec![]));
}

#[test]
fn parser_test_terminal_id() {
    let list = parse("0").unwrap();
    assert_eq!(list, Expression::Literal(Literal::TerminalId(0)));

    let list = parse("69").unwrap();
    assert_eq!(list, Expression::Literal(Literal::TerminalId(69)));
}

#[test]
#[should_panic]
fn parser_test_gate() {
    parse("and").unwrap();
}

#[test]
fn parser_test_logic_string() {
    let list = parse("(0 and 1)").unwrap();
    assert_eq!(
        list,
        Expression::List(vec![
            Expression::Literal(Literal::TerminalId(0)),
            Expression::Literal(Literal::Gate(Gate::And)),
            Expression::Literal(Literal::TerminalId(1)),
        ])
    );

    let list = parse("((0 and 1) or 2)").unwrap();
    assert_eq!(
        list,
        Expression::List(vec![
            Expression::List(vec![
                Expression::Literal(Literal::TerminalId(0)),
                Expression::Literal(Literal::Gate(Gate::And)),
                Expression::Literal(Literal::TerminalId(1))
            ]),
            Expression::Literal(Literal::Gate(Gate::Or)),
            Expression::Literal(Literal::TerminalId(2)),
        ])
    );
}

#[test]
fn parser_single_token_must_be_a_terminal() {
    match parse("and") {
        Err(ParsingError::NoSuchExpression(name)) => assert_eq!(name, "AND"),
        other => panic!("unexpected {:?}", other),
    }
    let mut stack = vec![Token::ParenOpen];
    match parse_list(&mut stack) {
        Err(ParsingError::NoSuchExpression(name)) => assert_eq!(name, "ParenOpen"),
        other => panic!("unexpected {:?}", other),
    }
    let mut stack = vec![Token::ParenClose];
    match parse_list(&mut stack) {
        Err(ParsingError::NoSuchExpression(name)) => assert_eq!(name, "ParenClose"),
        other => panic!("unexpected {:?}", other),
    }
}

#[test]
fn parser_text_must_start_with_a_list() {
    match parse("0 and 1") {
        Err(ParsingError::InvalidStart(name)) => assert_eq!(name, "TerminalId"),
        other => panic!("unexpected {:?}", other),
    }
    match parse("not (0)") {
        Err(ParsingError::InvalidStart(name)) => assert_eq!(name, "Gate"),
        other => panic!("unexpected {:?}", other),
    }
    match parse(")(") {
        Err(ParsingError::InvalidStart(name)) => assert_eq!(name, "ParenClose"),
        other => panic!("unexpected {:?}", other),
    }
}

#[test]
fn parser_passes_lexing_failures_on() {
    match parse("(0") {
        Err(ParsingError::LexingError(LexingError::ParenCountMismatch)) => {}
        other => panic!("unexpected {:?}", other),
    }
    match parse("(0 ? 1)") {
        Err(ParsingError::LexingError(LexingError::InvalidCharacter('?', 3))) => {}
        other => panic!("unexpected {:?}", other),
    }
}

#[test]
fn parse_list_takes_what_it_read_off_the_stack() {
    // "(0) 1", the next token last
    let mut stack = vec![
        Token::TerminalId(1),
        Token::ParenClose,
        Token::TerminalId(0),
        Token::ParenOpen,
    ];
    let list = parse_list(&mut stack).unwrap();
    assert_eq!(
        list,
        Expression::List(vec![Expression::Literal(Literal::TerminalId(0))])
    );
    assert_eq!(stack, vec![Token::TerminalId(1)]);

    let mut stack: Vec<Token> = vec![];
    assert_eq!(parse_list(&mut stack).unwrap(), Expression::List(vec![]));
    assert!(stack.is_empty());
}

#[test]
fn parse_list_closes_an_open_list_at_the_end() {
    // "(0 (1", the next token last
    let mut stack = vec![
        Token::TerminalId(1),
        Token::ParenOpen,
        Token::TerminalId(0),
        Token::ParenOpen,
    ];
    let list = parse_list(&mut stack).unwrap();
    assert_eq!(
        list,
        Expression::List(vec![
            Expression::Literal(Literal::TerminalId(0)),
            Expression::List(vec![Expression::Literal(Literal::TerminalId(1))]),
        ])
    );
    assert!(stack.is_empty());
}

#[test]
fn parse_list_refuses_a_list_opened_by_the_last_token() {
    // "(0 (", the next token last
    let mut stack = vec![Token::ParenOpen, Token::TerminalId(0), Token::ParenOpen];
    match parse_list(&mut stack) {
        Err(ParsingError::NoSuchExpression(name)) => assert_eq!(name, "ParenOpen"),
        other => panic!("unexpected {:?}", other),
    }
}

#[test]
fn expression_text_shows_terminals_and_gates() {
    let list = parse("((0 and 1) or 2)").unwrap();
    assert_eq!(list.to_string(), "((0 AND 1) OR 2)");
    assert_eq!(parse("()").unwrap().to_string(), "()");
    assert_eq!(parse("7").unwrap().to_string(), "7");
    assert_eq!(parse("(not (0065535))").unwrap().to_string(), "(NOT (65535))");
    assert_eq!(list.clone(), list);
    assert_eq!(Literal::TerminalId(40).to_string(), "40");
    assert_eq!(Literal::Gate(Gate::Nand).to_string(), "NAND");
    assert_eq!(Token::Gate(Gate::Nor).to_string(), "Gate");
    assert_eq!(Gate::Nor.to_string(), "NOR");
    assert_eq!(Literal::try_from(Token::TerminalId(3)).unwrap(), Literal::TerminalId(3));
    assert!(Literal::try_from(Token::ParenOpen).is_err());
}

#[test]
fn written_expression_parses_to_the_same_expression() {
    let sources = [
        "",
        "()",
        "0",
        "65535",
        "(7)",
        "(not 0)",
        "(0 and 1)",
        "((0 and 1) or 2)",
        "(() (()) xor nand 3 4 (5 nor (6)))",
        "(\t0\nAND\x0c1 )",
    ];
    for source in sources {
        let expression = parse(source).unwrap();
        let written = expression.to_string();
        assert_eq!(parse(&written).unwrap(), expression, "{} as {}", source, written);
    }
    assert_eq!(
        parse("(0 and (1 or 2))").unwrap().tokens(),
        vec![
            Token::ParenOpen,
            Token::TerminalId(0),
            Token::Gate(Gate::And),
            Token::ParenOpen,
            Token::TerminalId(1),
            Token::Gate(Gate::Or),
            Token::TerminalId(2),
            Token::ParenClose,
            Token::ParenClose,
        ]
    );
}

#[test]
fn parser_structural_validation() {
    match parse("0 1") {
        Err(ParsingError::InvalidTerminalPlacement) => {}
        other => panic!("unexpected {:?}", other),
    }
    match parse("0 AND") {
        Err(ParsingError::InvalidGatePlacement) => {}
        other => panic!("unexpected {:?}", other),
    }
    match parse("(0") {
        Err(ParsingError::LexingError(LexingError::ParenCountMismatch)) => {}
        other => panic!("unexpected {:?}", other),
    }
    match parse("0 AND OR 1") {
        Err(ParsingError::InvalidGatePlacement) => {}
        other => panic!("unexpected {:?}", other),
    }
    match parse("and 1") {
        Err(ParsingError::InvalidGatePlacement) => {}
        other => panic!("unexpected {:?}", other),
    }
    match parse("0 and (1) 2") {
        Err(ParsingError::InvalidTerminalPlacement) => {}
        other => panic!("unexpected {:?}", other),
    }
}

#[test]
fn parser_reads_all_of_the_text_or_nothing() {
    match parse("0 1") {
        Err(ParsingError::InvalidTerminalPlacement) => {}
        other => panic!("unexpected {:?}", other),
    }
    match parse("0 (1)") {
        Err(ParsingError::InvalidTerminalPlacement) => {}
        other => panic!("unexpected {:?}", other),
    }
    match parse("(4) 5") {
        Err(ParsingError::InvalidTerminalPlacement) => {}
        other => panic!("unexpected {:?}", other),
    }
    match parse("()1") {
        Err(ParsingError::InvalidTerminalPlacement) => {}
        other => panic!("unexpected {:?}", other),
    }
    match parse("(0) (1)") {
        Err(ParsingError::InvalidTerminalPlacement) => {}
        other => panic!("unexpected {:?}", other),
    }
    match parse("(0) and") {
        Err(ParsingError::InvalidGatePlacement) => {}
        other => panic!("unexpected {:?}", other),
    }
    match parse("(0))(") {
        Err(ParsingError::NoSuchExpression(name)) => assert_eq!(name, "ParenClose"),
        other => panic!("unexpected {:?}", other),
    }
}
