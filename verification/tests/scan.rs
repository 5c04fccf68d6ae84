use boolean_policy::gate::Gate;
use boolean_policy::token::scan::{LexemeError, ScanError, Scanner};
use boolean_policy::token::Token;

fn is_equal_discriminant(this: &ScanError, that: &ScanError) -> bool {
    std::mem::discriminant(this) == std::mem::discriminant(that)
}

#[test]
fn scan_scan_empty() {
    assert!(is_equal_discriminant(
        &Scanner::scan("").err().unwrap(),
        &ScanError::EmptyExpression
    ));
}

#[test]
fn scan_scan_whitespace() {
    assert!(is_equal_discriminant(
        &Scanner::scan(" ").err().unwrap(),
        &ScanError::EmptyExpression
    ));
}

#[test]
fn scan_scan_parentheses() {
    assert_eq!(
        &Scanner::scan("( )").unwrap(),
        &[Token::OpeningParenthesis, Token::ClosingParenthesis]
    );

    let error = Scanner::scan("(()").err().unwrap();
    assert!(is_equal_discriminant(
        &error,
        &ScanError::InvalidParentheses,
    ));

    let error = Scanner::scan("    )").err().unwrap();
    assert!(is_equal_discriminant(
        &error,
        &ScanError::InvalidParentheses,
    ));

    let error = Scanner::scan("(())(").err().unwrap();
    assert!(is_equal_discriminant(
        &error,
        &ScanError::InvalidParentheses,
    ));

    let error = Scanner::scan("())))))))))))))").err().unwrap();
    assert!(is_equal_discriminant(
        &error,
        &ScanError::InvalidParentheses,
    ));
}

#[test]
fn scan_terminal() {
    assert_eq!(&Scanner::scan("0").unwrap(), &[Token::Terminal(0)]);
    assert_eq!(&Scanner::scan("77").unwrap(), &[Token::Terminal(77)]);
    assert_eq!(
        &Scanner::scan("3 123").unwrap(),
        &[Token::Terminal(3), Token::Terminal(123),]
    );
    assert_eq!(
        &Scanner::scan("65535 0000").unwrap(),
        &[Token::Terminal(65535), Token::Terminal(0),]
    );
    assert!(is_equal_discriminant(
        &Scanner::scan(&u128::MAX.to_string()).err().unwrap(),
        &ScanError::Transparent(LexemeError::MalformedTerminalId),
    ));
}

#[test]
fn scan_scan_gate() {
    assert_eq!(&Scanner::scan("AND").unwrap(), &[Token::Gate(Gate::And)]);
    assert_eq!(
        &Scanner::scan("OR NAND XOR NOR").unwrap(),
        &[
            Token::Gate(Gate::Or),
            Token::Gate(Gate::Nand),
            Token::Gate(Gate::Xor),
            Token::Gate(Gate::Nor),
        ]
    );

    assert_eq!(
        &Scanner::scan("(AND)").unwrap(),
        &[
            Token::OpeningParenthesis,
            Token::Gate(Gate::And),
            Token::ClosingParenthesis
        ]
    );
}

#[test]
fn scan_scan_invalid_gate() {
    assert!(Scanner::scan("A").is_err());
    assert!(Scanner::scan("ANDOR").is_err());
    assert!(Scanner::scan("XXR").is_err());
    // keywords are read whatever the case of their letters
    assert_eq!(&Scanner::scan("NANd").unwrap(), &[Token::Gate(Gate::Nand)]);
    assert_eq!(&Scanner::scan("Or").unwrap(), &[Token::Gate(Gate::Or)]);
}

#[test]
fn scan_reads_keywords_in_any_case() {
    assert_eq!(
        &Scanner::scan("0 and 1 xOr 2 NoT 3").unwrap(),
        &[
            Token::Terminal(0),
            Token::Gate(Gate::And),
            Token::Terminal(1),
            Token::Gate(Gate::Xor),
            Token::Terminal(2),
            Token::Gate(Gate::Not),
            Token::Terminal(3),
        ]
    );
    assert_eq!(
        &Scanner::scan("0nor1").unwrap(),
        &[Token::Terminal(0), Token::Gate(Gate::Nor), Token::Terminal(1)]
    );
    // the run of letters is taken whole
    assert!(Scanner::scan("0 ANDor 1").is_err());
}

#[test]
fn scan_scan_expression() {
    assert_eq!(
        &Scanner::scan("((0AND1)NAND XOR 123 999 OR 1024)").unwrap(),
        &[
            Token::OpeningParenthesis,
            Token::OpeningParenthesis,
            Token::Terminal(0),
            Token::Gate(Gate::And),
            Token::Terminal(1),
            Token::ClosingParenthesis,
            Token::Gate(Gate::Nand),
            Token::Gate(Gate::Xor),
            Token::Terminal(123),
            Token::Terminal(999),
            Token::Gate(Gate::Or),
            Token::Terminal(1024),
            Token::ClosingParenthesis,
        ]
    );
}

#[test]
fn scan_failures_carry_their_cause() {
    match Scanner::scan("0 AND &") {
        Err(ScanError::InvalidToken('&', 6)) => {}
        other => panic!("unexpected {:?}", other),
    }
    match Scanner::scan("0_AND 1") {
        Err(ScanError::InvalidToken('_', 1)) => {}
        other => panic!("unexpected {:?}", other),
    }
    assert_eq!(
        &Scanner::scan("0\tAND\r\n1\x0c").unwrap(),
        &[Token::Terminal(0), Token::Gate(Gate::And), Token::Terminal(1)]
    );
    match Scanner::scan(" \t\n") {
        Err(ScanError::EmptyExpression) => {}
        other => panic!("unexpected {:?}", other),
    }
    match Scanner::scan("NANx") {
        Err(ScanError::Transparent(LexemeError::UnknownGate(word))) => assert_eq!(word, "NANX"),
        other => panic!("unexpected {:?}", other),
    }
    match Scanner::scan("1 ANDOR 2") {
        Err(ScanError::Transparent(LexemeError::UnknownGate(word))) => assert_eq!(word, "ANDOR"),
        other => panic!("unexpected {:?}", other),
    }
    match Scanner::scan("65536") {
        Err(ScanError::Transparent(LexemeError::MalformedTerminalId)) => {}
        other => panic!("unexpected {:?}", other),
    }
    assert_eq!(&Scanner::scan("NOT 1").unwrap(), &[Token::Gate(Gate::Not), Token::Terminal(1)]);
}

#[test]
fn scan_first_failure_wins() {
    match Scanner::scan(") ?") {
        Err(ScanError::InvalidToken('?', 2)) => {}
        other => panic!("unexpected {:?}", other),
    }
    match Scanner::scan(")(") {
        Err(ScanError::InvalidParentheses) => {}
        other => panic!("unexpected {:?}", other),
    }
    match Scanner::scan("(0") {
        Err(ScanError::InvalidParentheses) => {}
        other => panic!("unexpected {:?}", other),
    }
}
