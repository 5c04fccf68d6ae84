use boolean_policy::gate::Gate;
use boolean_policy::token::parse::{parse, parse_tokens};
use boolean_policy::token::render::render_tokens;
use boolean_policy::token::scan::Scanner;
use boolean_policy::token::{LogicTree, Token};

fn text(tokens: &Vec<Token>) -> String {
    render_tokens(tokens).into_iter().collect()
}

#[test]
fn tree_is_written_with_explicit_parentheses() {
    let tree = parse("0 AND 1 OR ((0 NAND 2) OR 3)").unwrap();
    assert_eq!(tree.to_string(), "(0 AND 1) OR ((0 NAND 2) OR 3)");
    assert_eq!(parse("65535").unwrap().to_string(), "65535");
    assert_eq!(parse("NOT NOT 0010 XOR 7").unwrap().to_string(), "(NOT (NOT 10)) XOR 7");
    assert_eq!(parse("NOT (1 NOR 2)").unwrap().to_string(), "NOT (1 NOR 2)");
}

#[test]
fn written_tree_parses_to_the_same_tree() {
    let sources = [
        "0",
        "(((12)))",
        "NOT 0",
        "NOT NOT NOT 3",
        "0 AND 1 OR 2",
        "0 AND (10 OR 11) XOR 0",
        "1 XOR () 2",
        "NOT (0 NOR 65535) NAND NOT 40000",
        "((0 AND 1) OR (2 XOR 3)) NOR ((4 NAND 5) AND NOT 6)",
    ];
    for source in sources {
        let tree = parse(source).unwrap();
        let written = tree.to_string();
        assert_eq!(parse(&written).unwrap(), tree, "{} as {}", source, written);
        assert_eq!(parse_tokens(&tree.tokens()).unwrap(), tree);
        assert_eq!(Scanner::scan(&written).unwrap(), tree.tokens());
    }
}

#[test]
fn tokens_of_a_tree() {
    let tree = LogicTree::Gate {
        gate: Gate::Or,
        left: Box::new(LogicTree::Terminal(4)),
        right: Box::new(LogicTree::Not(Box::new(LogicTree::Terminal(5)))),
    };
    assert_eq!(
        tree.tokens(),
        vec![
            Token::Terminal(4),
            Token::Gate(Gate::Or),
            Token::OpeningParenthesis,
            Token::Gate(Gate::Not),
            Token::Terminal(5),
            Token::ClosingParenthesis,
        ]
    );
    assert_eq!(tree.to_string(), "4 OR (NOT 5)");
}

#[test]
fn tokens_are_written_with_blanks_between() {
    assert_eq!(text(&vec![]), "");
    assert_eq!(
        text(&vec![Token::Terminal(1), Token::Terminal(20), Token::Gate(Gate::Xor)]),
        "1 20 XOR"
    );
    assert_eq!(
        text(&vec![
            Token::OpeningParenthesis,
            Token::OpeningParenthesis,
            Token::ClosingParenthesis,
            Token::Gate(Gate::And),
            Token::ClosingParenthesis,
            Token::OpeningParenthesis,
        ]),
        "(() AND) ("
    );
}
