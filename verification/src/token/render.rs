//! Writing a logic tree as text, and reading the text back.

use super::parse::{
    close, finalize, lemma_parse_group_end, negate, parse_group, parse_spec, parse_tokens_spec,
    ParseFailure,
};
use super::scan::{
    balanced, nesting, never_negative, next_lexeme, scan_spec, scan_tokens, ScanFailure,
};
use super::{LogicTree, Token};
use crate::gate::{lemma_keyword, Gate};
use crate::text::{
    all_of, chars_of, uppercase, decimal_digits, digits_of, lemma_decimal_digits, lemma_run_len_exact,
    string_of, CharClass,
};
use vstd::prelude::*;

verus! {

/// The tokens of a tree as an operand: a terminal as it is, anything else in
/// parentheses.
pub open spec fn operand_tokens(tree: LogicTree) -> Seq<Token>
    decreases tree, 1int,
{
    match tree {
        LogicTree::Terminal(id) => seq![Token::Terminal(id)],
        _ => seq![Token::OpeningParenthesis] + tokens_of(tree) + seq![Token::ClosingParenthesis],
    }
}

/// The tokens that write a tree: a gate between its operands, `NOT` before
/// its operand.
pub open spec fn tokens_of(tree: LogicTree) -> Seq<Token>
    decreases tree, 0int,
{
    match tree {
        LogicTree::Terminal(id) => seq![Token::Terminal(id)],
        LogicTree::Not(operand) => seq![Token::Gate(Gate::Not)] + operand_tokens(*operand),
        LogicTree::Gate { gate, left, right } => operand_tokens(*left) + seq![Token::Gate(gate)]
            + operand_tokens(*right),
    }
}

/// The text of one token.
pub open spec fn token_text(token: Token) -> Seq<char> {
    match token {
        Token::Whitespace => seq![' '],
        Token::OpeningParenthesis => seq!['('],
        Token::ClosingParenthesis => seq![')'],
        Token::Terminal(id) => decimal_digits(id as nat),
        Token::Gate(gate) => gate.keyword(),
    }
}

/// Whether a blank stands between two tokens that follow each other: always,
/// but behind an opening and before a closing parenthesis.
pub open spec fn blank_between(token: Token, next: Token) -> bool {
    !(token is OpeningParenthesis) && !(next is ClosingParenthesis)
}

/// The text of a token sequence.
pub open spec fn text_of(tokens: Seq<Token>) -> Seq<char>
    decreases tokens.len(),
{
    if tokens.len() == 0 {
        Seq::empty()
    } else if tokens.len() == 1 {
        token_text(tokens[0])
    } else if blank_between(tokens[0], tokens[1]) {
        token_text(tokens[0]) + seq![' '] + text_of(tokens.drop_first())
    } else {
        token_text(tokens[0]) + text_of(tokens.drop_first())
    }
}

/// The text of a tree, with every operand that is not a terminal in
/// parentheses.
pub open spec fn render(tree: LogicTree) -> Seq<char> {
    text_of(tokens_of(tree))
}

impl LogicTree {
    /// The tokens that write the tree.
    pub fn tokens(&self) -> (tokens: Vec<Token>)
        ensures
            tokens@ == tokens_of(*self),
        decreases self, 0int,
    {
        let mut tokens: Vec<Token> = Vec::new();
        match self {
            LogicTree::Terminal(id) => {
                tokens.push(Token::Terminal(*id));
            },
            LogicTree::Not(operand) => {
                tokens.push(Token::Gate(Gate::Not));
                operand.push_operand(&mut tokens);
            },
            LogicTree::Gate { gate, left, right } => {
                left.push_operand(&mut tokens);
                tokens.push(Token::Gate(*gate));
                right.push_operand(&mut tokens);
            },
        }
        proof {
            assert(tokens@ =~= tokens_of(*self));
        }
        tokens
    }

    /// Appends the tokens of the tree as an operand.
    fn push_operand(&self, tokens: &mut Vec<Token>)
        ensures
            final(tokens)@ == old(tokens)@ + operand_tokens(*self),
        decreases self, 1int,
    {
        match self {
            LogicTree::Terminal(id) => {
                tokens.push(Token::Terminal(*id));
            },
            _ => {
                tokens.push(Token::OpeningParenthesis);
                let mut inner = self.tokens();
                tokens.append(&mut inner);
                tokens.push(Token::ClosingParenthesis);
            },
        }
    }

    /// The tree as text, which parses to the tree again.
    pub fn to_string(&self) -> (text: String)
        ensures
            text@ == render(*self),
    {
        let tokens = self.tokens();
        string_of(&render_tokens(&tokens))
    }
}

/// Writes a token sequence as text.
pub fn render_tokens(tokens: &Vec<Token>) -> (text: Vec<char>)
    ensures
        text@ == text_of(tokens@),
{
    let mut text: Vec<char> = Vec::new();
    let mut i: usize = tokens.len();
    while i > 0
        invariant
            i <= tokens.len(),
            text@ == text_of(tokens@.skip(i as int)),
        decreases i,
    {
        i -= 1;
        let mut lexeme = match tokens[i] {
            Token::Whitespace => vec![' '],
            Token::OpeningParenthesis => vec!['('],
            Token::ClosingParenthesis => vec![')'],
            Token::Terminal(id) => digits_of(id),
            Token::Gate(gate) => {
                let keyword = gate.to_string();
                chars_of(keyword.as_str())
            },
        };
        proof {
            assert(tokens@.skip(i as int).drop_first() =~= tokens@.skip(i + 1));
        }
        if i + 1 < tokens.len() && tokens[i] != Token::OpeningParenthesis && tokens[i + 1]
            != Token::ClosingParenthesis {
            lexeme.push(' ');
        }
        lexeme.append(&mut text);
        text = lexeme;
    }
    proof {
        assert(tokens@.skip(0) =~= tokens@);
    }
    text
}

/// Negations keep a tree well formed.
pub proof fn lemma_negate_well_formed(tree: LogicTree, times: nat)
    requires
        tree.well_formed(),
    ensures
        negate(tree, times).well_formed(),
    decreases times,
{
    if times > 0 {
        lemma_negate_well_formed(tree, (times - 1) as nat);
    }
}

/// A group that starts with the tokens of a well-formed tree, and ends
/// behind them, yields the tree.
pub proof fn lemma_parse_group_of_tree(tokens: Seq<Token>, from: int, tree: LogicTree)
    requires
        tree.well_formed(),
        0 <= from,
        from + tokens_of(tree).len() <= tokens.len(),
        tokens.subrange(from, from + tokens_of(tree).len()) == tokens_of(tree),
        from + tokens_of(tree).len() == tokens.len() || tokens[from
            + tokens_of(tree).len()] is ClosingParenthesis,
    ensures
        parse_group(tokens, from, None, None, 0) == (
            Ok::<Option<LogicTree>, ParseFailure>(Some(tree)),
            if from + tokens_of(tree).len() == tokens.len() {
                from + tokens_of(tree).len()
            } else {
                from + tokens_of(tree).len() + 1
            },
        ),
    decreases tree, 0int,
{
    let own = tokens_of(tree);
    assert(forall|i: int| 0 <= i < own.len() ==> tokens[from + i] == own[i]);
    match tree {
        LogicTree::Terminal(id) => {
            assert(tokens[from] == own[0]);
            assert(parse_group(tokens, from + 1, Some(tree), None, 0).0 == close(
                Some(tree),
                None,
                0,
            ));
        },
        LogicTree::Not(operand) => {
            assert(tokens[from] == own[0]);
            let inner = operand_tokens(*operand);
            assert(tokens.subrange(from + 1, from + 1 + inner.len()) =~= inner) by {
                assert forall|i: int| 0 <= i < inner.len() implies tokens[from + 1 + i]
                    == inner[i] by {
                    assert(own[1 + i] == inner[i]);
                }
            }
            assert(negate(*operand, 1) == LogicTree::Not(Box::new(negate(*operand, 0))));
            lemma_parse_operand(tokens, from + 1, *operand, None, None, 1);
        },
        LogicTree::Gate { gate, left, right } => {
            let first = operand_tokens(*left);
            let second = operand_tokens(*right);
            assert(tokens.subrange(from, from + first.len()) =~= first) by {
                assert forall|i: int| 0 <= i < first.len() implies tokens[from + i] == first[i] by {
                    assert(own[i] == first[i]);
                }
            }
            lemma_parse_operand(tokens, from, *left, None, None, 0);
            let middle = from + first.len();
            assert(tokens[middle] == own[first.len() as int]);
            assert(tokens.subrange(middle + 1, middle + 1 + second.len()) =~= second) by {
                assert forall|i: int| 0 <= i < second.len() implies tokens[middle + 1 + i]
                    == second[i] by {
                    assert(own[first.len() + 1 + i] == second[i]);
                }
            }
            lemma_parse_operand(tokens, middle + 1, *right, Some(*left), Some(gate), 0);
        },
    }
}

/// Where a group has come to the tokens of a well-formed tree as an operand,
/// and the operand fits what the group holds, the group goes on behind the
/// operand with the operand taken in.
pub proof fn lemma_parse_operand(
    tokens: Seq<Token>,
    from: int,
    tree: LogicTree,
    current: Option<LogicTree>,
    gate: Option<Gate>,
    negations: nat,
)
    requires
        tree.well_formed(),
        0 <= from,
        from + operand_tokens(tree).len() <= tokens.len(),
        tokens.subrange(from, from + operand_tokens(tree).len()) == operand_tokens(tree),
        finalize(current, gate, negate(tree, negations)) is Ok,
    ensures
        parse_group(tokens, from, current, gate, negations) == parse_group(
            tokens,
            from + operand_tokens(tree).len(),
            finalize(current, gate, negate(tree, negations))->Ok_0.0,
            finalize(current, gate, negate(tree, negations))->Ok_0.1,
            0,
        ),
    decreases tree, 1int,
{
    let own = operand_tokens(tree);
    assert(forall|i: int| 0 <= i < own.len() ==> tokens[from + i] == own[i]);
    assert(tokens[from] == own[0]);
    match tree {
        LogicTree::Terminal(id) => {},
        _ => {
            let inner = tokens_of(tree);
            assert(tokens.subrange(from + 1, from + 1 + inner.len()) =~= inner) by {
                assert forall|i: int| 0 <= i < inner.len() implies tokens[from + 1 + i]
                    == inner[i] by {
                    assert(own[1 + i] == inner[i]);
                }
            }
            assert(tokens[from + 1 + inner.len()] == own[inner.len() as int + 1]);
            lemma_parse_group_of_tree(tokens, from + 1, tree);
        },
    }
}

/// The tokens that write a well-formed tree parse to the tree.
pub proof fn lemma_parse_tokens_of_tree(tree: LogicTree)
    requires
        tree.well_formed(),
    ensures
        parse_tokens_spec(tokens_of(tree)) == Ok::<LogicTree, ParseFailure>(tree),
{
    let tokens = tokens_of(tree);
    assert(tokens.subrange(0, tokens.len() as int) =~= tokens);
    lemma_parse_group_of_tree(tokens, 0, tree);
}

/// No token of the sequence is a blank.
pub open spec fn no_whitespace(tokens: Seq<Token>) -> bool {
    forall|i: int| 0 <= i < tokens.len() ==> !(#[trigger] tokens[i] is Whitespace)
}

/// The text of a token is not empty; that of a terminal is made of digits,
/// that of a gate of capitals, and that of a closing parenthesis is `)`.
pub proof fn lemma_token_text(token: Token)
    ensures
        token_text(token).len() > 0,
        token matches Token::Terminal(_) ==> all_of(token_text(token), CharClass::Digit),
        token matches Token::Gate(_) ==> all_of(token_text(token), CharClass::Upper),
        token is ClosingParenthesis ==> token_text(token)[0] == ')',
{
    match token {
        Token::Terminal(id) => {
            lemma_decimal_digits(id as nat);
        },
        Token::Gate(gate) => {
            lemma_keyword(gate);
        },
        _ => {},
    }
}

/// The text of a token sequence starts with the text of its first token.
pub proof fn lemma_text_of_starts(tokens: Seq<Token>)
    requires
        tokens.len() > 0,
    ensures
        text_of(tokens).len() >= token_text(tokens[0]).len(),
        text_of(tokens).subrange(0, token_text(tokens[0]).len() as int) == token_text(tokens[0]),
{
}

/// Scanning the text of a token sequence without blanks gives the sequence
/// back, whatever stands before the text.
pub proof fn lemma_scan_text_of(before: Seq<char>, tokens: Seq<Token>)
    requires
        no_whitespace(tokens),
    ensures
        scan_tokens(before + text_of(tokens), before.len() as int) == Ok::<
            Seq<Token>,
            ScanFailure,
        >(tokens),
    decreases tokens.len(),
{
    let text = before + text_of(tokens);
    let from = before.len() as int;
    if tokens.len() == 0 {
        assert(tokens =~= Seq::<Token>::empty());
    } else {
        let token = tokens[0];
        let rest = tokens.drop_first();
        let own = token_text(token);
        let end = from + own.len();
        lemma_token_text(token);
        lemma_text_of_starts(tokens);
        assert(no_whitespace(rest));
        assert(forall|i: int| 0 <= i < own.len() ==> text[from + i] == own[i]);
        if rest.len() > 0 && !blank_between(token, rest[0]) {
            // what follows the token's text is the text of the next token
            lemma_text_of_starts(rest);
            lemma_token_text(rest[0]);
            assert(text_of(rest)[0] == text_of(rest).subrange(
                0,
                token_text(rest[0]).len() as int,
            )[0]);
        }
        assert(next_lexeme(text, from) == (Ok::<Token, ScanFailure>(token), end)) by {
            match token {
                Token::Terminal(id) => {
                    lemma_decimal_digits(id as nat);
                    assert(forall|i: int|
                        from + 1 <= i < end ==> CharClass::Digit.holds(#[trigger] text[i]));
                    lemma_run_len_exact(text, from + 1, (own.len() - 1) as nat, CharClass::Digit);
                    assert(text.subrange(from, end) =~= own);
                },
                Token::Gate(gate) => {
                    lemma_keyword(gate);
                    assert(forall|i: int|
                        from + 1 <= i < end ==> CharClass::Letter.holds(#[trigger] text[i]));
                    lemma_run_len_exact(text, from + 1, (own.len() - 1) as nat, CharClass::Letter);
                    assert(uppercase(text.subrange(from, end)) =~= own);
                },
                _ => {},
            }
        }
        if rest.len() == 0 {
            assert(seq![token] + Seq::<Token>::empty() =~= tokens);
        } else if blank_between(token, rest[0]) {
            let earlier = before + own + seq![' '];
            assert(earlier + text_of(rest) =~= text);
            lemma_scan_text_of(earlier, rest);
            assert(scan_tokens(text, end) == Ok::<Seq<Token>, ScanFailure>(rest));
            assert(seq![token] + rest =~= tokens);
        } else {
            let earlier = before + own;
            assert(earlier + text_of(rest) =~= text);
            lemma_scan_text_of(earlier, rest);
            assert(seq![token] + rest =~= tokens);
        }
    }
}

/// No prefix of `tokens` brings the nesting depth below zero, where it is
/// `depth` before them.
pub open spec fn stays_above(tokens: Seq<Token>, depth: int) -> bool
    decreases tokens.len(),
{
    tokens.len() == 0 || (stays_above(tokens.drop_last(), depth) && depth + nesting(tokens) >= 0)
}

/// What stays above zero from one depth does so from every greater depth.
pub proof fn lemma_stays_above_deeper(tokens: Seq<Token>, depth: int, deeper: int)
    requires
        stays_above(tokens, depth),
        depth <= deeper,
    ensures
        stays_above(tokens, deeper),
    decreases tokens.len(),
{
    if tokens.len() > 0 {
        lemma_stays_above_deeper(tokens.drop_last(), depth, deeper);
    }
}

/// The nesting depth behind two sequences is the sum of theirs, and the depth
/// never falls below zero if it does not in the first, nor from there on in
/// the second.
pub proof fn lemma_nesting_of_both(first: Seq<Token>, second: Seq<Token>)
    ensures
        nesting(first + second) == nesting(first) + nesting(second),
        never_negative(first) && stays_above(second, nesting(first)) ==> never_negative(
            first + second,
        ),
        never_negative(second) <==> stays_above(second, 0),
    decreases second.len(),
{
    if second.len() == 0 {
        assert(first + second =~= first);
    } else {
        assert((first + second).drop_last() =~= first + second.drop_last());
        lemma_nesting_of_both(first, second.drop_last());
    }
}

/// One token that closes nothing never brings the depth below zero; it
/// raises the depth by one if it opens a parenthesis.
pub proof fn lemma_nesting_of_one(token: Token)
    requires
        !(token is ClosingParenthesis),
    ensures
        never_negative(seq![token]),
        nesting(seq![token]) == if token is OpeningParenthesis {
            1int
        } else {
            0int
        },
{
    assert(seq![token].drop_last() =~= Seq::<Token>::empty());
    assert(nesting(seq![token].drop_last()) == 0);
    assert(never_negative(seq![token].drop_last()));
}

/// Two balanced sequences, one behind the other, are balanced.
pub proof fn lemma_balanced_both(first: Seq<Token>, second: Seq<Token>)
    requires
        balanced(first),
        balanced(second),
    ensures
        balanced(first + second),
{
    lemma_nesting_of_both(first, second);
}

/// A balanced sequence in parentheses is balanced.
pub proof fn lemma_balanced_in_parentheses(tokens: Seq<Token>)
    requires
        balanced(tokens),
    ensures
        balanced(
            seq![Token::OpeningParenthesis] + tokens + seq![Token::ClosingParenthesis],
        ),
{
    let opening = seq![Token::OpeningParenthesis];
    let closing = seq![Token::ClosingParenthesis];
    lemma_nesting_of_one(Token::OpeningParenthesis);
    assert(closing.drop_last() =~= Seq::<Token>::empty());
    assert(nesting(closing.drop_last()) == 0);
    assert(nesting(closing) == -1);
    assert(stays_above(closing.drop_last(), 1));
    assert(stays_above(closing, 1));
    lemma_nesting_of_both(opening, tokens);
    lemma_stays_above_deeper(tokens, 0, 1);
    lemma_nesting_of_both(opening + tokens, closing);
}

/// The tokens that write a tree have every parenthesis matched.
pub proof fn lemma_tokens_balanced(tree: LogicTree)
    ensures
        balanced(tokens_of(tree)),
        balanced(operand_tokens(tree)),
    decreases tree,
{
    match tree {
        LogicTree::Terminal(id) => {
            lemma_nesting_of_one(Token::Terminal(id));
        },
        LogicTree::Not(operand) => {
            lemma_tokens_balanced(*operand);
            lemma_nesting_of_one(Token::Gate(Gate::Not));
            lemma_balanced_both(seq![Token::Gate(Gate::Not)], operand_tokens(*operand));
        },
        LogicTree::Gate { gate, left, right } => {
            lemma_tokens_balanced(*left);
            lemma_tokens_balanced(*right);
            lemma_nesting_of_one(Token::Gate(gate));
            lemma_balanced_both(operand_tokens(*left), seq![Token::Gate(gate)]);
            lemma_balanced_both(
                operand_tokens(*left) + seq![Token::Gate(gate)],
                operand_tokens(*right),
            );
        },
    }
    if !(tree is Terminal) {
        lemma_balanced_in_parentheses(tokens_of(tree));
    }
}

/// The tokens that write a tree hold no blank, are not empty, and have every
/// parenthesis matched.
pub proof fn lemma_tokens_of_tree(tree: LogicTree)
    ensures
        tokens_of(tree).len() > 0,
        no_whitespace(tokens_of(tree)),
        balanced(tokens_of(tree)),
        operand_tokens(tree).len() > 0,
        no_whitespace(operand_tokens(tree)),
        balanced(operand_tokens(tree)),
    decreases tree,
{
    lemma_tokens_balanced(tree);
    match tree {
        LogicTree::Terminal(_) => {},
        LogicTree::Not(operand) => {
            lemma_tokens_of_tree(*operand);
        },
        LogicTree::Gate { gate, left, right } => {
            lemma_tokens_of_tree(*left);
            lemma_tokens_of_tree(*right);
        },
    }
}

/// What a group yields is well formed, if what it held was.
pub proof fn lemma_parse_group_well_formed(
    tokens: Seq<Token>,
    from: int,
    current: Option<LogicTree>,
    gate: Option<Gate>,
    negations: nat,
)
    requires
        0 <= from <= tokens.len(),
        current matches Some(tree) ==> tree.well_formed(),
        gate matches Some(pending) ==> pending.is_binary(),
    ensures
        parse_group(tokens, from, current, gate, negations).0 matches Ok(Some(tree))
            ==> tree.well_formed(),
    decreases tokens.len() - from,
{
    if from < tokens.len() {
        match tokens[from] {
            Token::Whitespace => {
                lemma_parse_group_well_formed(tokens, from + 1, current, gate, negations);
            },
            Token::OpeningParenthesis => {
                lemma_parse_group_end(tokens, from + 1, None, None, 0);
                lemma_parse_group_well_formed(tokens, from + 1, None, None, 0);
                let (inner, end) = parse_group(tokens, from + 1, None, None, 0);
                match inner {
                    Err(_) => {},
                    Ok(None) => {
                        lemma_parse_group_well_formed(tokens, end, current, gate, negations);
                    },
                    Ok(Some(leaf)) => {
                        lemma_negate_well_formed(leaf, negations);
                        match finalize(current, gate, negate(leaf, negations)) {
                            Err(_) => {},
                            Ok((tree, pending)) => {
                                lemma_parse_group_well_formed(tokens, end, tree, pending, 0);
                            },
                        }
                    },
                }
            },
            Token::ClosingParenthesis => {},
            Token::Terminal(id) => {
                lemma_negate_well_formed(LogicTree::Terminal(id), negations);
                match finalize(current, gate, negate(LogicTree::Terminal(id), negations)) {
                    Err(_) => {},
                    Ok((tree, pending)) => {
                        lemma_parse_group_well_formed(tokens, from + 1, tree, pending, 0);
                    },
                }
            },
            Token::Gate(Gate::Not) => {
                if !(current is Some && gate is None) {
                    lemma_parse_group_well_formed(tokens, from + 1, current, gate, negations + 1);
                }
            },
            Token::Gate(binary) => {
                if current is Some && gate is None {
                    lemma_parse_group_well_formed(
                        tokens,
                        from + 1,
                        current,
                        Some(binary),
                        negations,
                    );
                }
            },
        }
    }
}

/// Writing a well-formed tree as text and parsing the text gives the tree
/// back.
pub proof fn lemma_render_then_parse(tree: LogicTree)
    requires
        tree.well_formed(),
    ensures
        parse_spec(render(tree)) == Ok::<LogicTree, ParseFailure>(tree),
{
    let tokens = tokens_of(tree);
    lemma_tokens_of_tree(tree);
    lemma_scan_text_of(Seq::empty(), tokens);
    lemma_parse_tokens_of_tree(tree);
}

/// Where a text parses, its tree is well formed, and the text that the tree
/// is written as parses to the same tree.
pub proof fn lemma_parse_round_trip(text: Seq<char>)
    requires
        parse_spec(text) is Ok,
    ensures
        parse_spec(text)->Ok_0.well_formed(),
        parse_spec(render(parse_spec(text)->Ok_0)) == parse_spec(text),
{
    let tokens = scan_spec(text)->Ok_0;
    lemma_parse_group_well_formed(tokens, 0, None, None, 0);
    lemma_render_then_parse(parse_spec(text)->Ok_0);
}

} // verus!
