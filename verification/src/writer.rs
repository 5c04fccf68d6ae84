//! Writing a list-notation expression as text, and reading the text back.

use crate::data::{infix_tokens, Expression, ExpressionView, Literal, Token};
use crate::lexer::{count_of, lex_tokens, tokenize_spec, LexingFailure};
use crate::parser::{list_items, parse_spec, parse_tokens_spec, ParsingFailure};
use crate::text::string_of;
use crate::token::render::{lemma_scan_text_of, no_whitespace, render_tokens, text_of};
use crate::token::scan::{lemma_next_lexeme_end, scan_tokens};
use vstd::prelude::*;

verus! {

/// The tokens that write the items of a list, one item behind the other.
pub open spec fn items_tokens(items: Seq<ExpressionView>) -> Seq<Token>
    decreases items,
{
    if items.len() == 0 {
        Seq::empty()
    } else {
        items_tokens(items.drop_last()) + expression_tokens(items.last())
    }
}

/// The tokens that write an expression: a literal by its token, a list by
/// the tokens of its items in parentheses.
pub open spec fn expression_tokens(expression: ExpressionView) -> Seq<Token>
    decreases expression,
{
    match expression {
        ExpressionView::Literal(literal) => seq![literal.token()],
        ExpressionView::List(items) => seq![Token::ParenOpen] + items_tokens(items)
            + seq![Token::ParenClose],
    }
}

impl ExpressionView {
    /// The expression as text: a terminal by its decimal digits, a gate by
    /// its keyword, a list by its items in parentheses with a blank between
    /// each two.
    pub open spec fn text(self) -> Seq<char> {
        text_of(infix_tokens(expression_tokens(self)))
    }
}

impl Expression {
    /// The tokens that write the expression.
    pub fn tokens(&self) -> (tokens: Vec<Token>)
        ensures
            tokens@ == expression_tokens(self@),
    {
        let mut tokens: Vec<Token> = Vec::new();
        self.push_tokens(&mut tokens);
        proof {
            assert(Seq::<Token>::empty() + expression_tokens(self@) =~= expression_tokens(self@));
        }
        tokens
    }

    /// Appends the tokens that write the expression.
    fn push_tokens(&self, tokens: &mut Vec<Token>)
        ensures
            final(tokens)@ == old(tokens)@ + expression_tokens(self@),
        decreases self,
    {
        match self {
            Expression::Literal(literal) => {
                let token = match literal {
                    Literal::TerminalId(id) => Token::TerminalId(*id),
                    Literal::Gate(gate) => Token::Gate(*gate),
                };
                tokens.push(token);
                proof {
                    assert(tokens@ =~= old(tokens)@ + expression_tokens(self@));
                }
            },
            Expression::List(list) => {
                let ghost items = self@->List_0;
                tokens.push(Token::ParenOpen);
                let mut i: usize = 0;
                proof {
                    assert(decreases_to!(*self => *list));
                    assert(items.take(0) =~= Seq::<ExpressionView>::empty());
                    assert(tokens@ =~= old(tokens)@ + seq![Token::ParenOpen] + items_tokens(
                        items.take(0),
                    ));
                }
                while i < list.len()
                    invariant
                        0 <= i <= list.len(),
                        *self == Expression::List(*list),
                        decreases_to!(*self => *list),
                        items == self@->List_0,
                        tokens@ == old(tokens)@ + seq![Token::ParenOpen] + items_tokens(
                            items.take(i as int),
                        ),
                    decreases list.len() - i,
                {
                    proof {
                        assert(decreases_to!(*list => list[i as int]));
                        assert(items.take(i + 1).drop_last() =~= items.take(i as int));
                        assert(items.take(i + 1).last() == list@[i as int]@);
                    }
                    list[i].push_tokens(tokens);
                    proof {
                        assert(tokens@ =~= old(tokens)@ + seq![Token::ParenOpen] + items_tokens(
                            items.take(i + 1),
                        ));
                    }
                    i += 1;
                }
                tokens.push(Token::ParenClose);
                proof {
                    assert(items.take(list.len() as int) =~= items);
                    assert(tokens@ =~= old(tokens)@ + expression_tokens(self@));
                }
            },
        }
    }

    /// The expression as text, which parses to the expression again unless
    /// it is a gate alone.
    pub fn to_string(&self) -> (text: String)
        ensures
            text@ == self@.text(),
    {
        let tokens = self.tokens();
        let mut lexemes: Vec<crate::token::Token> = Vec::new();
        let mut i: usize = 0;
        let ghost wanted = infix_tokens(tokens@);
        while i < tokens.len()
            invariant
                0 <= i <= tokens.len(),
                wanted == infix_tokens(tokens@),
                lexemes@ == wanted.take(i as int),
            decreases tokens.len() - i,
        {
            lexemes.push(tokens[i].to_infix());
            proof {
                assert(lexemes@ =~= wanted.take(i + 1));
            }
            i += 1;
        }
        proof {
            assert(wanted.take(tokens.len() as int) =~= wanted);
        }
        string_of(&render_tokens(&lexemes))
    }
}

/// The stack of a token sequence has the first token on top, above the
/// stack of the rest.
pub proof fn lemma_stack_of(tokens: Seq<Token>)
    requires
        tokens.len() > 0,
    ensures
        tokens.reverse().len() == tokens.len(),
        tokens.reverse().last() == tokens[0],
        tokens.reverse().drop_last() == tokens.drop_first().reverse(),
{
    assert(tokens.reverse().drop_last() =~= tokens.drop_first().reverse());
}

/// The tokens of a list's items begin with those of the first item.
pub proof fn lemma_items_tokens_front(items: Seq<ExpressionView>)
    requires
        items.len() > 0,
    ensures
        items_tokens(items) == expression_tokens(items[0]) + items_tokens(items.drop_first()),
    decreases items.len(),
{
    let front = items.drop_last();
    if items.len() == 1 {
        assert(front =~= Seq::<ExpressionView>::empty());
        assert(items.drop_first() =~= Seq::<ExpressionView>::empty());
        assert(items_tokens(front) =~= Seq::<Token>::empty());
        assert(items_tokens(items) =~= expression_tokens(items[0]) + items_tokens(
            items.drop_first(),
        ));
    } else {
        lemma_items_tokens_front(front);
        assert(items.drop_first().drop_last() =~= front.drop_first());
        assert(items.drop_first().last() == items.last());
        assert(front[0] == items[0]);
        assert(items_tokens(items) =~= expression_tokens(items[0]) + items_tokens(
            items.drop_first(),
        ));
    }
}

/// Reading the items of a list from the tokens that write them, up to the
/// parenthesis that closes the list, gives the items back and leaves what
/// stands behind the parenthesis.
pub proof fn lemma_list_items_of(
    tokens: Seq<Token>,
    items: Seq<ExpressionView>,
    after: Seq<Token>,
    list: Seq<ExpressionView>,
)
    requires
        tokens == items_tokens(items) + seq![Token::ParenClose] + after,
    ensures
        list_items(tokens.reverse(), list) == (
            Ok::<ExpressionView, ParsingFailure>(ExpressionView::List(list + items)),
            after.reverse(),
        ),
    decreases tokens.len(),
{
    let stack = tokens.reverse();
    let rest = tokens.drop_first();
    lemma_stack_of(tokens);
    if items.len() == 0 {
        assert(tokens[0] == Token::ParenClose);
        assert(rest =~= after);
        assert(list + items =~= list);
    } else {
        lemma_items_tokens_front(items);
        let item = items[0];
        let others = items.drop_first();
        let behind = items_tokens(others) + seq![Token::ParenClose] + after;
        assert(list.push(item) + others =~= list + items);
        match item {
            ExpressionView::Literal(literal) => {
                assert(tokens[0] == literal.token());
                assert(rest =~= behind);
                lemma_list_items_of(rest, others, after, list.push(item));
            },
            ExpressionView::List(inner) => {
                assert(tokens[0] == Token::ParenOpen);
                let closed = items_tokens(inner) + seq![Token::ParenClose] + behind;
                assert(rest =~= closed);
                lemma_list_items_of(rest, inner, behind, Seq::empty());
                assert(Seq::<ExpressionView>::empty() + inner =~= inner);
                assert(behind.reverse().len() == behind.len());
                lemma_list_items_of(behind, others, after, list.push(item));
            },
        }
    }
}

/// The tokens that write an expression parse to the expression, unless it
/// is a gate alone.
pub proof fn lemma_parse_tokens_of(expression: ExpressionView)
    requires
        !(expression matches ExpressionView::Literal(Literal::Gate(_))),
    ensures
        parse_tokens_spec(expression_tokens(expression)) == Ok::<ExpressionView, ParsingFailure>(
            expression,
        ),
{
    let tokens = expression_tokens(expression);
    lemma_stack_of(tokens);
    match expression {
        ExpressionView::Literal(literal) => {
            assert(tokens.drop_first() =~= Seq::<Token>::empty());
            assert(tokens.drop_first().reverse() =~= Seq::<Token>::empty());
        },
        ExpressionView::List(items) => {
            let rest = tokens.drop_first();
            assert(rest =~= items_tokens(items) + seq![Token::ParenClose] + Seq::<Token>::empty());
            lemma_list_items_of(rest, items, Seq::empty(), Seq::empty());
            assert(Seq::<ExpressionView>::empty() + items =~= items);
            assert(Seq::<Token>::empty().reverse() =~= Seq::<Token>::empty());
            assert(rest.reverse().len() == rest.len());
        },
    }
}

/// A token occurs in two sequences put together as often as in both.
pub proof fn lemma_count_of_both(first: Seq<Token>, second: Seq<Token>, token: Token)
    ensures
        count_of(first + second, token) == count_of(first, token) + count_of(second, token),
    decreases second.len(),
{
    if second.len() == 0 {
        assert(first + second =~= first);
    } else {
        assert((first + second).drop_last() =~= first + second.drop_last());
        assert((first + second).last() == second.last());
        lemma_count_of_both(first, second.drop_last(), token);
    }
}

/// One token holds itself once and no other token.
pub proof fn lemma_count_of_one(single: Token, token: Token)
    ensures
        count_of(seq![single], token) == if single == token {
            1nat
        } else {
            0nat
        },
{
    assert(seq![single].drop_last() =~= Seq::<Token>::empty());
    assert(count_of(seq![single].drop_last(), token) == 0);
}

/// The tokens that write the items of a list open as many parentheses as
/// they close.
pub proof fn lemma_items_parens_match(items: Seq<ExpressionView>)
    ensures
        count_of(items_tokens(items), Token::ParenOpen) == count_of(
            items_tokens(items),
            Token::ParenClose,
        ),
    decreases items,
{
    if items.len() > 0 {
        lemma_items_parens_match(items.drop_last());
        lemma_parens_match(items.last());
        lemma_count_of_both(
            items_tokens(items.drop_last()),
            expression_tokens(items.last()),
            Token::ParenOpen,
        );
        lemma_count_of_both(
            items_tokens(items.drop_last()),
            expression_tokens(items.last()),
            Token::ParenClose,
        );
    }
}

/// The tokens that write an expression open as many parentheses as they
/// close.
pub proof fn lemma_parens_match(expression: ExpressionView)
    ensures
        count_of(expression_tokens(expression), Token::ParenOpen) == count_of(
            expression_tokens(expression),
            Token::ParenClose,
        ),
    decreases expression,
{
    match expression {
        ExpressionView::Literal(literal) => {
            lemma_count_of_one(literal.token(), Token::ParenOpen);
            lemma_count_of_one(literal.token(), Token::ParenClose);
        },
        ExpressionView::List(items) => {
            let opening = seq![Token::ParenOpen];
            let closing = seq![Token::ParenClose];
            let inner = items_tokens(items);
            lemma_items_parens_match(items);
            lemma_count_of_one(Token::ParenOpen, Token::ParenOpen);
            lemma_count_of_one(Token::ParenOpen, Token::ParenClose);
            lemma_count_of_one(Token::ParenClose, Token::ParenOpen);
            lemma_count_of_one(Token::ParenClose, Token::ParenClose);
            lemma_count_of_both(opening, inner, Token::ParenOpen);
            lemma_count_of_both(opening, inner, Token::ParenClose);
            lemma_count_of_both(opening + inner, closing, Token::ParenOpen);
            lemma_count_of_both(opening + inner, closing, Token::ParenClose);
        },
    }
}

/// Where infix scanning finds tokens, list lexing finds the same: the two
/// notations share their lexemes.
pub proof fn lemma_lexer_follows_scanner(text: Seq<char>, from: int)
    requires
        0 <= from,
        scan_tokens(text, from) is Ok,
    ensures
        lex_tokens(text, from) is Ok,
        infix_tokens(lex_tokens(text, from)->Ok_0) == scan_tokens(text, from)->Ok_0,
    decreases text.len() - from,
{
    if from >= text.len() {
        assert(infix_tokens(Seq::<Token>::empty()) =~= Seq::<crate::token::Token>::empty());
    } else {
        lemma_next_lexeme_end(text, from);
        crate::lexer::lemma_next_lexeme_end(text, from);
        let (lexeme, end) = crate::token::scan::next_lexeme(text, from);
        let (token, same_end) = crate::lexer::next_lexeme(text, from);
        assert(end == same_end);
        lemma_lexer_follows_scanner(text, end);
        let rest = lex_tokens(text, end)->Ok_0;
        match token->Ok_0 {
            None => {},
            Some(token) => {
                assert(infix_tokens(seq![token] + rest) =~= seq![token.infix()] + infix_tokens(
                    rest,
                ));
            },
        }
    }
}

/// What the items of a list are read to is a list.
pub proof fn lemma_list_items_yield_list(stack: Seq<Token>, list: Seq<ExpressionView>)
    ensures
        list_items(stack, list).0 matches Ok(expression) ==> expression is List,
    decreases stack.len(),
{
    if stack.len() > 0 {
        let rest = stack.drop_last();
        match stack.last() {
            Token::ParenOpen => {
                if rest.len() > 0 {
                    let (inner, left) = list_items(rest, Seq::empty());
                    if left.len() < stack.len() && inner is Ok {
                        lemma_list_items_yield_list(left, list.push(inner->Ok_0));
                    }
                }
            },
            Token::ParenClose => {},
            Token::TerminalId(id) => {
                lemma_list_items_yield_list(
                    rest,
                    list.push(ExpressionView::Literal(Literal::TerminalId(id))),
                );
            },
            Token::Gate(gate) => {
                lemma_list_items_yield_list(
                    rest,
                    list.push(ExpressionView::Literal(Literal::Gate(gate))),
                );
            },
        }
    }
}

/// Writing an expression as text and parsing the text gives the expression
/// back, unless it is a gate alone.
pub proof fn lemma_text_then_parse(expression: ExpressionView)
    requires
        !(expression matches ExpressionView::Literal(Literal::Gate(_))),
    ensures
        parse_spec(expression.text()) == Ok::<ExpressionView, ParsingFailure>(expression),
{
    let tokens = expression_tokens(expression);
    let lexemes = infix_tokens(tokens);
    let text = expression.text();
    assert(no_whitespace(lexemes));
    lemma_scan_text_of(Seq::empty(), lexemes);
    assert(Seq::<char>::empty() + text_of(lexemes) =~= text);
    lemma_lexer_follows_scanner(text, 0);
    let read = lex_tokens(text, 0)->Ok_0;
    assert(read =~= tokens) by {
        assert(infix_tokens(read).len() == lexemes.len());
        assert forall|i: int| 0 <= i < read.len() implies read[i] == tokens[i] by {
            assert(infix_tokens(read)[i] == lexemes[i]);
            assert(read[i].infix() == tokens[i].infix());
        }
    }
    lemma_parens_match(expression);
    assert(tokenize_spec(text) == Ok::<Seq<Token>, LexingFailure>(tokens));
    lemma_parse_tokens_of(expression);
}

/// Where a text parses, the text that its expression is written as parses
/// to the same expression.
pub proof fn lemma_parse_round_trip(text: Seq<char>)
    requires
        parse_spec(text) is Ok,
    ensures
        parse_spec(parse_spec(text)->Ok_0.text()) == parse_spec(text),
{
    let stack = tokenize_spec(text)->Ok_0.reverse();
    if stack.len() > 1 {
        lemma_list_items_yield_list(stack.drop_last(), Seq::empty());
    }
    lemma_text_then_parse(parse_spec(text)->Ok_0);
}

} // verus!
