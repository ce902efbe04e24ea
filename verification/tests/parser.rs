use dg_compiler::lexer::token::{Term, Token};
use dg_compiler::parser::ast::{Ast, AstNode, BinOpKind, Prototype};
use dg_compiler::parser::grammar::{Nonterm, UnexpectedKind};
use dg_compiler::parser::{
    create_binop, merge, operator_of, parse_expr, parse_items, parse_top_level, ParseError, Parser,
};
use dg_compiler::span::Span;

fn terms(tokens: Vec<Token>) -> Vec<Term> {
    tokens.into_iter().enumerate().map(|(i, t)| (Span::new(i, i + 1, 0), t)).collect()
}

fn id(name: &str) -> Token {
    Token::Ident(name.to_string())
}

fn num(x: f64) -> Token {
    Token::Number(x.to_bits())
}

fn node(lo: usize, hi: usize, ast: Ast) -> AstNode {
    AstNode::new(Span::new(lo, hi, 0), ast)
}

fn number(lo: usize, x: f64) -> AstNode {
    node(lo, lo + 1, Ast::Number(x.to_bits()))
}

fn reference(lo: usize, name: &str) -> AstNode {
    node(lo, lo + 1, Ast::Ref(name.to_string()))
}

fn binop(kind: BinOpKind, lhs: AstNode, rhs: AstNode) -> AstNode {
    create_binop(kind, lhs, rhs)
}

fn one(tokens: Vec<Token>) -> AstNode {
    let mut items = parse_top_level(&terms(tokens)).unwrap();
    assert_eq!(items.len(), 1);
    items.remove(0)
}

#[test]
fn multiplication_binds_tighter_than_addition() {
    let got = one(vec![num(1.0), Token::Plus, num(2.0), Token::Asterisk, num(3.0)]);
    let want = binop(
        BinOpKind::Add,
        number(0, 1.0),
        binop(BinOpKind::Mul, number(2, 2.0), number(4, 3.0)),
    );
    assert_eq!(got, want);
    assert_eq!(got.span, Span::new(0, 5, 0));

    let got = one(vec![num(1.0), Token::Asterisk, num(2.0), Token::Plus, num(3.0)]);
    let want = binop(
        BinOpKind::Add,
        binop(BinOpKind::Mul, number(0, 1.0), number(2, 2.0)),
        number(4, 3.0),
    );
    assert_eq!(got, want);
}

#[test]
fn operators_of_one_precedence_group_to_the_left() {
    let got = one(vec![num(1.0), Token::Minus, num(2.0), Token::Plus, num(3.0), Token::Minus, num(4.0)]);
    let want = binop(
        BinOpKind::Sub,
        binop(
            BinOpKind::Add,
            binop(BinOpKind::Sub, number(0, 1.0), number(2, 2.0)),
            number(4, 3.0),
        ),
        number(6, 4.0),
    );
    assert_eq!(got, want);

    let got = one(vec![id("a"), Token::Eq, id("b"), Token::NotEq, id("c")]);
    let want = binop(
        BinOpKind::NotEq,
        binop(BinOpKind::Eq, reference(0, "a"), reference(2, "b")),
        reference(4, "c"),
    );
    assert_eq!(got, want);
}

#[test]
fn comparison_binds_loosest() {
    // a * b == c * d + e
    let got = one(vec![
        id("a"),
        Token::Asterisk,
        id("b"),
        Token::Eq,
        id("c"),
        Token::Asterisk,
        id("d"),
        Token::Plus,
        id("e"),
    ]);
    let want = binop(
        BinOpKind::Eq,
        binop(BinOpKind::Mul, reference(0, "a"), reference(2, "b")),
        binop(
            BinOpKind::Add,
            binop(BinOpKind::Mul, reference(4, "c"), reference(6, "d")),
            reference(8, "e"),
        ),
    );
    assert_eq!(got, want);
}

#[test]
fn every_operator_has_its_kind_and_precedence() {
    assert_eq!(operator_of(&Token::Eq), Some((BinOpKind::Eq, 0)));
    assert_eq!(operator_of(&Token::NotEq), Some((BinOpKind::NotEq, 0)));
    assert_eq!(operator_of(&Token::GreaterThan), Some((BinOpKind::GreaterThan, 0)));
    assert_eq!(operator_of(&Token::GreaterEq), Some((BinOpKind::GreaterEq, 0)));
    assert_eq!(operator_of(&Token::LessThan), Some((BinOpKind::LessThan, 0)));
    assert_eq!(operator_of(&Token::LessEq), Some((BinOpKind::LessEq, 0)));
    assert_eq!(operator_of(&Token::Plus), Some((BinOpKind::Add, 1)));
    assert_eq!(operator_of(&Token::Minus), Some((BinOpKind::Sub, 1)));
    assert_eq!(operator_of(&Token::Asterisk), Some((BinOpKind::Mul, 2)));
    assert_eq!(operator_of(&Token::FSlash), None);
    assert_eq!(operator_of(&Token::Assign), None);
}

#[test]
fn parentheses_group_and_leave_no_node() {
    let got = one(vec![
        Token::LParen,
        num(1.0),
        Token::Plus,
        num(2.0),
        Token::RParen,
        Token::Asterisk,
        num(3.0),
    ]);
    let want = binop(
        BinOpKind::Mul,
        binop(BinOpKind::Add, number(1, 1.0), number(3, 2.0)),
        number(6, 3.0),
    );
    assert_eq!(got, want);
}

#[test]
fn a_name_alone_is_a_reference_and_with_arguments_a_call() {
    assert_eq!(one(vec![id("x")]), reference(0, "x"));

    let got = one(vec![id("f"), id("x"), num(2.0), Token::LParen, id("y"), Token::RParen]);
    let want = node(
        0,
        5,
        Ast::Call {
            name: "f".to_string(),
            args: vec![reference(1, "x"), number(2, 2.0), reference(4, "y")],
        },
    );
    assert_eq!(got, want);
}

#[test]
fn arguments_are_simple_expressions_only() {
    // f x + 1 is (f x) + 1
    let got = one(vec![id("f"), id("x"), Token::Plus, num(1.0)]);
    let want = binop(
        BinOpKind::Add,
        node(0, 2, Ast::Call { name: "f".to_string(), args: vec![reference(1, "x")] }),
        number(3, 1.0),
    );
    assert_eq!(got, want);

    // f g x hands g and x to f: g is not called
    let got = one(vec![id("f"), id("g"), id("x")]);
    let want = node(
        0,
        3,
        Ast::Call { name: "f".to_string(), args: vec![reference(1, "g"), reference(2, "x")] },
    );
    assert_eq!(got, want);
}

#[test]
fn let_without_parameters_is_a_variable() {
    let got = one(vec![Token::KwLet, id("x"), Token::Assign, num(1.0)]);
    let want = node(0, 4, Ast::Variable { name: "x".to_string(), expr: number(3, 1.0) });
    assert_eq!(got, want);
}

#[test]
fn let_with_parameters_is_a_function() {
    let got = one(vec![Token::KwLet, id("f"), id("a"), id("b"), Token::Assign, id("a"), Token::Plus, id("b")]);
    let want = node(
        0,
        8,
        Ast::Function {
            prototype: Prototype { name: "f".to_string(), args: vec!["a".to_string(), "b".to_string()] },
            body: binop(BinOpKind::Add, reference(5, "a"), reference(7, "b")),
        },
    );
    assert_eq!(got, want);
}

#[test]
fn if_with_and_without_else() {
    let got = one(vec![Token::KwIf, id("c"), Token::KwThen, num(1.0), Token::KwElse, num(2.0)]);
    let want = node(
        0,
        6,
        Ast::If { condition: reference(1, "c"), then: number(3, 1.0), el: Some(number(5, 2.0)) },
    );
    assert_eq!(got, want);

    let got = one(vec![Token::KwIf, id("c"), Token::KwThen, num(1.0)]);
    let want = node(0, 4, Ast::If { condition: reference(1, "c"), then: number(3, 1.0), el: None });
    assert_eq!(got, want);
}

#[test]
fn an_else_belongs_to_the_innermost_if() {
    let got = one(vec![
        Token::KwIf,
        id("a"),
        Token::KwThen,
        Token::KwIf,
        id("b"),
        Token::KwThen,
        num(1.0),
        Token::KwElse,
        num(2.0),
    ]);
    let inner = node(
        3,
        9,
        Ast::If { condition: reference(4, "b"), then: number(6, 1.0), el: Some(number(8, 2.0)) },
    );
    let want = node(0, 9, Ast::If { condition: reference(1, "a"), then: inner, el: None });
    assert_eq!(got, want);
}

#[test]
fn a_block_holds_its_items_and_skips_continuations() {
    let got = one(vec![
        Token::BlockStart,
        id("a"),
        Token::BlockCont,
        Token::KwLet,
        id("x"),
        Token::Assign,
        num(1.0),
        Token::BlockCont,
        Token::BlockCont,
        id("b"),
        Token::BlockEnd,
    ]);
    let want = node(
        0,
        11,
        Ast::Block(vec![
            reference(1, "a"),
            node(3, 7, Ast::Variable { name: "x".to_string(), expr: number(6, 1.0) }),
            reference(9, "b"),
        ]),
    );
    assert_eq!(got, want);
}

#[test]
fn an_empty_block_parses() {
    let got = one(vec![Token::BlockStart, Token::BlockEnd]);
    assert_eq!(got, node(0, 2, Ast::Block(vec![])));
}

#[test]
fn no_tokens_are_no_items() {
    assert_eq!(parse_top_level(&vec![]), Ok(vec![]));
    assert_eq!(Parser::parse(&vec![]), Ok(vec![]));
    assert_eq!(parse_items(&vec![], 0), Ok((vec![], 0)));
}

#[test]
fn several_items_follow_each_other() {
    let items = parse_top_level(&terms(vec![
        Token::BlockCont,
        Token::KwLet,
        id("f"),
        id("x"),
        Token::Assign,
        id("x"),
        Token::BlockCont,
        num(1.0),
        Token::KwLet,
        id("y"),
        Token::Assign,
        num(2.0),
    ]))
    .unwrap();
    assert_eq!(items.len(), 3);
    assert!(matches!(&*items[0].expr, Ast::Function { .. }));
    assert_eq!(items[1], number(7, 1.0));
    assert!(matches!(&*items[2].expr, Ast::Variable { .. }));
}

#[test]
fn items_stop_at_what_starts_none() {
    let ts = terms(vec![id("a"), Token::BlockCont, id("b"), Token::BlockEnd, id("c")]);
    let (items, next) = parse_items(&ts, 0).unwrap();
    assert_eq!(items, vec![reference(0, "a"), reference(2, "b")]);
    assert_eq!(next, 3);
}

#[test]
fn an_expression_stops_before_a_looser_operator() {
    let ts = terms(vec![num(1.0), Token::Asterisk, num(2.0), Token::Plus, num(3.0)]);
    let (lhs, next) = parse_expr(&ts, 0, 2).unwrap();
    assert_eq!(lhs, binop(BinOpKind::Mul, number(0, 1.0), number(2, 2.0)));
    assert_eq!(next, 3);
    let (lhs, next) = parse_expr(&ts, 0, 3).unwrap();
    assert_eq!(lhs, number(0, 1.0));
    assert_eq!(next, 1);
    let (all, next) = parse_expr(&ts, 0, 0).unwrap();
    assert_eq!(all.span, Span::new(0, 5, 0));
    assert_eq!(next, 5);
}

#[test]
fn a_token_left_over_is_unexpected_at_the_top_level() {
    let e = parse_top_level(&terms(vec![id("a"), Token::RParen])).unwrap_err();
    assert_eq!(
        e,
        ParseError::Unexpected {
            kind: UnexpectedKind::Root,
            nonterm: Nonterm::TopLevel,
            token: (Span::new(1, 2, 0), Token::RParen),
        }
    );
    let e = parse_top_level(&terms(vec![Token::BlockEnd])).unwrap_err();
    assert!(matches!(e, ParseError::Unexpected { nonterm: Nonterm::TopLevel, .. }));
}

#[test]
fn a_definition_needs_a_name_and_an_assignment() {
    let e = parse_top_level(&terms(vec![Token::KwLet, num(1.0)])).unwrap_err();
    assert_eq!(
        e,
        ParseError::Unexpected {
            kind: UnexpectedKind::Other,
            nonterm: Nonterm::Def,
            token: (Span::new(1, 2, 0), num(1.0)),
        }
    );
    let e = parse_top_level(&terms(vec![Token::KwLet])).unwrap_err();
    assert_eq!(e, ParseError::Eof { nonterm: Nonterm::Def });

    let e = parse_top_level(&terms(vec![Token::KwLet, id("f"), id("x"), num(1.0)])).unwrap_err();
    assert_eq!(
        e,
        ParseError::Unexpected {
            kind: UnexpectedKind::Other,
            nonterm: Nonterm::Def,
            token: (Span::new(3, 4, 0), num(1.0)),
        }
    );
    let e = parse_top_level(&terms(vec![Token::KwLet, id("f"), id("x")])).unwrap_err();
    assert_eq!(e, ParseError::Eof { nonterm: Nonterm::Def });
}

#[test]
fn an_operand_is_needed_after_an_operator_and_an_assignment() {
    let e = parse_top_level(&terms(vec![num(1.0), Token::Plus])).unwrap_err();
    assert_eq!(e, ParseError::Eof { nonterm: Nonterm::Compound });

    let e = parse_top_level(&terms(vec![num(1.0), Token::Plus, Token::Asterisk])).unwrap_err();
    assert_eq!(
        e,
        ParseError::Unexpected {
            kind: UnexpectedKind::Root,
            nonterm: Nonterm::Compound,
            token: (Span::new(2, 3, 0), Token::Asterisk),
        }
    );

    let e = parse_top_level(&terms(vec![Token::KwLet, id("x"), Token::Assign, Token::RParen])).unwrap_err();
    assert_eq!(
        e,
        ParseError::Unexpected {
            kind: UnexpectedKind::Root,
            nonterm: Nonterm::Compound,
            token: (Span::new(3, 4, 0), Token::RParen),
        }
    );
}

#[test]
fn a_block_must_be_closed() {
    let e = parse_top_level(&terms(vec![Token::BlockStart, id("a")])).unwrap_err();
    assert_eq!(e, ParseError::Eof { nonterm: Nonterm::Compound });
    let e = parse_top_level(&terms(vec![Token::BlockStart, id("a"), Token::RParen])).unwrap_err();
    assert_eq!(
        e,
        ParseError::Unexpected {
            kind: UnexpectedKind::Other,
            nonterm: Nonterm::Compound,
            token: (Span::new(2, 3, 0), Token::RParen),
        }
    );
}

#[test]
fn a_parenthesis_must_be_closed() {
    let e = parse_top_level(&terms(vec![Token::LParen, id("a")])).unwrap_err();
    assert_eq!(e, ParseError::Eof { nonterm: Nonterm::Simple });
    let e = parse_top_level(&terms(vec![id("f"), Token::LParen, id("a"), Token::KwThen])).unwrap_err();
    assert_eq!(
        e,
        ParseError::Unexpected {
            kind: UnexpectedKind::Other,
            nonterm: Nonterm::Simple,
            token: (Span::new(3, 4, 0), Token::KwThen),
        }
    );
}

#[test]
fn an_if_needs_its_then() {
    let e = parse_top_level(&terms(vec![Token::KwIf, id("a")])).unwrap_err();
    assert_eq!(e, ParseError::Eof { nonterm: Nonterm::If });
    let e = parse_top_level(&terms(vec![Token::KwIf, id("a"), Token::KwElse, num(1.0)])).unwrap_err();
    assert_eq!(
        e,
        ParseError::Unexpected {
            kind: UnexpectedKind::Other,
            nonterm: Nonterm::If,
            token: (Span::new(2, 3, 0), Token::KwElse),
        }
    );
}

#[test]
fn the_first_error_is_the_only_one() {
    // Both the missing operand and the stray parenthesis are wrong; only
    // the first is reported.
    let e = parse_top_level(&terms(vec![num(1.0), Token::Plus, Token::KwThen, Token::RParen])).unwrap_err();
    assert_eq!(
        e,
        ParseError::Unexpected {
            kind: UnexpectedKind::Root,
            nonterm: Nonterm::Compound,
            token: (Span::new(2, 3, 0), Token::KwThen),
        }
    );
}

#[test]
fn rules_have_names() {
    assert_eq!(Nonterm::TopLevel.name(), "top_level");
    assert_eq!(Nonterm::Def.name(), "def");
    assert_eq!(Nonterm::Compound.name(), "_expr");
    assert_eq!(Nonterm::Simple.name(), "__expr");
    assert_eq!(Nonterm::If.name(), "_if");
}

#[test]
fn merged_spans_run_from_the_first_to_the_last() {
    assert_eq!(merge(Span::new(3, 5, 1), Span::new(9, 12, 2)), Span::new(3, 12, 1));
    assert_eq!(Span::new(3, 5, 1).extend(8), Span::new(3, 8, 1));
    let got = create_binop(
        BinOpKind::Add,
        AstNode::new(Span::new(4, 5, 7), Ast::Number(0)),
        AstNode::new(Span::new(10, 12, 8), Ast::Number(0)),
    );
    assert_eq!(got.span, Span::new(4, 12, 7));
}

#[test]
fn parse_structures_and_strips_before_it_reads() {
    // let f x =⏎␣␣x⏎
    let tokens = vec![
        (Span::new(0, 3, 0), Token::KwLet),
        (Span::new(3, 4, 0), Token::Whitespace(" ".to_string())),
        (Span::new(4, 5, 0), id("f")),
        (Span::new(5, 6, 0), Token::Whitespace(" ".to_string())),
        (Span::new(6, 7, 0), id("x")),
        (Span::new(7, 8, 0), Token::Whitespace(" ".to_string())),
        (Span::new(8, 9, 0), Token::Assign),
        (Span::new(9, 12, 0), Token::Whitespace("\n  ".to_string())),
        (Span::new(12, 13, 1), id("x")),
        (Span::new(13, 14, 1), Token::Whitespace("\n".to_string())),
    ];
    let items = Parser::parse(&tokens).unwrap();
    let body = AstNode::new(
        Span::new(9, 14, 0),
        Ast::Block(vec![AstNode::new(Span::new(12, 13, 1), Ast::Ref("x".to_string()))]),
    );
    let want = AstNode::new(
        Span::new(0, 14, 0),
        Ast::Function { prototype: Prototype { name: "f".to_string(), args: vec!["x".to_string()] }, body },
    );
    assert_eq!(items, vec![want]);
}

#[test]
fn a_copy_of_a_token_is_equal_to_it() {
    let tokens = vec![
        Token::Whitespace(" \n".to_string()),
        Token::Comment("c".to_string()),
        id("name"),
        num(-2.5),
        Token::SingleQuote("s".to_string()),
        Token::DoubleQuote("d".to_string()),
        Token::Unknown("?".to_string()),
        Token::KwLet,
        Token::BlockEnd,
        Token::Range,
    ];
    for token in tokens {
        assert_eq!(token.duplicate(), token);
    }
}
