//! From tokens to syntax trees.
//!
//! The parser reads the tokens once, from left to right, and never goes
//! back: the token at hand decides which rule applies. Binary expressions
//! are read by precedence climbing. The first error ends the parse.

pub mod ast;
pub mod grammar;
pub mod transform;

use vstd::prelude::*;
use crate::lexer::token::{term_view, terms_view, Term, Token};
use crate::parser::ast::{names_view, nodes_view, Ast, AstNode, BinOpKind, Prototype, SpecNode};
use crate::parser::grammar::{
    args, binop_node, compound, conditional, def, fail, items, lemma_level_is_rounds, lemma_prepend_nothing,
    lemma_prepend_twice, lemma_rounds_fail, lemma_rounds_idle, lemma_rounds_narrow, lemma_rounds_of_error,
    lemma_rounds_step, level, operator, params, precedence, prepend, rounds, simple, starts_item, starts_simple,
    top_level, Nonterm, Parsed, SpecParseError, UnexpectedKind,
};
use crate::parser::transform::{blocks, strip, stripped, structured};
use crate::span::Span;

verus! {

/// Why the tokens are no program.
#[derive(Debug, PartialEq, Eq)]
pub enum ParseError {
    /// The rule `nonterm` cannot go on with `token`.
    Unexpected { kind: UnexpectedKind, nonterm: Nonterm, token: Term },
    /// The rule `nonterm` needs more input than there is.
    Eof { nonterm: Nonterm },
}

impl View for ParseError {
    type V = SpecParseError;

    open spec fn view(&self) -> SpecParseError {
        match self {
            ParseError::Unexpected { kind, nonterm, token } => SpecParseError::Unexpected {
                kind: *kind,
                nonterm: *nonterm,
                token: term_view(*token),
            },
            ParseError::Eof { nonterm } => SpecParseError::Eof { nonterm: *nonterm },
        }
    }
}

impl Nonterm {
    /// The name of the rule.
    pub fn name(&self) -> (s: &'static str)
        ensures
            s@ == match self {
                Nonterm::TopLevel => "top_level"@,
                Nonterm::Def => "def"@,
                Nonterm::Compound => "_expr"@,
                Nonterm::Simple => "__expr"@,
                Nonterm::If => "_if"@,
            },
    {
        match self {
            Nonterm::TopLevel => "top_level",
            Nonterm::Def => "def",
            Nonterm::Compound => "_expr",
            Nonterm::Simple => "__expr",
            Nonterm::If => "_if",
        }
    }
}

/// The model of what a rule for one node gave when it started at `pos`.
pub open spec fn node_parsed(r: Result<(AstNode, usize), ParseError>, pos: usize) -> Parsed<SpecNode> {
    match r {
        Ok((node, next)) => Ok((node@, (next - pos) as nat)),
        Err(e) => Err(e@),
    }
}

/// The model of what a rule for a list of nodes gave when it started at
/// `pos`.
pub open spec fn nodes_parsed(r: Result<(Vec<AstNode>, usize), ParseError>, pos: usize) -> Parsed<Seq<SpecNode>> {
    match r {
        Ok((nodes, next)) => Ok((nodes_view(nodes@), (next - pos) as nat)),
        Err(e) => Err(e@),
    }
}

/// The model of what a parse gave.
pub open spec fn parse_view(r: Result<Vec<AstNode>, ParseError>) -> Result<Seq<SpecNode>, SpecParseError> {
    match r {
        Ok(nodes) => Ok(nodes_view(nodes@)),
        Err(e) => Err(e@),
    }
}

/// The parser.
pub struct Parser;

impl Parser {
    /// Parses a token stream as the lexer gives it: makes its block
    /// structure explicit, drops whitespace and comments, and reads the
    /// items of the top level.
    pub fn parse(tokens: &Vec<Term>) -> (r: Result<Vec<AstNode>, ParseError>)
        ensures
            parse_view(r) == top_level(
                stripped(structured(terms_view(tokens@)), structured(terms_view(tokens@)).len()),
            ),
    {
        let marked = blocks(tokens);
        let code = strip(&marked);
        parse_top_level(&code)
    }
}

/// The span from the start of `a` to the end of `b`.
pub fn merge(a: Span, b: Span) -> (s: Span)
    ensures
        s == a.spec_merge(b),
{
    a.extend(b.hi)
}

/// The node of a binary operation, which spans its operands.
pub fn create_binop(kind: BinOpKind, lhs: AstNode, rhs: AstNode) -> (node: AstNode)
    ensures
        node@ == binop_node(kind, lhs@, rhs@),
{
    let span = Span::new(lhs.span.lo, rhs.span.hi, lhs.span.line);
    AstNode::new(span, Ast::BinOp { kind, lhs, rhs })
}

/// The operator that a token stands for, with its precedence.
pub fn operator_of(token: &Token) -> (op: Option<(BinOpKind, u8)>)
    ensures
        match op {
            Some((kind, p)) => operator(token@) == Some((kind, p as nat)),
            None => operator(token@) is None,
        },
{
    match token {
        Token::Eq => Some((BinOpKind::Eq, 0)),
        Token::NotEq => Some((BinOpKind::NotEq, 0)),
        Token::GreaterThan => Some((BinOpKind::GreaterThan, 0)),
        Token::GreaterEq => Some((BinOpKind::GreaterEq, 0)),
        Token::LessThan => Some((BinOpKind::LessThan, 0)),
        Token::LessEq => Some((BinOpKind::LessEq, 0)),
        Token::Plus => Some((BinOpKind::Add, 1)),
        Token::Minus => Some((BinOpKind::Sub, 1)),
        Token::Asterisk => Some((BinOpKind::Mul, 2)),
        _ => None,
    }
}

/// The error of the rule `nonterm` that cannot go on at `pos`.
fn fail_at(ts: &Vec<Term>, pos: usize, kind: UnexpectedKind, nonterm: Nonterm) -> (e: ParseError)
    ensures
        e@ == fail(terms_view(ts@), pos as nat, kind, nonterm),
{
    if pos < ts.len() {
        ParseError::Unexpected { kind, nonterm, token: (ts[pos].0, ts[pos].1.duplicate()) }
    } else {
        ParseError::Eof { nonterm }
    }
}

fn is_simple_start(token: &Token) -> (b: bool)
    ensures
        b == starts_simple(token@),
{
    match token {
        Token::Ident(_) => true,
        Token::LParen => true,
        Token::Number(_) => true,
        _ => false,
    }
}

fn is_item_start(token: &Token) -> (b: bool)
    ensures
        b == starts_item(token@),
{
    match token {
        Token::Ident(_) => true,
        Token::LParen => true,
        Token::Number(_) => true,
        Token::BlockStart => true,
        Token::KwIf => true,
        Token::KwLet => true,
        Token::BlockCont => true,
        _ => false,
    }
}

/// `top_level`: the items of the whole input.
pub fn parse_top_level(ts: &Vec<Term>) -> (r: Result<Vec<AstNode>, ParseError>)
    ensures
        parse_view(r) == top_level(terms_view(ts@)),
{
    let (nodes, next) = match parse_items(ts, 0) {
        Ok(found) => found,
        Err(e) => {
            return Err(e);
        },
    };
    if next < ts.len() {
        Err(
            ParseError::Unexpected {
                kind: UnexpectedKind::Root,
                nonterm: Nonterm::TopLevel,
                token: (ts[next].0, ts[next].1.duplicate()),
            },
        )
    } else {
        Ok(nodes)
    }
}

/// `items`, from `pos` on.
pub fn parse_items(ts: &Vec<Term>, pos: usize) -> (r: Result<(Vec<AstNode>, usize), ParseError>)
    requires
        pos <= ts.len(),
    ensures
        nodes_parsed(r, pos) == items(terms_view(ts@), pos as nat),
        r matches Ok((_, next)) ==> pos <= next <= ts.len(),
    decreases ts.len() - pos, 20nat,
{
    let ghost tv = terms_view(ts@);
    let mut nodes: Vec<AstNode> = Vec::new();
    let mut cur: usize = pos;
    proof {
        lemma_prepend_nothing(items(tv, pos as nat));
        assert(nodes_view(nodes@) =~= Seq::<SpecNode>::empty());
    }
    while cur < ts.len() && is_item_start(&ts[cur].1)
        invariant
            pos <= cur <= ts.len(),
            tv == terms_view(ts@),
            items(tv, pos as nat) == prepend(nodes_view(nodes@), (cur - pos) as nat, items(tv, cur as nat)),
        decreases ts.len() - cur,
    {
        let ghost before = nodes_view(nodes@);
        assert(tv[cur as int] == term_view(ts@[cur as int]));
        let found = match &ts[cur].1 {
            Token::BlockCont => {
                proof {
                    let rest = items(tv, (cur + 1) as nat);
                    assert(items(tv, cur as nat) == prepend(Seq::empty(), 1, rest)) by {
                        lemma_prepend_nothing(rest);
                        match rest {
                            Ok((r, t)) => {
                                assert(Seq::<SpecNode>::empty() + r =~= r);
                            },
                            Err(_) => {},
                        }
                    }
                    lemma_prepend_twice(before, (cur - pos) as nat, Seq::empty(), 1, rest);
                    assert(before + Seq::<SpecNode>::empty() =~= before);
                }
                cur = cur + 1;
                continue ;
            },
            Token::KwLet => parse_def(ts, cur),
            _ => parse_expr(ts, cur, 0),
        };
        match found {
            Err(e) => {
                return Err(e);
            },
            Ok((node, next)) => {
                proof {
                    let rest = items(tv, next as nat);
                    assert(items(tv, cur as nat) == prepend(seq![node@], (next - cur) as nat, rest));
                    lemma_prepend_twice(before, (cur - pos) as nat, seq![node@], (next - cur) as nat, rest);
                }
                nodes.push(node);
                assert(nodes_view(nodes@) =~= before + seq![node@]);
                cur = next;
            },
        }
    }
    proof {
        assert(cur < ts.len() ==> tv[cur as int] == term_view(ts@[cur as int]));
        assert(items(tv, cur as nat) == Ok::<(Seq<SpecNode>, nat), SpecParseError>((Seq::empty(), 0)));
        assert(nodes_view(nodes@) + Seq::<SpecNode>::empty() =~= nodes_view(nodes@));
    }
    Ok((nodes, cur))
}

/// `def`, at the `let` at `pos`.
pub fn parse_def(ts: &Vec<Term>, pos: usize) -> (r: Result<(AstNode, usize), ParseError>)
    requires
        pos < ts.len(),
    ensures
        node_parsed(r, pos) == def(terms_view(ts@), pos as nat),
        r matches Ok((_, next)) ==> pos < next <= ts.len(),
    decreases ts.len() - pos, 15nat,
{
    let ghost tv = terms_view(ts@);
    let span = ts[pos].0;
    assert(tv[pos as int] == term_view(ts@[pos as int]));
    if pos + 1 >= ts.len() {
        return Err(fail_at(ts, pos + 1, UnexpectedKind::Other, Nonterm::Def));
    }
    assert(tv[pos + 1] == term_view(ts@[pos + 1]));
    let name = match &ts[pos + 1].1 {
        Token::Ident(name) => name.clone(),
        _ => {
            return Err(fail_at(ts, pos + 1, UnexpectedKind::Other, Nonterm::Def));
        },
    };
    let mut names: Vec<String> = Vec::new();
    let mut cur: usize = pos + 2;
    assert(names_view(names@) =~= Seq::<Seq<char>>::empty());
    assert(Seq::<Seq<char>>::empty() + params(tv, cur as nat) =~= params(tv, cur as nat));
    loop
        invariant
            pos + 2 <= cur <= ts.len(),
            tv == terms_view(ts@),
            cur - (pos + 2) == names@.len(),
            params(tv, (pos + 2) as nat) == names_view(names@) + params(tv, cur as nat),
        ensures
            params(tv, (pos + 2) as nat) == names_view(names@),
        decreases ts.len() - cur,
    {
        if cur >= ts.len() {
            assert(names_view(names@) + Seq::<Seq<char>>::empty() =~= names_view(names@));
            break ;
        }
        assert(tv[cur as int] == term_view(ts@[cur as int]));
        match &ts[cur].1 {
            Token::Ident(param) => {
                let ghost before = names_view(names@);
                names.push(param.clone());
                proof {
                    assert(names_view(names@) =~= before.push(param@));
                    assert(before + (seq![param@] + params(tv, (cur + 1) as nat)) =~= before.push(param@) + params(
                        tv,
                        (cur + 1) as nat,
                    ));
                }
                cur = cur + 1;
            },
            _ => {
                assert(names_view(names@) + Seq::<Seq<char>>::empty() =~= names_view(names@));
                break ;
            },
        }
    }
    let is_assign = cur < ts.len() && match &ts[cur].1 {
        Token::Assign => true,
        _ => false,
    };
    assert(cur < ts.len() ==> tv[cur as int] == term_view(ts@[cur as int]));
    if !is_assign {
        return Err(fail_at(ts, cur, UnexpectedKind::Other, Nonterm::Def));
    }
    let (body, next) = match parse_expr(ts, cur + 1, 0) {
        Ok(found) => found,
        Err(e) => {
            return Err(e);
        },
    };
    let span = span.extend(body.span.hi);
    let node = if names.len() == 0 {
        AstNode::new(span, Ast::Variable { name, expr: body })
    } else {
        AstNode::new(span, Ast::Function { prototype: Prototype { name, args: names }, body })
    };
    Ok((node, next))
}

/// `level min_prec`, by precedence climbing: a compound expression, then,
/// as long as an operator that binds at least as tightly as `min_prec`
/// follows, that operator and, as its right operand, the expression of the
/// operators that bind tighter than it.
pub fn parse_expr(ts: &Vec<Term>, pos: usize, min_prec: u8) -> (r: Result<(AstNode, usize), ParseError>)
    requires
        pos <= ts.len(),
    ensures
        node_parsed(r, pos) == level(terms_view(ts@), pos as nat, min_prec as nat),
        r matches Ok((_, next)) ==> pos < next <= ts.len() && (next < ts.len() ==> match precedence(
            ts@[next as int].1@,
        ) {
            Some(p) => p < min_prec,
            None => true,
        }),
    decreases ts.len() - pos, (if min_prec >= 3 { 6nat } else { (10 - min_prec) as nat }),
{
    let ghost tv = terms_view(ts@);
    let (first, after) = match parse_compound(ts, pos) {
        Ok(found) => found,
        Err(e) => {
            proof {
                if min_prec < 3 {
                    lemma_level_is_rounds(tv, pos as nat, min_prec as nat);
                    lemma_rounds_of_error(tv, pos as nat, 2, min_prec as nat, e@);
                }
            }
            return Err(e);
        },
    };
    if min_prec >= 3 {
        assert(after < ts.len() ==> tv[after as int] == term_view(ts@[after as int]));
        return Ok((first, after));
    }
    let mut lhs = first;
    let mut cur = after;
    let ghost mut cap: nat = 2;
    proof {
        lemma_level_is_rounds(tv, pos as nat, min_prec as nat);
    }
    loop
        invariant
            pos < cur <= ts.len(),
            min_prec <= 2,
            cap <= 2,
            tv == terms_view(ts@),
            level(tv, pos as nat, min_prec as nat) == rounds(
                tv,
                pos as nat,
                cap as int,
                min_prec as nat,
                Ok((lhs@, (cur - pos) as nat)),
            ),
            cur < ts.len() ==> match precedence(tv[cur as int].1) {
                Some(p) => p <= cap,
                None => true,
            },
        ensures
            level(tv, pos as nat, min_prec as nat) == Ok::<(SpecNode, nat), SpecParseError>(
                (lhs@, (cur - pos) as nat),
            ),
            cur < ts.len() ==> match precedence(tv[cur as int].1) {
                Some(p) => p < min_prec,
                None => true,
            },
        decreases ts.len() - cur,
    {
        if cur >= ts.len() {
            proof {
                lemma_rounds_idle(tv, pos as nat, cap as int, min_prec as nat, lhs@, (cur - pos) as nat);
            }
            break ;
        }
        assert(tv[cur as int] == term_view(ts@[cur as int]));
        let (kind, prec) = match operator_of(&ts[cur].1) {
            Some((kind, prec)) => {
                if prec < min_prec {
                    proof {
                        lemma_rounds_idle(tv, pos as nat, cap as int, min_prec as nat, lhs@, (cur - pos) as nat);
                    }
                    break ;
                }
                (kind, prec)
            },
            None => {
                proof {
                    lemma_rounds_idle(tv, pos as nat, cap as int, min_prec as nat, lhs@, (cur - pos) as nat);
                }
                break ;
            },
        };
        proof {
            lemma_rounds_narrow(
                tv,
                pos as nat,
                cap as int,
                min_prec as nat,
                prec as nat,
                lhs@,
                (cur - pos) as nat,
            );
        }
        let (rhs, next) = match parse_expr(ts, cur + 1, prec + 1) {
            Ok(found) => found,
            Err(e) => {
                proof {
                    lemma_rounds_fail(tv, pos as nat, min_prec as nat, prec as nat, lhs@, (cur - pos) as nat, e@);
                }
                return Err(e);
            },
        };
        proof {
            lemma_rounds_step(
                tv,
                pos as nat,
                min_prec as nat,
                prec as nat,
                lhs@,
                (cur - pos) as nat,
                rhs@,
                (next - (cur + 1)) as nat,
            );
            assert(next < ts.len() ==> tv[next as int] == term_view(ts@[next as int]));
            cap = prec as nat;
        }
        lhs = create_binop(kind, lhs, rhs);
        cur = next;
    }
    assert(cur < ts.len() ==> tv[cur as int] == term_view(ts@[cur as int]));
    Ok((lhs, cur))
}

/// `compound`, at `pos`.
pub fn parse_compound(ts: &Vec<Term>, pos: usize) -> (r: Result<(AstNode, usize), ParseError>)
    requires
        pos <= ts.len(),
    ensures
        node_parsed(r, pos) == compound(terms_view(ts@), pos as nat),
        r matches Ok((_, next)) ==> pos < next <= ts.len(),
    decreases ts.len() - pos, 5nat,
{
    let ghost tv = terms_view(ts@);
    if pos >= ts.len() {
        return Err(ParseError::Eof { nonterm: Nonterm::Compound });
    }
    assert(tv[pos as int] == term_view(ts@[pos as int]));
    let span = ts[pos].0;
    match &ts[pos].1 {
        Token::BlockStart => {
            let (nodes, end) = match parse_items(ts, pos + 1) {
                Ok(found) => found,
                Err(e) => {
                    return Err(e);
                },
            };
            let closed = end < ts.len() && match &ts[end].1 {
                Token::BlockEnd => true,
                _ => false,
            };
            assert(end < ts.len() ==> tv[end as int] == term_view(ts@[end as int]));
            if !closed {
                return Err(fail_at(ts, end, UnexpectedKind::Other, Nonterm::Compound));
            }
            Ok((AstNode::new(merge(span, ts[end].0), Ast::Block(nodes)), end + 1))
        },
        Token::Ident(name) => {
            let (nodes, next) = match parse_args(ts, pos + 1) {
                Ok(found) => found,
                Err(e) => {
                    return Err(e);
                },
            };
            if nodes.len() == 0 {
                Ok((AstNode::new(span, Ast::Ref(name.clone())), next))
            } else {
                let first = &nodes[0].span;
                let last = &nodes[nodes.len() - 1].span;
                let call_span = Span::new(first.lo, last.hi, first.line);
                assert(nodes_view(nodes@).last() == nodes@[nodes@.len() - 1]@);
                Ok((AstNode::new(merge(span, call_span), Ast::Call { name: name.clone(), args: nodes }), next))
            }
        },
        Token::KwIf => parse_if(ts, pos),
        Token::LParen => parse_simple(ts, pos),
        Token::Number(_) => parse_simple(ts, pos),
        _ => Err(fail_at(ts, pos, UnexpectedKind::Root, Nonterm::Compound)),
    }
}

/// The arguments of a call, from `pos` on.
pub fn parse_args(ts: &Vec<Term>, pos: usize) -> (r: Result<(Vec<AstNode>, usize), ParseError>)
    requires
        pos <= ts.len(),
    ensures
        nodes_parsed(r, pos) == args(terms_view(ts@), pos as nat),
        r matches Ok((_, next)) ==> pos <= next <= ts.len(),
    decreases ts.len() - pos, 4nat,
{
    let ghost tv = terms_view(ts@);
    let mut nodes: Vec<AstNode> = Vec::new();
    let mut cur: usize = pos;
    proof {
        lemma_prepend_nothing(args(tv, pos as nat));
        assert(nodes_view(nodes@) =~= Seq::<SpecNode>::empty());
    }
    while cur < ts.len() && is_simple_start(&ts[cur].1)
        invariant
            pos <= cur <= ts.len(),
            tv == terms_view(ts@),
            args(tv, pos as nat) == prepend(nodes_view(nodes@), (cur - pos) as nat, args(tv, cur as nat)),
        decreases ts.len() - cur,
    {
        let ghost before = nodes_view(nodes@);
        assert(tv[cur as int] == term_view(ts@[cur as int]));
        match parse_simple(ts, cur) {
            Err(e) => {
                return Err(e);
            },
            Ok((node, next)) => {
                proof {
                    let rest = args(tv, next as nat);
                    assert(args(tv, cur as nat) == prepend(seq![node@], (next - cur) as nat, rest));
                    lemma_prepend_twice(before, (cur - pos) as nat, seq![node@], (next - cur) as nat, rest);
                }
                nodes.push(node);
                assert(nodes_view(nodes@) =~= before + seq![node@]);
                cur = next;
            },
        }
    }
    proof {
        assert(cur < ts.len() ==> tv[cur as int] == term_view(ts@[cur as int]));
        assert(args(tv, cur as nat) == Ok::<(Seq<SpecNode>, nat), SpecParseError>((Seq::empty(), 0)));
        assert(nodes_view(nodes@) + Seq::<SpecNode>::empty() =~= nodes_view(nodes@));
    }
    Ok((nodes, cur))
}

/// `simple`, at `pos`.
pub fn parse_simple(ts: &Vec<Term>, pos: usize) -> (r: Result<(AstNode, usize), ParseError>)
    requires
        pos <= ts.len(),
    ensures
        node_parsed(r, pos) == simple(terms_view(ts@), pos as nat),
        r matches Ok((_, next)) ==> pos < next <= ts.len(),
    decreases ts.len() - pos, 3nat,
{
    let ghost tv = terms_view(ts@);
    if pos >= ts.len() {
        return Err(ParseError::Eof { nonterm: Nonterm::Simple });
    }
    assert(tv[pos as int] == term_view(ts@[pos as int]));
    let span = ts[pos].0;
    match &ts[pos].1 {
        Token::Ident(name) => Ok((AstNode::new(span, Ast::Ref(name.clone())), pos + 1)),
        Token::Number(bits) => Ok((AstNode::new(span, Ast::Number(*bits)), pos + 1)),
        Token::LParen => {
            let (inner, close) = match parse_expr(ts, pos + 1, 0) {
                Ok(found) => found,
                Err(e) => {
                    return Err(e);
                },
            };
            let closed = close < ts.len() && match &ts[close].1 {
                Token::RParen => true,
                _ => false,
            };
            assert(close < ts.len() ==> tv[close as int] == term_view(ts@[close as int]));
            if !closed {
                return Err(fail_at(ts, close, UnexpectedKind::Other, Nonterm::Simple));
            }
            Ok((inner, close + 1))
        },
        _ => Err(fail_at(ts, pos, UnexpectedKind::Root, Nonterm::Simple)),
    }
}

/// `if`, at the `if` at `pos`.
pub fn parse_if(ts: &Vec<Term>, pos: usize) -> (r: Result<(AstNode, usize), ParseError>)
    requires
        pos < ts.len(),
    ensures
        node_parsed(r, pos) == conditional(terms_view(ts@), pos as nat),
        r matches Ok((_, next)) ==> pos < next <= ts.len(),
    decreases ts.len() - pos, 3nat,
{
    let ghost tv = terms_view(ts@);
    assert(tv[pos as int] == term_view(ts@[pos as int]));
    let span = ts[pos].0;
    let (condition, then_at) = match parse_expr(ts, pos + 1, 0) {
        Ok(found) => found,
        Err(e) => {
            return Err(e);
        },
    };
    let has_then = then_at < ts.len() && match &ts[then_at].1 {
        Token::KwThen => true,
        _ => false,
    };
    assert(then_at < ts.len() ==> tv[then_at as int] == term_view(ts@[then_at as int]));
    if !has_then {
        return Err(fail_at(ts, then_at, UnexpectedKind::Other, Nonterm::If));
    }
    let (then, else_at) = match parse_expr(ts, then_at + 1, 0) {
        Ok(found) => found,
        Err(e) => {
            return Err(e);
        },
    };
    let has_else = else_at < ts.len() && match &ts[else_at].1 {
        Token::KwElse => true,
        _ => false,
    };
    assert(else_at < ts.len() ==> tv[else_at as int] == term_view(ts@[else_at as int]));
    if has_else {
        let (el, next) = match parse_expr(ts, else_at + 1, 0) {
            Ok(found) => found,
            Err(e) => {
                return Err(e);
            },
        };
        let span = span.extend(el.span.hi);
        Ok((AstNode::new(span, Ast::If { condition, then, el: Some(el) }), next))
    } else {
        let span = span.extend(then.span.hi);
        Ok((AstNode::new(span, Ast::If { condition, then, el: None }), else_at))
    }
}

} // verus!
