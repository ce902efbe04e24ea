//! The grammar, as functions on mathematical values.
//!
//! Each rule is a function from the tokens and a position to the tree that
//! the rule reads there, together with how many tokens it takes, or to the
//! error it stops with. No rule looks back or tries again: the token at
//! the position decides which way a rule goes.
//!
//! ```text
//! top_level := items, then the end of the input
//! items     := { def | expr | BlockCont }
//! def       := "let" Ident { Ident } "=" expr
//! expr      := level 0
//! level k   := level k+1 { operator of precedence k, level k+1 }   (k = 0, 1, 2)
//! level 3   := compound
//! compound  := BlockStart items BlockEnd | Ident { simple } | if | "(" expr ")" | Number
//! simple    := Ident | "(" expr ")" | Number
//! if        := "if" expr "then" expr [ "else" expr ]
//! ```
//!
//! Equality and the comparisons have precedence 0, `+` and `-` have 1, `*`
//! has 2. The braces of `level k` fold to the left.

use vstd::prelude::*;
use crate::lexer::token::{SpecTerm, SpecToken};
use crate::parser::ast::{BinOpKind, SpecAst, SpecNode};
use crate::span::Span;

verus! {

/// The rules that can report an error.
#[derive(Clone, Copy, Debug, PartialEq, Eq, Structural)]
pub enum Nonterm {
    TopLevel,
    Def,
    Compound,
    Simple,
    If,
}

/// Whether the token could not start the rule, or came up inside it.
#[derive(Clone, Copy, Debug, PartialEq, Eq, Structural)]
pub enum UnexpectedKind {
    Root,
    Other,
}

/// Model of a parse error.
pub enum SpecParseError {
    /// The rule `nonterm` cannot go on with `token`.
    Unexpected { kind: UnexpectedKind, nonterm: Nonterm, token: SpecTerm },
    /// The rule `nonterm` needs more input than there is.
    Eof { nonterm: Nonterm },
}

/// What a rule gives: a value and the number of tokens that it took, or an
/// error.
pub type Parsed<T> = Result<(T, nat), SpecParseError>;

/// The error of the rule `nonterm` that cannot go on at `pos`.
pub open spec fn fail(ts: Seq<SpecTerm>, pos: nat, kind: UnexpectedKind, nonterm: Nonterm) -> SpecParseError {
    if pos < ts.len() {
        SpecParseError::Unexpected { kind, nonterm, token: ts[pos as int] }
    } else {
        SpecParseError::Eof { nonterm }
    }
}

/// The operator that a token stands for, with its precedence: a higher one
/// binds tighter.
pub open spec fn operator(token: SpecToken) -> Option<(BinOpKind, nat)> {
    match token {
        SpecToken::Eq => Some((BinOpKind::Eq, 0)),
        SpecToken::NotEq => Some((BinOpKind::NotEq, 0)),
        SpecToken::GreaterThan => Some((BinOpKind::GreaterThan, 0)),
        SpecToken::GreaterEq => Some((BinOpKind::GreaterEq, 0)),
        SpecToken::LessThan => Some((BinOpKind::LessThan, 0)),
        SpecToken::LessEq => Some((BinOpKind::LessEq, 0)),
        SpecToken::Plus => Some((BinOpKind::Add, 1)),
        SpecToken::Minus => Some((BinOpKind::Sub, 1)),
        SpecToken::Asterisk => Some((BinOpKind::Mul, 2)),
        _ => None,
    }
}

/// The precedence of the operator that a token stands for.
pub open spec fn precedence(token: SpecToken) -> Option<nat> {
    match operator(token) {
        Some((_, p)) => Some(p),
        None => None,
    }
}

/// The kind of the operator that a token stands for.
pub open spec fn operator_kind(token: SpecToken) -> BinOpKind {
    match operator(token) {
        Some((kind, _)) => kind,
        None => BinOpKind::Add,
    }
}

/// Whether an expression that can be an argument starts with the token.
pub open spec fn starts_simple(token: SpecToken) -> bool {
    token is Ident || token is LParen || token is Number
}

/// Whether an expression starts with the token.
pub open spec fn starts_expr(token: SpecToken) -> bool {
    starts_simple(token) || token is BlockStart || token is KwIf
}

/// Whether an item of a block or of the top level starts with the token.
pub open spec fn starts_item(token: SpecToken) -> bool {
    starts_expr(token) || token is KwLet || token is BlockCont
}

/// The node of a binary operation: it spans its operands.
pub open spec fn binop_node(kind: BinOpKind, lhs: SpecNode, rhs: SpecNode) -> SpecNode {
    SpecNode {
        span: Span { lo: lhs.span.lo, hi: rhs.span.hi, line: lhs.span.line },
        expr: SpecAst::BinOp { kind, lhs: Box::new(lhs), rhs: Box::new(rhs) },
    }
}

/// The node of a name followed by `args`: a reference if there are none, a
/// call otherwise; it spans the name and the arguments.
pub open spec fn name_node(span: Span, name: Seq<char>, args: Seq<SpecNode>) -> SpecNode {
    if args.len() == 0 {
        SpecNode { span, expr: SpecAst::Ref(name) }
    } else {
        SpecNode { span: span.spec_extend(args.last().span.hi), expr: SpecAst::Call { name, args } }
    }
}

/// The node of a definition: of a variable if it names no parameter, of a
/// function otherwise; it spans `let` and the body.
pub open spec fn def_node(span: Span, name: Seq<char>, params: Seq<Seq<char>>, body: SpecNode) -> SpecNode {
    SpecNode {
        span: span.spec_extend(body.span.hi),
        expr: if params.len() == 0 {
            SpecAst::Variable { name, expr: Box::new(body) }
        } else {
            SpecAst::Function { name, params, body: Box::new(body) }
        },
    }
}

/// The node of a conditional; it spans `if` and the last branch.
pub open spec fn if_node(span: Span, condition: SpecNode, then: SpecNode, el: Option<SpecNode>) -> SpecNode {
    SpecNode {
        span: span.spec_extend(
            match el {
                Some(e) => e.span.hi,
                None => then.span.hi,
            },
        ),
        expr: SpecAst::If {
            condition: Box::new(condition),
            then: Box::new(then),
            el: match el {
                Some(e) => Some(Box::new(e)),
                None => None,
            },
        },
    }
}

/// `r` with `n` more tokens taken before it.
pub open spec fn shift<T>(n: nat, r: Parsed<T>) -> Parsed<T> {
    match r {
        Ok((value, taken)) => Ok((value, n + taken)),
        Err(e) => Err(e),
    }
}

/// The list `r` with `first` before it, which took `n` tokens.
pub open spec fn prepend(first: Seq<SpecNode>, n: nat, r: Parsed<Seq<SpecNode>>) -> Parsed<Seq<SpecNode>> {
    match r {
        Ok((rest, taken)) => Ok((first + rest, n + taken)),
        Err(e) => Err(e),
    }
}

/// How many tokens are left at `pos`.
pub open spec fn left(ts: Seq<SpecTerm>, pos: nat) -> nat {
    if pos <= ts.len() {
        (ts.len() - pos) as nat
    } else {
        0
    }
}

/// The names of the parameters from `pos` on: every identifier up to the
/// first token that is none.
pub open spec fn params(ts: Seq<SpecTerm>, pos: nat) -> Seq<Seq<char>>
    decreases left(ts, pos),
{
    if pos < ts.len() {
        match ts[pos as int].1 {
            SpecToken::Ident(name) => seq![name] + params(ts, pos + 1),
            _ => Seq::empty(),
        }
    } else {
        Seq::empty()
    }
}

/// `items`: definitions and expressions, with or without continuation
/// markers between them, up to the first token that starts none.
pub open spec fn items(ts: Seq<SpecTerm>, pos: nat) -> Parsed<Seq<SpecNode>>
    decreases left(ts, pos), 20nat,
{
    if pos >= ts.len() || !starts_item(ts[pos as int].1) {
        Ok((Seq::empty(), 0))
    } else if ts[pos as int].1 is BlockCont {
        shift(1, items(ts, pos + 1))
    } else {
        let item = if ts[pos as int].1 is KwLet {
            def(ts, pos)
        } else {
            level(ts, pos, 0)
        };
        match item {
            Err(e) => Err(e),
            Ok((node, taken)) => if taken == 0 {
                Ok((seq![node], 0))
            } else {
                prepend(seq![node], taken, items(ts, pos + taken))
            },
        }
    }
}

/// `def`, at a `let`.
pub open spec fn def(ts: Seq<SpecTerm>, pos: nat) -> Parsed<SpecNode>
    decreases left(ts, pos), 15nat,
{
    if pos + 1 < ts.len() && ts[(pos + 1) as int].1 is Ident {
        let names = params(ts, pos + 2);
        let assign = pos + 2 + names.len();
        if assign < ts.len() && ts[assign as int].1 is Assign && pos < ts.len() {
            match level(ts, assign + 1, 0) {
                Err(e) => Err(e),
                Ok((body, taken)) => Ok(
                    (
                        def_node(ts[pos as int].0, ts[(pos + 1) as int].1->Ident_0, names, body),
                        (3 + names.len() + taken) as nat,
                    ),
                ),
            }
        } else {
            Err(fail(ts, assign, UnexpectedKind::Other, Nonterm::Def))
        }
    } else {
        Err(fail(ts, pos + 1, UnexpectedKind::Other, Nonterm::Def))
    }
}

/// `level k`: operands of the next level, joined from left to right by
/// operators of precedence `k`.
pub open spec fn level(ts: Seq<SpecTerm>, pos: nat, k: nat) -> Parsed<SpecNode>
    decreases left(ts, pos), (if k >= 3 { 6nat } else { (10 - k) as nat }),
{
    if k >= 3 {
        compound(ts, pos)
    } else {
        match level(ts, pos, k + 1) {
            Err(e) => Err(e),
            Ok((lhs, taken)) => shift(taken, tail(ts, pos + taken, k, lhs)),
        }
    }
}

/// The braces of `level k`: what follows the operand `lhs`.
pub open spec fn tail(ts: Seq<SpecTerm>, pos: nat, k: nat, lhs: SpecNode) -> Parsed<SpecNode>
    decreases left(ts, pos), 0nat,
{
    if pos < ts.len() && precedence(ts[pos as int].1) == Some(k) {
        match level(ts, pos + 1, k + 1) {
            Err(e) => Err(e),
            Ok((rhs, taken)) => shift(
                1 + taken,
                tail(ts, pos + 1 + taken, k, binop_node(operator_kind(ts[pos as int].1), lhs, rhs)),
            ),
        }
    } else {
        Ok((lhs, 0))
    }
}

/// `compound`.
pub open spec fn compound(ts: Seq<SpecTerm>, pos: nat) -> Parsed<SpecNode>
    decreases left(ts, pos), 5nat,
{
    if pos >= ts.len() {
        Err(SpecParseError::Eof { nonterm: Nonterm::Compound })
    } else {
        match ts[pos as int].1 {
            SpecToken::BlockStart => match items(ts, pos + 1) {
                Err(e) => Err(e),
                Ok((nodes, taken)) => {
                    let end = pos + 1 + taken;
                    if end < ts.len() && ts[end as int].1 is BlockEnd {
                        Ok(
                            (
                                SpecNode {
                                    span: ts[pos as int].0.spec_merge(ts[end as int].0),
                                    expr: SpecAst::Block(nodes),
                                },
                                taken + 2,
                            ),
                        )
                    } else {
                        Err(fail(ts, end, UnexpectedKind::Other, Nonterm::Compound))
                    }
                },
            },
            SpecToken::Ident(name) => match args(ts, pos + 1) {
                Err(e) => Err(e),
                Ok((nodes, taken)) => Ok((name_node(ts[pos as int].0, name, nodes), 1 + taken)),
            },
            SpecToken::KwIf => conditional(ts, pos),
            SpecToken::LParen => simple(ts, pos),
            SpecToken::Number(_) => simple(ts, pos),
            _ => Err(fail(ts, pos, UnexpectedKind::Root, Nonterm::Compound)),
        }
    }
}

/// The arguments of a call: every simple expression up to the first token
/// that starts none.
pub open spec fn args(ts: Seq<SpecTerm>, pos: nat) -> Parsed<Seq<SpecNode>>
    decreases left(ts, pos), 4nat,
{
    if pos < ts.len() && starts_simple(ts[pos as int].1) {
        match simple(ts, pos) {
            Err(e) => Err(e),
            Ok((node, taken)) => if taken == 0 {
                Ok((seq![node], 0))
            } else {
                prepend(seq![node], taken, args(ts, pos + taken))
            },
        }
    } else {
        Ok((Seq::empty(), 0))
    }
}

/// `simple`.
pub open spec fn simple(ts: Seq<SpecTerm>, pos: nat) -> Parsed<SpecNode>
    decreases left(ts, pos), 3nat,
{
    if pos >= ts.len() {
        Err(SpecParseError::Eof { nonterm: Nonterm::Simple })
    } else {
        match ts[pos as int].1 {
            SpecToken::Ident(name) => Ok((SpecNode { span: ts[pos as int].0, expr: SpecAst::Ref(name) }, 1)),
            SpecToken::Number(bits) => Ok((SpecNode { span: ts[pos as int].0, expr: SpecAst::Number(bits) }, 1)),
            SpecToken::LParen => match level(ts, pos + 1, 0) {
                Err(e) => Err(e),
                Ok((inner, taken)) => {
                    let close = pos + 1 + taken;
                    if close < ts.len() && ts[close as int].1 is RParen {
                        Ok((inner, taken + 2))
                    } else {
                        Err(fail(ts, close, UnexpectedKind::Other, Nonterm::Simple))
                    }
                },
            },
            _ => Err(fail(ts, pos, UnexpectedKind::Root, Nonterm::Simple)),
        }
    }
}

/// `if`, at an `if`.
pub open spec fn conditional(ts: Seq<SpecTerm>, pos: nat) -> Parsed<SpecNode>
    decreases left(ts, pos), 3nat,
{
    if pos >= ts.len() {
        Err(SpecParseError::Eof { nonterm: Nonterm::If })
    } else {
        match level(ts, pos + 1, 0) {
            Err(e) => Err(e),
            Ok((condition, taken)) => {
                let then_at = pos + 1 + taken;
                if then_at < ts.len() && ts[then_at as int].1 is KwThen {
                    match level(ts, then_at + 1, 0) {
                        Err(e) => Err(e),
                        Ok((then, then_taken)) => {
                            let else_at = then_at + 1 + then_taken;
                            if else_at < ts.len() && ts[else_at as int].1 is KwElse {
                                match level(ts, else_at + 1, 0) {
                                    Err(e) => Err(e),
                                    Ok((el, else_taken)) => Ok(
                                        (
                                            if_node(ts[pos as int].0, condition, then, Some(el)),
                                            taken + then_taken + else_taken + 3,
                                        ),
                                    ),
                                }
                            } else {
                                Ok((if_node(ts[pos as int].0, condition, then, None), taken + then_taken + 2))
                            }
                        },
                    }
                } else {
                    Err(fail(ts, then_at, UnexpectedKind::Other, Nonterm::If))
                }
            },
        }
    }
}

/// `top_level`: the items of the whole input.
pub open spec fn top_level(ts: Seq<SpecTerm>) -> Result<Seq<SpecNode>, SpecParseError> {
    match items(ts, 0) {
        Err(e) => Err(e),
        Ok((nodes, taken)) => if taken < ts.len() {
            Err(SpecParseError::Unexpected { kind: UnexpectedKind::Root, nonterm: Nonterm::TopLevel, token: ts[taken as int] })
        } else {
            Ok(nodes)
        },
    }
}

} // verus!

verus! {

/// One round of `level k` on what the next level gave.
pub open spec fn apply_tail(ts: Seq<SpecTerm>, pos: nat, k: nat, acc: Parsed<SpecNode>) -> Parsed<SpecNode> {
    match acc {
        Err(e) => Err(e),
        Ok((lhs, taken)) => shift(taken, tail(ts, pos + taken, k, lhs)),
    }
}

/// The rounds of the levels from `k` down to `m` on `acc`.
pub open spec fn rounds(ts: Seq<SpecTerm>, pos: nat, k: int, m: nat, acc: Parsed<SpecNode>) -> Parsed<SpecNode>
    decreases k - m + 1,
{
    if k < m {
        acc
    } else {
        rounds(ts, pos, k - 1, m, apply_tail(ts, pos, k as nat, acc))
    }
}

/// A level is the rounds of all levels from the tightest down to it on a
/// compound expression.
pub proof fn lemma_level_is_rounds(ts: Seq<SpecTerm>, pos: nat, m: nat)
    requires
        m <= 2,
    ensures
        level(ts, pos, m) == rounds(ts, pos, 2, m, compound(ts, pos)),
{
    reveal_with_fuel(rounds, 5);
    reveal_with_fuel(level, 5);
}

/// An error goes through every round.
pub proof fn lemma_rounds_of_error(ts: Seq<SpecTerm>, pos: nat, k: int, m: nat, e: SpecParseError)
    requires
        k <= 2,
    ensures
        rounds(ts, pos, k, m, Err(e)) == Err::<(SpecNode, nat), SpecParseError>(e),
{
    reveal_with_fuel(rounds, 5);
}

/// Where no operator of a precedence from `m` to `k` follows, the rounds
/// change nothing.
pub proof fn lemma_rounds_idle(ts: Seq<SpecTerm>, pos: nat, k: int, m: nat, lhs: SpecNode, taken: nat)
    requires
        k <= 2,
        pos + taken < ts.len() ==> match precedence(ts[(pos + taken) as int].1) {
            Some(p) => p < m || p > k,
            None => true,
        },
    ensures
        rounds(ts, pos, k, m, Ok((lhs, taken))) == Ok::<(SpecNode, nat), SpecParseError>((lhs, taken)),
{
    reveal_with_fuel(rounds, 5);
}

/// Where an operator of precedence `p` follows, the rounds of the tighter
/// levels change nothing.
pub proof fn lemma_rounds_narrow(ts: Seq<SpecTerm>, pos: nat, k: int, m: nat, p: nat, lhs: SpecNode, taken: nat)
    requires
        m <= p <= k <= 2,
        pos + taken < ts.len(),
        precedence(ts[(pos + taken) as int].1) == Some(p),
    ensures
        rounds(ts, pos, k, m, Ok((lhs, taken))) == rounds(ts, pos, p as int, m, Ok((lhs, taken))),
{
    reveal_with_fuel(rounds, 5);
}

/// One operator and its right operand: the rounds on the left operand are
/// the rounds on the two joined.
pub proof fn lemma_rounds_step(
    ts: Seq<SpecTerm>,
    pos: nat,
    m: nat,
    p: nat,
    lhs: SpecNode,
    taken: nat,
    rhs: SpecNode,
    more: nat,
)
    requires
        m <= p <= 2,
        pos + taken < ts.len(),
        precedence(ts[(pos + taken) as int].1) == Some(p),
        level(ts, pos + taken + 1, p + 1) == Ok::<(SpecNode, nat), SpecParseError>((rhs, more)),
    ensures
        rounds(ts, pos, p as int, m, Ok((lhs, taken))) == rounds(
            ts,
            pos,
            p as int,
            m,
            Ok((binop_node(operator_kind(ts[(pos + taken) as int].1), lhs, rhs), taken + 1 + more)),
        ),
{
    let joined = binop_node(operator_kind(ts[(pos + taken) as int].1), lhs, rhs);
    let rest = tail(ts, pos + taken + 1 + more, p, joined);
    assert(tail(ts, pos + taken, p, lhs) == shift(1 + more, rest));
    assert(apply_tail(ts, pos, p, Ok((lhs, taken))) == shift(taken, shift(1 + more, rest)));
    assert(apply_tail(ts, pos, p, Ok((joined, taken + 1 + more))) == shift(taken + 1 + more, rest));
    assert(shift(taken, shift(1 + more, rest)) == shift(taken + 1 + more, rest));
}

/// Where the right operand fails, the whole fails with it.
pub proof fn lemma_rounds_fail(
    ts: Seq<SpecTerm>,
    pos: nat,
    m: nat,
    p: nat,
    lhs: SpecNode,
    taken: nat,
    e: SpecParseError,
)
    requires
        m <= p <= 2,
        pos + taken < ts.len(),
        precedence(ts[(pos + taken) as int].1) == Some(p),
        level(ts, pos + taken + 1, p + 1) == Err::<(SpecNode, nat), SpecParseError>(e),
    ensures
        rounds(ts, pos, p as int, m, Ok((lhs, taken))) == Err::<(SpecNode, nat), SpecParseError>(e),
{
    assert(tail(ts, pos + taken, p, lhs) == Err::<(SpecNode, nat), SpecParseError>(e));
    assert(apply_tail(ts, pos, p, Ok((lhs, taken))) == Err::<(SpecNode, nat), SpecParseError>(e));
    lemma_rounds_of_error(ts, pos, p - 1, m, e);
}

/// A list with nothing before it is itself.
pub proof fn lemma_prepend_nothing(r: Parsed<Seq<SpecNode>>)
    ensures
        prepend(Seq::empty(), 0, r) == r,
{
    match r {
        Ok((rest, taken)) => {
            assert(Seq::<SpecNode>::empty() + rest =~= rest);
        },
        Err(_) => {},
    }
}

/// To prepend twice is to prepend both at once.
pub proof fn lemma_prepend_twice(a: Seq<SpecNode>, n: nat, b: Seq<SpecNode>, k: nat, r: Parsed<Seq<SpecNode>>)
    ensures
        prepend(a, n, prepend(b, k, r)) == prepend(a + b, n + k, r),
{
    match r {
        Ok((rest, taken)) => {
            assert(a + (b + rest) =~= (a + b) + rest);
        },
        Err(_) => {},
    }
}

} // verus!

verus! {

/// Whether a rule that gave a value took at least one token and no more
/// than there are.
pub open spec fn advances<T>(ts: Seq<SpecTerm>, pos: nat, r: Parsed<T>) -> bool {
    match r {
        Ok((_, taken)) => 0 < taken && pos + taken <= ts.len(),
        Err(_) => true,
    }
}

/// Whether a rule that gave a value took no more tokens than there are.
pub open spec fn bounded<T>(ts: Seq<SpecTerm>, pos: nat, r: Parsed<T>) -> bool {
    match r {
        Ok((_, taken)) => pos + taken <= ts.len(),
        Err(_) => true,
    }
}

/// Every item takes at least one token, so that a list of items ends: the
/// case of an item that took none, which `items` provides for, never
/// arises.
pub proof fn lemma_items_bounded(ts: Seq<SpecTerm>, pos: nat)
    requires
        pos <= ts.len(),
    ensures
        bounded(ts, pos, items(ts, pos)),
    decreases left(ts, pos), 20nat,
{
    if pos >= ts.len() || !starts_item(ts[pos as int].1) {
    } else if ts[pos as int].1 is BlockCont {
        lemma_items_bounded(ts, pos + 1);
    } else {
        let item = if ts[pos as int].1 is KwLet {
            lemma_def_advances(ts, pos);
            def(ts, pos)
        } else {
            lemma_level_advances(ts, pos, 0);
            level(ts, pos, 0)
        };
        match item {
            Err(_) => {},
            Ok((node, taken)) => {
                lemma_items_bounded(ts, pos + taken);
            },
        }
    }
}

/// A definition takes at least one token.
pub proof fn lemma_def_advances(ts: Seq<SpecTerm>, pos: nat)
    requires
        pos <= ts.len(),
    ensures
        advances(ts, pos, def(ts, pos)),
    decreases left(ts, pos), 15nat,
{
    if pos + 1 < ts.len() && ts[(pos + 1) as int].1 is Ident {
        let names = params(ts, pos + 2);
        lemma_params_bounded(ts, pos + 2);
        let assign = pos + 2 + names.len();
        if assign < ts.len() && ts[assign as int].1 is Assign {
            lemma_level_advances(ts, assign + 1, 0);
        }
    }
}

/// The parameters are no more than the tokens that are left.
pub proof fn lemma_params_bounded(ts: Seq<SpecTerm>, pos: nat)
    requires
        pos <= ts.len(),
    ensures
        pos + params(ts, pos).len() <= ts.len(),
    decreases left(ts, pos),
{
    if pos < ts.len() {
        if ts[pos as int].1 is Ident {
            lemma_params_bounded(ts, pos + 1);
        }
    }
}

/// An expression of any level takes at least one token.
pub proof fn lemma_level_advances(ts: Seq<SpecTerm>, pos: nat, k: nat)
    requires
        pos <= ts.len(),
    ensures
        advances(ts, pos, level(ts, pos, k)),
    decreases left(ts, pos), (if k >= 3 { 6nat } else { (10 - k) as nat }),
{
    if k >= 3 {
        lemma_compound_advances(ts, pos);
    } else {
        lemma_level_advances(ts, pos, k + 1);
        match level(ts, pos, k + 1) {
            Err(_) => {},
            Ok((lhs, taken)) => {
                lemma_tail_bounded(ts, pos + taken, k, lhs);
            },
        }
    }
}

/// What follows an operand takes no more tokens than there are.
pub proof fn lemma_tail_bounded(ts: Seq<SpecTerm>, pos: nat, k: nat, lhs: SpecNode)
    requires
        pos <= ts.len(),
    ensures
        bounded(ts, pos, tail(ts, pos, k, lhs)),
    decreases left(ts, pos), 0nat,
{
    if pos < ts.len() && precedence(ts[pos as int].1) == Some(k) {
        lemma_level_advances(ts, pos + 1, k + 1);
        match level(ts, pos + 1, k + 1) {
            Err(_) => {},
            Ok((rhs, taken)) => {
                lemma_tail_bounded(
                    ts,
                    pos + 1 + taken,
                    k,
                    binop_node(operator_kind(ts[pos as int].1), lhs, rhs),
                );
            },
        }
    }
}

/// A compound expression takes at least one token.
pub proof fn lemma_compound_advances(ts: Seq<SpecTerm>, pos: nat)
    requires
        pos <= ts.len(),
    ensures
        advances(ts, pos, compound(ts, pos)),
    decreases left(ts, pos), 5nat,
{
    if pos < ts.len() {
        match ts[pos as int].1 {
            SpecToken::BlockStart => {
                lemma_items_bounded(ts, pos + 1);
            },
            SpecToken::Ident(name) => {
                lemma_args_bounded(ts, pos + 1);
            },
            SpecToken::KwIf => {
                lemma_conditional_advances(ts, pos);
            },
            SpecToken::LParen => {
                lemma_simple_advances(ts, pos);
            },
            SpecToken::Number(_) => {
                lemma_simple_advances(ts, pos);
            },
            _ => {},
        }
    }
}

/// Every argument takes at least one token, so that a list of arguments
/// ends: the case of an argument that took none, which `args` provides
/// for, never arises.
pub proof fn lemma_args_bounded(ts: Seq<SpecTerm>, pos: nat)
    requires
        pos <= ts.len(),
    ensures
        bounded(ts, pos, args(ts, pos)),
    decreases left(ts, pos), 4nat,
{
    if pos < ts.len() && starts_simple(ts[pos as int].1) {
        lemma_simple_advances(ts, pos);
        match simple(ts, pos) {
            Err(_) => {},
            Ok((node, taken)) => {
                lemma_args_bounded(ts, pos + taken);
            },
        }
    }
}

/// A simple expression takes at least one token.
pub proof fn lemma_simple_advances(ts: Seq<SpecTerm>, pos: nat)
    requires
        pos <= ts.len(),
    ensures
        advances(ts, pos, simple(ts, pos)),
    decreases left(ts, pos), 3nat,
{
    if pos < ts.len() {
        if ts[pos as int].1 is LParen {
            lemma_level_advances(ts, pos + 1, 0);
        }
    }
}

/// A conditional takes at least one token.
pub proof fn lemma_conditional_advances(ts: Seq<SpecTerm>, pos: nat)
    requires
        pos <= ts.len(),
    ensures
        advances(ts, pos, conditional(ts, pos)),
    decreases left(ts, pos), 3nat,
{
    if pos < ts.len() {
        lemma_level_advances(ts, pos + 1, 0);
        match level(ts, pos + 1, 0) {
            Err(_) => {},
            Ok((condition, taken)) => {
                let then_at = pos + 1 + taken;
                if then_at < ts.len() && ts[then_at as int].1 is KwThen {
                    lemma_level_advances(ts, then_at + 1, 0);
                    match level(ts, then_at + 1, 0) {
                        Err(_) => {},
                        Ok((then, then_taken)) => {
                            let else_at = then_at + 1 + then_taken;
                            if else_at < ts.len() && ts[else_at as int].1 is KwElse {
                                lemma_level_advances(ts, else_at + 1, 0);
                            }
                        },
                    }
                }
            },
        }
    }
}

/// A parse that succeeds has read every token.
pub proof fn lemma_top_level_reads_all(ts: Seq<SpecTerm>)
    ensures
        top_level(ts) is Ok ==> items(ts, 0) is Ok && items(ts, 0)->Ok_0.1 == ts.len(),
{
    lemma_items_bounded(ts, 0);
}

} // verus!

verus! {

/// The node of a number read at `span`.
pub open spec fn number_node(span: Span, bits: u64) -> SpecNode {
    SpecNode { span, expr: SpecAst::Number(bits) }
}

/// A number that no operator of precedence `k` or more follows is an
/// expression of level `k` by itself.
pub proof fn lemma_number_alone(ts: Seq<SpecTerm>, pos: nat, k: nat)
    requires
        pos < ts.len(),
        ts[pos as int].1 is Number,
        pos + 1 < ts.len() ==> match precedence(ts[(pos + 1) as int].1) {
            Some(p) => p < k,
            None => true,
        },
    ensures
        level(ts, pos, k) == Ok::<(SpecNode, nat), SpecParseError>(
            (number_node(ts[pos as int].0, ts[pos as int].1->Number_0), 1),
        ),
{
    let node = number_node(ts[pos as int].0, ts[pos as int].1->Number_0);
    assert(compound(ts, pos) == Ok::<(SpecNode, nat), SpecParseError>((node, 1)));
    if k < 3 {
        lemma_level_is_rounds(ts, pos, k);
        lemma_rounds_idle(ts, pos, 2, k, node, 1);
    }
}

/// Of two operators between three numbers, the one that binds tighter
/// groups first; where neither does, the left one groups first.
pub proof fn lemma_tighter_or_left_groups_first(
    a: (Span, u64),
    first: SpecTerm,
    b: (Span, u64),
    second: SpecTerm,
    c: (Span, u64),
)
    requires
        precedence(first.1) is Some,
        precedence(second.1) is Some,
    ensures
        ({
            let ts = seq![
                (a.0, SpecToken::Number(a.1)),
                first,
                (b.0, SpecToken::Number(b.1)),
                second,
                (c.0, SpecToken::Number(c.1)),
            ];
            let x = number_node(a.0, a.1);
            let y = number_node(b.0, b.1);
            let z = number_node(c.0, c.1);
            level(ts, 0, 0) == Ok::<(SpecNode, nat), SpecParseError>(
                (
                    if precedence(second.1)->0 > precedence(first.1)->0 {
                        binop_node(operator_kind(first.1), x, binop_node(operator_kind(second.1), y, z))
                    } else {
                        binop_node(operator_kind(second.1), binop_node(operator_kind(first.1), x, y), z)
                    },
                    5,
                ),
            )
        }),
{
    let ts = seq![
        (a.0, SpecToken::Number(a.1)),
        first,
        (b.0, SpecToken::Number(b.1)),
        second,
        (c.0, SpecToken::Number(c.1)),
    ];
    let x = number_node(a.0, a.1);
    let y = number_node(b.0, b.1);
    let z = number_node(c.0, c.1);
    let p = precedence(first.1)->0;
    let q = precedence(second.1)->0;
    assert(p <= 2 && q <= 2);
    assert(ts.len() == 5);
    assert(compound(ts, 0) == Ok::<(SpecNode, nat), SpecParseError>((x, 1)));
    lemma_level_is_rounds(ts, 0, 0);
    lemma_rounds_narrow(ts, 0, 2, 0, p, x, 1);
    lemma_number_alone(ts, 4, q + 1);
    if q > p {
        // The right operand of the first operator takes the second one in.
        let yz = binop_node(operator_kind(second.1), y, z);
        assert(compound(ts, 2) == Ok::<(SpecNode, nat), SpecParseError>((y, 1)));
        lemma_level_is_rounds(ts, 2, p + 1);
        lemma_rounds_narrow(ts, 2, 2, p + 1, q, y, 1);
        lemma_rounds_step(ts, 2, p + 1, q, y, 1, z, 1);
        lemma_rounds_idle(ts, 2, q as int, p + 1, yz, 3);
        assert(level(ts, 2, p + 1) == Ok::<(SpecNode, nat), SpecParseError>((yz, 3)));
        lemma_rounds_step(ts, 0, 0, p, x, 1, yz, 3);
        lemma_rounds_idle(ts, 0, p as int, 0, binop_node(operator_kind(first.1), x, yz), 5);
    } else {
        // The right operand of the first operator ends before the second.
        let xy = binop_node(operator_kind(first.1), x, y);
        lemma_number_alone(ts, 2, p + 1);
        lemma_rounds_step(ts, 0, 0, p, x, 1, y, 1);
        lemma_rounds_narrow(ts, 0, p as int, 0, q, xy, 3);
        lemma_rounds_step(ts, 0, 0, q, xy, 3, z, 1);
        lemma_rounds_idle(ts, 0, q as int, 0, binop_node(operator_kind(second.1), xy, z), 5);
    }
}

} // verus!
