//! How a conditional joins its branches, in general.
//!
//! The law at the end of this file holds of every conditional that is
//! generated to its end, whatever its parts are, in every state whose
//! module is sound: one whose instructions, jumps and edges speak of
//! blocks and instructions that exist. Every state that a generator comes
//! to is sound.

use vstd::prelude::*;
use crate::backend::analysis::VerdictView;
use crate::backend::basic_block::BasicBlock;
use crate::backend::builder::RealPredicate;
use crate::backend::module::{Incoming, InstView, OpView};
use crate::backend::types::Type;
use crate::backend::value::{AnyValue, Function, Phi};
use crate::compiler::laws::{lemma_bind_params_keeps_functions, lemma_gen_extends};
use crate::compiler::model::{
    arithmetic_of, begins_with, compile, float_const, gen, gen_all, module_extends, predicate_of,
    signature_of, CompilerView, HaltView, POSITIVE_INFINITY, ZERO,
};
use crate::compiler::shape::{fits, in_block, lemma_fits_back};
use crate::parser::ast::{SpecAst, SpecNode};

verus! {

/// Whether the instruction jumps, or may jump, to `block`.
pub open spec fn aims_at(op: OpView, block: BasicBlock) -> bool {
    match op {
        OpView::Br { dest } => dest == block,
        OpView::CondBr { cond, then_block, else_block } => then_block == block || else_block == block,
        _ => false,
    }
}

/// Whether every block that the instruction may jump to has a row number
/// from `low` up to, but not including, `high`.
pub open spec fn aims_within(op: OpView, low: int, high: int) -> bool {
    match op {
        OpView::Br { dest } => low <= dest.index < high,
        OpView::CondBr { cond, then_block, else_block } => low <= then_block.index < high && low
            <= else_block.index < high,
        _ => true,
    }
}

/// Whether the state speaks of what exists only: every instruction stands
/// in a block that exists, or in none, and jumps to blocks that exist;
/// every edge belongs to an instruction that exists; the builder stands in
/// a block that exists, or in none; and the tables are no longer than a
/// row number can say.
pub open spec fn sound(st: CompilerView) -> bool {
    &&& fits(st)
    &&& forall|row: int|
        0 <= row < st.module.insts.len() ==> aims_within(
            (#[trigger] st.module.insts[row]).op,
            0,
            st.module.blocks.len() as int,
        ) && match st.module.insts[row].block {
            Some(b) => b.index < st.module.blocks.len(),
            None => true,
        }
    &&& forall|e: int|
        0 <= e < st.module.incoming.len() ==> (#[trigger] st.module.incoming[e]).phi.index < st.module.insts.len()
    &&& match st.position {
        Some(b) => b.index < st.module.blocks.len(),
        None => true,
    }
}

/// How generation moves from one state to another:
///
/// - the module only grows;
/// - the builder stays where it stood or ends in a block that was appended
///   on the way;
/// - every instruction inserted on the way stands where the builder stood
///   at first or in a block appended on the way, or nowhere, and jumps only
///   to blocks appended on the way;
/// - every edge added on the way belongs to a phi node inserted on the way.
pub open spec fn moved(before: CompilerView, after: CompilerView) -> bool {
    &&& module_extends(after.module, before.module)
    &&& after.position == before.position || (after.position is Some && after.position->0.index
        >= before.module.blocks.len())
    &&& forall|row: int|
        before.module.insts.len() <= row < after.module.insts.len() ==> aims_within(
            (#[trigger] after.module.insts[row]).op,
            before.module.blocks.len() as int,
            after.module.blocks.len() as int,
        ) && match after.module.insts[row].block {
            Some(b) => before.position == Some(b) || b.index >= before.module.blocks.len(),
            None => true,
        }
    &&& forall|e: int|
        before.module.incoming.len() <= e < after.module.incoming.len() ==> (#[trigger] after.module.incoming[e]).phi.index
            >= before.module.insts.len()
}

/// A state has moved nowhere from itself.
pub proof fn lemma_moved_nowhere(st: CompilerView)
    ensures
        moved(st, st),
{
}

/// Moves compose.
pub proof fn lemma_moved_on(a: CompilerView, b: CompilerView, c: CompilerView)
    requires
        moved(a, b),
        moved(b, c),
    ensures
        moved(a, c),
{
    assert forall|row: int| a.module.insts.len() <= row < c.module.insts.len() implies aims_within(
        (#[trigger] c.module.insts[row]).op,
        a.module.blocks.len() as int,
        c.module.blocks.len() as int,
    ) && match c.module.insts[row].block {
        Some(x) => a.position == Some(x) || x.index >= a.module.blocks.len(),
        None => true,
    } by {
        if row < b.module.insts.len() {
            assert(b.module.insts[row] == c.module.insts[row]);
        }
    }
    assert forall|e: int| a.module.incoming.len() <= e < c.module.incoming.len() implies (#[trigger] c.module.incoming[e]).phi.index
        >= a.module.insts.len() by {
        if e < b.module.incoming.len() {
            assert(b.module.incoming[e] == c.module.incoming[e]);
        }
    }
}

/// One more instruction, inserted where the builder stands, that jumps
/// only to blocks appended since `from`, is a move from `from`; the builder
/// may go on to a block appended since.
pub proof fn lemma_moved_by_row(from: CompilerView, before: CompilerView, after: CompilerView)
    requires
        sound(before),
        moved(from, before),
        fits(after),
        module_extends(after.module, before.module),
        after.module.insts.len() == before.module.insts.len() + 1,
        after.module.incoming == before.module.incoming,
        after.module.insts[before.module.insts.len() as int].block == before.position,
        aims_within(
            after.module.insts[before.module.insts.len() as int].op,
            from.module.blocks.len() as int,
            after.module.blocks.len() as int,
        ),
        after.position == before.position || (after.position is Some && from.module.blocks.len()
            <= after.position->0.index < after.module.blocks.len()),
    ensures
        sound(after),
        moved(from, after),
{
    let added = before.module.insts.len() as int;
    assert forall|row: int| 0 <= row < after.module.insts.len() implies aims_within(
        (#[trigger] after.module.insts[row]).op,
        0,
        after.module.blocks.len() as int,
    ) && match after.module.insts[row].block {
        Some(b) => b.index < after.module.blocks.len(),
        None => true,
    } by {
        if row < added {
            assert(before.module.insts[row] == after.module.insts[row]);
        }
    }
    assert forall|row: int| from.module.insts.len() <= row < after.module.insts.len() implies aims_within(
        (#[trigger] after.module.insts[row]).op,
        from.module.blocks.len() as int,
        after.module.blocks.len() as int,
    ) && match after.module.insts[row].block {
        Some(x) => from.position == Some(x) || x.index >= from.module.blocks.len(),
        None => true,
    } by {
        if row < added {
            assert(before.module.insts[row] == after.module.insts[row]);
        }
    }
}

/// What `lemma_moved_by_row` says, of an instruction that jumps nowhere and
/// leaves the builder where it stands.
pub proof fn lemma_moved_by_emit(from: CompilerView, before: CompilerView, name: Option<Seq<char>>, op: OpView)
    requires
        sound(before),
        moved(from, before),
        fits(before.emit(name, op)),
        !(op is Br),
        !(op is CondBr),
    ensures
        sound(before.emit(name, op)),
        moved(from, before.emit(name, op)),
{
    lemma_moved_by_row(from, before, before.emit(name, op));
}

/// New blocks, and a builder that goes on to one of them, are a move.
pub proof fn lemma_moved_by_blocks(from: CompilerView, before: CompilerView, after: CompilerView)
    requires
        sound(before),
        moved(from, before),
        fits(after),
        module_extends(after.module, before.module),
        after.module.insts == before.module.insts,
        after.module.incoming == before.module.incoming,
        after.position == before.position || (after.position is Some && from.module.blocks.len()
            <= after.position->0.index < after.module.blocks.len()),
    ensures
        sound(after),
        moved(from, after),
{
}

/// New edges of a phi node inserted since `from` are a move from `from`.
pub proof fn lemma_moved_by_edges(
    from: CompilerView,
    before: CompilerView,
    phi: Phi,
    edges: Seq<(AnyValue, BasicBlock)>,
)
    requires
        sound(before),
        moved(from, before),
        from.module.insts.len() <= phi.index < before.module.insts.len(),
    ensures
        sound(CompilerView { module: before.module.add_incoming(phi, edges), ..before }),
        moved(from, CompilerView { module: before.module.add_incoming(phi, edges), ..before }),
{
    let after = CompilerView { module: before.module.add_incoming(phi, edges), ..before };
    assert(module_extends(after.module, before.module));
    assert forall|e: int| 0 <= e < after.module.incoming.len() implies (#[trigger] after.module.incoming[e]).phi.index
        < after.module.insts.len() by {
        if e < before.module.incoming.len() {
            assert(before.module.incoming[e] == after.module.incoming[e]);
        }
    }
    assert forall|e: int| from.module.incoming.len() <= e < after.module.incoming.len() implies (#[trigger] after.module.incoming[e]).phi.index
        >= from.module.insts.len() by {
        if e < before.module.incoming.len() {
            assert(before.module.incoming[e] == after.module.incoming[e]);
        }
    }
}

/// Generation leaves a sound state sound, and moves as `moved` says,
/// whatever is generated and however it ends.
pub proof fn lemma_gen_moves(st: CompilerView, node: SpecNode, verdicts: Seq<VerdictView>)
    requires
        sound(st),
        fits(gen(st, node, verdicts).0),
    ensures
        sound(gen(st, node, verdicts).0),
        moved(st, gen(st, node, verdicts).0),
    decreases node, 1nat,
{
    let last = gen(st, node, verdicts).0;
    lemma_moved_nowhere(st);
    match node.expr {
        SpecAst::Number(_) => {},
        SpecAst::Ref(_) => {},
        SpecAst::Variable { .. } => {},
        SpecAst::Block(exprs) => {
            lemma_gen_all_moves(st, exprs, exprs.len(), verdicts);
        },
        SpecAst::Call { name, args } => {
            let (s, values) = gen_all(st, args, args.len(), verdicts);
            assert(module_extends(last.module, s.module));
            lemma_fits_back(s, last);
            lemma_gen_all_moves(st, args, args.len(), verdicts);
            if values is Ok && s.defs.dom().contains(name) && s.defs[name].arity == values->Ok_0.len() {
                lemma_moved_by_emit(st, s, None, OpView::Call { callee: s.defs[name], args: values->Ok_0 });
            }
        },
        SpecAst::BinOp { kind, lhs, rhs } => {
            let (s1, l) = gen(st, *lhs, verdicts);
            if l is Err {
                lemma_gen_moves(st, *lhs, verdicts);
            } else {
                let (s2, r) = gen(s1, *rhs, verdicts);
                assert(module_extends(last.module, s2.module));
                lemma_fits_back(s2, last);
                lemma_gen_extends(s1, *rhs, verdicts);
                lemma_fits_back(s1, s2);
                lemma_gen_moves(st, *lhs, verdicts);
                lemma_gen_moves(s1, *rhs, verdicts);
                lemma_moved_on(st, s1, s2);
                if r is Ok {
                    match predicate_of(kind) {
                        Some(predicate) => {
                            let compare = OpView::FCmp { predicate, lhs: l->Ok_0, rhs: r->Ok_0 };
                            let compared = s2.emit(Some("cmptmp"@), compare);
                            assert(module_extends(last.module, compared.module));
                            lemma_fits_back(compared, last);
                            lemma_moved_by_emit(st, s2, Some("cmptmp"@), compare);
                            lemma_moved_by_emit(
                                st,
                                compared,
                                Some("booltmp"@),
                                OpView::UiToFp { value: s2.next_value(), ty: Type::F64 },
                            );
                        },
                        None => {
                            let (op, name) = arithmetic_of(kind);
                            lemma_moved_by_emit(
                                st,
                                s2,
                                Some(name),
                                OpView::Binary { kind: op, lhs: l->Ok_0, rhs: r->Ok_0 },
                            );
                        },
                    }
                }
            }
        },
        SpecAst::If { condition, then, el } => {
            lemma_if_moves(st, node, verdicts);
        },
        SpecAst::Function { name, params, body } => {
            let (opened, f) = st.open_function(name, params);
            let decl = signature_of(name, params);
            let declared = CompilerView { module: st.module.declare(decl), ..st };
            let n = if f.arity <= params.len() { f.arity as nat } else { params.len() };
            lemma_bind_params_keeps_functions(declared, f, params, n);
            let (s, value) = gen(opened, *body, verdicts);
            assert(module_extends(last.module, s.module));
            lemma_fits_back(s, last);
            lemma_gen_extends(opened, *body, verdicts);
            lemma_fits_back(opened, s);
            assert(module_extends(opened.module, st.module)) by {
                assert(begins_with(opened.module.blocks, st.module.blocks));
            }
            lemma_moved_by_blocks(st, st, opened);
            lemma_gen_moves(opened, *body, verdicts);
            lemma_moved_on(st, opened, s);
            if value is Ok {
                let ret = if name == "main"@ {
                    OpView::RetVoid
                } else {
                    OpView::Ret { value: value->Ok_0 }
                };
                let returned = s.emit(None, ret);
                assert(last.module == returned.module);
                assert(last.position == returned.position);
                lemma_moved_by_emit(st, s, None, ret);
                lemma_moved_by_blocks(st, returned, last);
            } else {
                lemma_moved_by_blocks(st, s, last);
            }
        },
    }
}

/// What `lemma_gen_moves` says of one expression, of a list.
pub proof fn lemma_gen_all_moves(st: CompilerView, nodes: Seq<SpecNode>, n: nat, verdicts: Seq<VerdictView>)
    requires
        sound(st),
        fits(gen_all(st, nodes, n, verdicts).0),
    ensures
        sound(gen_all(st, nodes, n, verdicts).0),
        moved(st, gen_all(st, nodes, n, verdicts).0),
    decreases nodes, n,
{
    lemma_moved_nowhere(st);
    if n == 0 || n > nodes.len() {
    } else {
        let (s1, before) = gen_all(st, nodes, (n - 1) as nat, verdicts);
        if before is Ok {
            let s2 = gen(s1, nodes[n - 1], verdicts).0;
            lemma_gen_extends(s1, nodes[n - 1], verdicts);
            lemma_fits_back(s1, s2);
            lemma_gen_all_moves(st, nodes, (n - 1) as nat, verdicts);
            lemma_gen_moves(s1, nodes[n - 1], verdicts);
            lemma_moved_on(st, s1, s2);
        } else {
            lemma_gen_all_moves(st, nodes, (n - 1) as nat, verdicts);
        }
    }
}

/// The states that generating a conditional goes through, as far as it
/// gets: after the condition, after the test, at the start of the first
/// branch, at its end, at the start of the second branch, at its end, and
/// in the merge block.
pub struct Stages {
    pub tested: CompilerView,
    pub opened: CompilerView,
    pub then_done: CompilerView,
    pub left: CompilerView,
    pub else_done: CompilerView,
    pub merged: CompilerView,
    pub then_value: AnyValue,
    pub else_value: AnyValue,
    pub then_end: BasicBlock,
    pub else_end: BasicBlock,
    pub merge: BasicBlock,
}

/// The stages of the conditional `node`, generated from `st`. They are
/// what the law on conditionals speaks of; they mean what their names say
/// where the conditional is generated to its end.
pub open spec fn stages(st: CompilerView, node: SpecNode, verdicts: Seq<VerdictView>) -> Stages {
    let condition = *node.expr->If_condition;
    let then = *node.expr->If_then;
    let el = node.expr->If_el;
    let (s1, c) = gen(st, condition, verdicts);
    let tested = s1.if_test(c->Ok_0);
    let from = s1.position->0;
    let (then_block, else_block, merge_block) = tested.if_blocks(from);
    let opened = tested.if_open(s1.next_value(), from);
    let (s2, t) = gen(opened, then, verdicts);
    let left = s2.if_leave(merge_block, else_block);
    let (s3, e) = match el {
        Some(el) => gen(left, *el, verdicts),
        None => (left, Ok(float_const(POSITIVE_INFINITY))),
    };
    Stages {
        tested,
        opened,
        then_done: s2,
        left,
        else_done: s3,
        merged: s3.if_leave(merge_block, merge_block),
        then_value: t->Ok_0,
        else_value: e->Ok_0,
        then_end: s2.position->0,
        else_end: s3.position->0,
        merge: merge_block,
    }
}

/// What `lemma_gen_moves` says, of a conditional; and, where the
/// conditional is generated to its end, how each of its stages has moved
/// from the one before.
pub proof fn lemma_if_moves(st: CompilerView, node: SpecNode, verdicts: Seq<VerdictView>)
    requires
        node.expr is If,
        sound(st),
        fits(gen(st, node, verdicts).0),
    ensures
        sound(gen(st, node, verdicts).0),
        moved(st, gen(st, node, verdicts).0),
        gen(st, node, verdicts).1 is Ok ==> ({
            let g = stages(st, node, verdicts);
            let s1 = gen(st, *node.expr->If_condition, verdicts).0;
            let n = s1.module.blocks.len() as int;
            &&& sound(s1) && s1.position is Some
            &&& g.tested.module.blocks.len() == n
            &&& g.opened.module.blocks.len() == n + 3
            &&& g.opened.position->0.index == n
            &&& g.merge.index == n + 2
            &&& g.left.position->0.index == n + 1
            &&& sound(g.opened) && sound(g.then_done) && sound(g.left) && sound(g.else_done) && sound(g.merged)
            &&& moved(g.opened, g.then_done)
            &&& moved(g.left, g.else_done)
            &&& g.then_done.position is Some && g.else_done.position is Some
            &&& gen(st, node, verdicts).0 == g.merged.if_join(g.then_value, g.then_end, g.else_value, g.else_end).0
            &&& gen(st, node, verdicts).1 == g.merged.if_join(g.then_value, g.then_end, g.else_value, g.else_end).1
        }),
    decreases node, 0nat,
{
    let condition = *node.expr->If_condition;
    let then = *node.expr->If_then;
    let el = node.expr->If_el;
    let last = gen(st, node, verdicts).0;
    lemma_gen_extends(st, node, verdicts);
    lemma_moved_nowhere(st);
    let (s1, c) = gen(st, condition, verdicts);
    lemma_gen_extends(st, condition, verdicts);
    if c is Err {
        lemma_gen_moves(st, condition, verdicts);
    } else {
        let test = OpView::FCmp { predicate: RealPredicate::ONE, lhs: c->Ok_0, rhs: float_const(ZERO) };
        let tested = s1.if_test(c->Ok_0);
        assert(module_extends(tested.module, s1.module));
        if s1.position is None {
            lemma_fits_back(s1, tested);
            lemma_gen_moves(st, condition, verdicts);
            lemma_moved_by_emit(st, s1, Some("ifcond"@), test);
        } else {
            let from = s1.position->0;
            let (then_block, else_block, merge_block) = tested.if_blocks(from);
            let opened = tested.if_open(s1.next_value(), from);
            let n = s1.module.blocks.len() as int;
            assert(module_extends(opened.module, tested.module)) by {
                assert(begins_with(opened.module.blocks, tested.module.blocks));
                assert(begins_with(opened.module.insts, tested.module.insts));
            }
            let (s2, t) = gen(opened, then, verdicts);
            lemma_gen_extends(opened, then, verdicts);
            if t is Err || s2.position is None {
                assert(last == s2);
                lemma_fits_back(opened, s2);
                lemma_fits_back(tested, opened);
                lemma_fits_back(s1, tested);
                lemma_gen_moves(st, condition, verdicts);
                lemma_moved_by_emit(st, s1, Some("ifcond"@), test);
                lemma_moved_by_row(st, tested, opened);
                lemma_gen_moves(opened, then, verdicts);
                lemma_moved_on(st, opened, s2);
            } else {
                let left = s2.if_leave(merge_block, else_block);
                assert(module_extends(left.module, s2.module));
                let (s3, e) = match el {
                    Some(el) => gen(left, *el, verdicts),
                    None => (left, Ok(float_const(POSITIVE_INFINITY))),
                };
                if el is Some {
                    lemma_gen_extends(left, *el->0, verdicts);
                }
                assert(module_extends(s3.module, left.module));
                if e is Err || s3.position is None {
                    assert(last == s3);
                    lemma_fits_back(left, s3);
                } else {
                    let merged = s3.if_leave(merge_block, merge_block);
                    let joined = merged.emit(Some("iftmp"@), OpView::Phi { ty: Type::F64 });
                    assert(last == merged.if_join(t->Ok_0, s2.position->0, e->Ok_0, s3.position->0).0);
                    assert(module_extends(last.module, joined.module));
                    assert(module_extends(joined.module, merged.module));
                    assert(module_extends(merged.module, s3.module));
                    lemma_fits_back(joined, last);
                    lemma_fits_back(merged, joined);
                    lemma_fits_back(s3, merged);
                    lemma_fits_back(left, s3);
                }
                lemma_fits_back(s2, left);
                lemma_fits_back(opened, s2);
                lemma_fits_back(tested, opened);
                lemma_fits_back(s1, tested);
                lemma_gen_moves(st, condition, verdicts);
                lemma_moved_by_emit(st, s1, Some("ifcond"@), test);
                lemma_moved_by_row(st, tested, opened);
                lemma_gen_moves(opened, then, verdicts);
                lemma_moved_on(st, opened, s2);
                assert(opened.module.blocks.len() == n + 3);
                assert(s2.module.blocks.len() >= n + 3);
                lemma_moved_by_row(st, s2, left);
                if el is Some {
                    lemma_gen_moves(left, *el->0, verdicts);
                    lemma_moved_on(st, left, s3);
                } else {
                    lemma_moved_nowhere(left);
                }
                if e is Ok && s3.position is Some {
                    let merged = s3.if_leave(merge_block, merge_block);
                    let joined = merged.emit(Some("iftmp"@), OpView::Phi { ty: Type::F64 });
                    let phi = Phi { index: merged.module.insts.len() as usize };
                    lemma_moved_by_row(st, s3, merged);
                    lemma_moved_by_emit(st, merged, Some("iftmp"@), OpView::Phi { ty: Type::F64 });
                    lemma_moved_by_edges(
                        st,
                        joined,
                        phi,
                        seq![(t->Ok_0, s2.position->0), (e->Ok_0, s3.position->0)],
                    );
                }
            }
        }
    }
}

/// Whether the row `last` is the last instruction of `block` and is a jump
/// to `dest`.
pub open spec fn ends_in_jump(st: CompilerView, block: BasicBlock, last: int, dest: BasicBlock) -> bool {
    &&& in_block(st.module, last, block)
    &&& st.module.insts[last].op == (OpView::Br { dest })
    &&& forall|row: int| #[trigger] in_block(st.module, row, block) ==> row <= last
}

/// Every conditional that is generated to its end, whatever its parts
/// are, joins its two branches in a well-formed phi node. With the stages
/// of the conditional as `stages` names them:
///
/// - the value of the conditional is the phi node, which is the last
///   instruction inserted, has the type of a float and the name `iftmp`;
/// - the builder ends in the merge block, and the phi node is the only
///   instruction there, hence the first;
/// - the phi node has exactly two edges, the last two of the table: the
///   value of the first branch from the block in which that branch ended,
///   and the value of the second branch from the block in which that one
///   ended; where there is no second branch, its value is positive
///   infinity;
/// - the two blocks differ, and the last instruction of each is the jump
///   to the merge block;
/// - no other instruction of the module jumps to the merge block: the two
///   blocks are its only predecessors.
pub proof fn lemma_conditional_joins(st: CompilerView, node: SpecNode, verdicts: Seq<VerdictView>)
    requires
        node.expr is If,
        sound(st),
        gen(st, node, verdicts).1 is Ok,
        fits(gen(st, node, verdicts).0),
    ensures
        ({
            let last = gen(st, node, verdicts).0;
            let g = stages(st, node, verdicts);
            let phi = g.merged.module.insts.len() as int;
            let then_jump = g.then_done.module.insts.len() as int;
            let else_jump = g.else_done.module.insts.len() as int;
            let edges = last.module.incoming;
            let older = g.merged.module.incoming.len() as int;
            &&& gen(st, node, verdicts).1 == Ok::<AnyValue, HaltView>(AnyValue::Inst(phi as usize))
            &&& last.module.insts.len() == phi + 1
            &&& last.module.insts[phi] == (InstView {
                block: Some(g.merge),
                name: Some("iftmp"@),
                op: OpView::Phi { ty: Type::F64 },
            })
            &&& last.position == Some(g.merge)
            &&& forall|row: int| in_block(last.module, row, g.merge) ==> row == phi
            &&& edges.len() == older + 2
            &&& edges[older] == (Incoming { phi: Phi { index: phi as usize }, value: g.then_value, block: g.then_end })
            &&& edges[older + 1] == (Incoming {
                phi: Phi { index: phi as usize },
                value: g.else_value,
                block: g.else_end,
            })
            &&& forall|e: int| 0 <= e < older ==> (#[trigger] edges[e]).phi.index != phi
            &&& node.expr->If_el is None ==> g.else_value == float_const(POSITIVE_INFINITY)
            &&& g.then_end != g.else_end
            &&& then_jump < else_jump < phi
            &&& ends_in_jump(last, g.then_end, then_jump, g.merge)
            &&& ends_in_jump(last, g.else_end, else_jump, g.merge)
            &&& forall|row: int|
                0 <= row < last.module.insts.len() && aims_at((#[trigger] last.module.insts[row]).op, g.merge) ==> row
                    == then_jump || row == else_jump
        }),
{
    lemma_if_moves(st, node, verdicts);
    let last = gen(st, node, verdicts).0;
    let g = stages(st, node, verdicts);
    let s1 = gen(st, *node.expr->If_condition, verdicts).0;
    let n = s1.module.blocks.len() as int;
    let phi = g.merged.module.insts.len() as int;
    let then_jump = g.then_done.module.insts.len() as int;
    let else_jump = g.else_done.module.insts.len() as int;
    let joined = g.merged.emit(Some("iftmp"@), OpView::Phi { ty: Type::F64 });
    let older = g.merged.module.incoming.len() as int;
    assert(last.module.insts == joined.module.insts);
    assert(last.module.insts.len() == phi + 1);
    assert(g.left.module.insts.len() == then_jump + 1);
    assert(g.merged.module.insts.len() == else_jump + 1);
    assert(g.opened.module.insts.len() == s1.module.insts.len() + 2);
    assert(module_extends(g.else_done.module, g.left.module));
    assert(module_extends(g.then_done.module, g.opened.module));
    assert(g.merge.index == n + 2);
    assert(g.then_end.index == n || g.then_end.index >= n + 3);
    assert(g.then_end.index < g.then_done.module.blocks.len());
    assert(g.left.module.blocks == g.then_done.module.blocks);
    assert(g.else_end.index == n + 1 || g.else_end.index >= g.then_done.module.blocks.len());

    // Where each row of the module stands and where it jumps to, by the
    // stage in which it was inserted.
    assert forall|row: int| 0 <= row < last.module.insts.len() implies {
        let inst = #[trigger] last.module.insts[row];
        &&& inst.block == Some(g.merge) ==> row == phi
        &&& aims_at(inst.op, g.merge) ==> row == then_jump || row == else_jump
        &&& inst.block == Some(g.then_end) ==> row <= then_jump
        &&& inst.block == Some(g.else_end) ==> row <= else_jump
    } by {
        let inst = last.module.insts[row];
        if row < s1.module.insts.len() {
            assert(inst == s1.module.insts[row]);
        } else if row < g.opened.module.insts.len() {
            assert(inst == g.opened.module.insts[row]);
            assert(inst.block == s1.position);
        } else if row < then_jump {
            assert(inst == g.then_done.module.insts[row]);
        } else if row == then_jump {
            assert(inst == g.left.module.insts[row]);
        } else if row < else_jump {
            assert(inst == g.else_done.module.insts[row]);
        } else if row == else_jump {
            assert(inst == g.merged.module.insts[row]);
        } else {
            assert(row == phi);
        }
    }
    assert(last.module.insts[then_jump] == g.left.module.insts[then_jump]);
    assert(last.module.insts[else_jump] == g.merged.module.insts[else_jump]);
    assert(ends_in_jump(last, g.then_end, then_jump, g.merge));
    assert(ends_in_jump(last, g.else_end, else_jump, g.merge));
    assert forall|e: int| 0 <= e < older implies (#[trigger] last.module.incoming[e]).phi.index != phi by {
        assert(last.module.incoming[e] == g.merged.module.incoming[e]);
    }
}

/// The state of a new generator is sound.
pub proof fn lemma_initial_is_sound()
    ensures
        sound(CompilerView::initial()),
{
}

/// A compilation leaves a sound state sound: every state that a generator
/// comes to, from its first, is sound, as long as its tables fit.
pub proof fn lemma_compile_is_sound(st: CompilerView, program: SpecNode, verdicts: Seq<VerdictView>)
    requires
        sound(st),
        fits(
            gen(CompilerView { answered: 0, compiled: false, ..st.init_std() }, program, verdicts).0,
        ),
    ensures
        sound(compile(st, program, verdicts).0),
{
    let started = CompilerView { answered: 0, compiled: false, ..st.init_std() };
    assert(sound(started)) by {
        assert forall|row: int| 0 <= row < started.module.insts.len() implies aims_within(
            (#[trigger] started.module.insts[row]).op,
            0,
            started.module.blocks.len() as int,
        ) && match started.module.insts[row].block {
            Some(b) => b.index < started.module.blocks.len(),
            None => true,
        } by {
            assert(started.module.insts[row] == st.module.insts[row]);
        }
    }
    lemma_gen_moves(started, program, verdicts);
    let last = compile(st, program, verdicts).0;
    if last.module != gen(started, program, verdicts).0.module {
        assert(last == st.abandoned());
    }
}

} // verus!
