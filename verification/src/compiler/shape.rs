//! The shape of the code that is generated for a function: its blocks and
//! how each of them ends.
//!
//! The laws here are about expressions that define no function and bind no
//! variable, generated while the builder stands in a block of a function.
//! For those, every block that is started is also finished: it gets one
//! terminator, as its last instruction.

use vstd::prelude::*;
use crate::backend::analysis::VerdictView;
use crate::backend::basic_block::BasicBlock;
use crate::backend::builder::RealPredicate;
use crate::backend::module::{ModuleView, OpView};
use crate::backend::types::Type;
use crate::backend::value::{AnyValue, Function, Phi};
use crate::compiler::error::ErrorKind;
use crate::compiler::laws::{lemma_bind_params_keeps_functions, lemma_gen_extends, lemma_open_function_extends};
use crate::compiler::model::{
    arithmetic_of, begins_with, compile, float_const, gen, gen_all, module_extends, predicate_of, signature_of,
    CompilerView, HaltView, Progress, POSITIVE_INFINITY, ZERO,
};
use crate::parser::ast::{SpecAst, SpecNode};

verus! {

/// Whether the instruction ends a block.
pub open spec fn is_terminator(op: OpView) -> bool {
    op is Br || op is CondBr || op is Ret || op is RetVoid
}

/// Whether the instruction in the given row was inserted into `block`.
pub open spec fn in_block(module: ModuleView, row: int, block: BasicBlock) -> bool {
    0 <= row < module.insts.len() && module.insts[row].block == Some(block)
}

/// Whether `block` can still take instructions: it holds no terminator.
pub open spec fn open_block(module: ModuleView, block: BasicBlock) -> bool {
    forall|row: int| #[trigger] in_block(module, row, block) ==> !is_terminator(module.insts[row].op)
}

/// Whether `block` ends in the row `last`: that instruction is its only
/// terminator, and every other instruction of the block comes before it.
pub open spec fn ends_at(module: ModuleView, block: BasicBlock, last: int) -> bool {
    &&& in_block(module, last, block)
    &&& is_terminator(module.insts[last].op)
    &&& forall|row: int| #[trigger]
        in_block(module, row, block) && row != last ==> row < last && !is_terminator(module.insts[row].op)
}

/// Whether `block` is finished: it ends in its one terminator.
pub open spec fn closed_block(module: ModuleView, block: BasicBlock) -> bool {
    exists|last: int| ends_at(module, block, last)
}

/// The block in the given row of the table of blocks, as a block of `f`.
pub open spec fn block_at(row: int, f: Function) -> BasicBlock {
    BasicBlock { index: row as usize, function: f }
}

/// Whether every instruction stands in a block that exists, every edge
/// belongs to an instruction that exists, and the tables are no longer than
/// a row number can say.
pub open spec fn valid(module: ModuleView) -> bool {
    &&& module.blocks.len() <= usize::MAX
    &&& module.insts.len() <= usize::MAX
    &&& forall|row: int|
        0 <= row < module.insts.len() ==> match (#[trigger] module.insts[row]).block {
            Some(b) => b.index < module.blocks.len(),
            None => true,
        }
    &&& forall|e: int| 0 <= e < module.incoming.len() ==> (#[trigger] module.incoming[e]).phi.index < module.insts.len()
}

/// Whether the expression defines no function and binds no variable.
pub open spec fn flat(node: SpecNode) -> bool
    decreases node,
{
    match node.expr {
        SpecAst::Number(_) => true,
        SpecAst::Ref(_) => true,
        SpecAst::Variable { .. } => false,
        SpecAst::Function { .. } => false,
        SpecAst::Block(exprs) => forall|i: int| 0 <= i < exprs.len() ==> flat(#[trigger] exprs[i]),
        SpecAst::Call { name, args } => forall|i: int| 0 <= i < args.len() ==> flat(#[trigger] args[i]),
        SpecAst::BinOp { kind, lhs, rhs } => flat(*lhs) && flat(*rhs),
        SpecAst::If { condition, then, el } => flat(*condition) && flat(*then) && match el {
            Some(e) => flat(*e),
            None => true,
        },
    }
}

/// Whether the state is ready to generate into `current`: the builder
/// stands there, the block exists and is open, and the module is valid.
pub open spec fn ready(st: CompilerView, current: BasicBlock) -> bool {
    &&& st.position == Some(current)
    &&& current.index < st.module.blocks.len()
    &&& valid(st.module)
    &&& open_block(st.module, current)
}

/// Whether `block` is a block of the function of `current` that was
/// appended on the way from `before` to `after` and is not set aside.
pub open spec fn started(
    before: CompilerView,
    current: BasicBlock,
    after: CompilerView,
    aside: Set<int>,
    block: BasicBlock,
) -> bool {
    &&& block.function == current.function
    &&& before.module.blocks.len() <= block.index < after.module.blocks.len()
    &&& !aside.contains(block.index as int)
}

/// How the state `after` has come from the state `before`, which was ready
/// to generate into `current`:
///
/// - the module has only grown, and is valid;
/// - the builder stands in `current` or in a block started on the way, and
///   that block is open;
/// - `current`, if the builder has left it, is closed;
/// - every instruction inserted on the way stands in `current` or in a
///   block started on the way;
/// - every block appended on the way belongs to the function of `current`,
///   and is closed, unless the builder stands in it or it is set aside: the
///   blocks in `aside` have been appended and hold nothing yet.
pub open spec fn stepped(before: CompilerView, current: BasicBlock, after: CompilerView, aside: Set<int>) -> bool {
    &&& module_extends(after.module, before.module)
    &&& valid(after.module)
    &&& after.position is Some
    &&& after.position->0 == current || started(before, current, after, aside, after.position->0)
    &&& open_block(after.module, after.position->0)
    &&& after.position->0 != current ==> closed_block(after.module, current)
    &&& forall|row: int|
        before.module.insts.len() <= row < after.module.insts.len() ==> match (#[trigger] after.module.insts[row]).block {
            Some(b) => b == current || started(before, current, after, aside, b),
            None => false,
        }
    &&& forall|j: int|
        before.module.blocks.len() <= j < after.module.blocks.len() ==> (#[trigger] after.module.blocks[j]).function
            == current.function && (block_at(j, current.function) == after.position->0 || aside.contains(j)
            || closed_block(after.module, block_at(j, current.function)))
    &&& forall|j: int| #[trigger] aside.contains(j) ==> before.module.blocks.len() <= j < after.module.blocks.len()
}

/// A block that gets no new instruction stays as it is: open if it was
/// open, closed if it was closed.
pub proof fn lemma_untouched_block(before: ModuleView, after: ModuleView, block: BasicBlock)
    requires
        module_extends(after, before),
        forall|row: int| before.insts.len() <= row < after.insts.len() ==> (#[trigger] after.insts[row]).block != Some(block),
    ensures
        open_block(before, block) ==> open_block(after, block),
        closed_block(before, block) ==> closed_block(after, block),
        forall|row: int| in_block(after, row, block) ==> in_block(before, row, block),
{
    assert forall|row: int| in_block(after, row, block) implies in_block(before, row, block) by {
        if row >= before.insts.len() {
            assert(after.insts[row].block != Some(block));
        }
        assert(before.insts[row] == after.insts[row]);
    }
    if open_block(before, block) {
        assert forall|row: int| #[trigger] in_block(after, row, block) implies !is_terminator(
            after.insts[row].op,
        ) by {
            assert(in_block(before, row, block));
            assert(before.insts[row] == after.insts[row]);
        }
    }
    if closed_block(before, block) {
        let last = choose|last: int| ends_at(before, block, last);
        assert(before.insts[last] == after.insts[last]);
        assert forall|row: int| #[trigger] in_block(after, row, block) && row != last implies row < last
            && !is_terminator(after.insts[row].op) by {
            assert(in_block(before, row, block));
            assert(before.insts[row] == after.insts[row]);
        }
        assert(ends_at(after, block, last));
    }
}

/// A state that is ready has stepped nowhere yet.
pub proof fn lemma_stepped_nowhere(st: CompilerView, current: BasicBlock)
    requires
        ready(st, current),
    ensures
        stepped(st, current, st, Set::empty()),
{
}

/// Where the builder stands after some steps, it is ready again.
pub proof fn lemma_stepped_is_ready(before: CompilerView, current: BasicBlock, after: CompilerView, aside: Set<int>)
    requires
        ready(before, current),
        stepped(before, current, after, aside),
    ensures
        ready(after, after.position->0),
        after.position->0.function == current.function,
{
}

/// A block that is set aside holds no instruction.
pub proof fn lemma_aside_is_empty(
    before: CompilerView,
    current: BasicBlock,
    after: CompilerView,
    aside: Set<int>,
    j: int,
)
    requires
        ready(before, current),
        stepped(before, current, after, aside),
        aside.contains(j),
    ensures
        forall|row: int| !in_block(after.module, row, block_at(j, current.function)),
{
    let block = block_at(j, current.function);
    assert forall|row: int| !in_block(after.module, row, block) by {
        if in_block(after.module, row, block) {
            if row < before.module.insts.len() {
                assert(before.module.insts[row] == after.module.insts[row]);
            } else {
                assert(after.module.insts[row].block == Some(block));
            }
        }
    }
}

/// An instruction that is no terminator, inserted where the builder
/// stands, is one more step.
pub proof fn lemma_step_emit(
    before: CompilerView,
    current: BasicBlock,
    mid: CompilerView,
    aside: Set<int>,
    name: Option<Seq<char>>,
    op: OpView,
)
    requires
        ready(before, current),
        stepped(before, current, mid, aside),
        !is_terminator(op),
        mid.module.insts.len() < usize::MAX,
    ensures
        stepped(before, current, mid.emit(name, op), aside),
{
    let after = mid.emit(name, op);
    let end = mid.position->0;
    let added = mid.module.insts.len() as int;
    assert(after.module.insts[added].block == Some(end));
    assert(module_extends(after.module, mid.module));
    assert forall|block: BasicBlock| block != end && closed_block(mid.module, block) implies closed_block(
        after.module,
        block,
    ) by {
        lemma_untouched_block(mid.module, after.module, block);
    }
    assert forall|j: int|
        before.module.blocks.len() <= j < after.module.blocks.len() implies (#[trigger] after.module.blocks[j]).function
        == current.function && (block_at(j, current.function) == after.position->0 || aside.contains(j)
        || closed_block(after.module, block_at(j, current.function))) by {
        assert(mid.module.blocks[j] == after.module.blocks[j]);
    }
    assert forall|row: int| #[trigger] in_block(after.module, row, end) implies !is_terminator(
        after.module.insts[row].op,
    ) by {
        if row < added {
            assert(in_block(mid.module, row, end));
        }
    }
    assert forall|row: int|
        before.module.insts.len() <= row < after.module.insts.len() implies match (#[trigger] after.module.insts[row]).block {
        Some(b) => b == current || started(before, current, after, aside, b),
        None => false,
    } by {
        if row < added {
            assert(mid.module.insts[row] == after.module.insts[row]);
        }
    }
    assert forall|row: int| 0 <= row < after.module.insts.len() implies match (#[trigger] after.module.insts[row]).block {
        Some(b) => b.index < after.module.blocks.len(),
        None => true,
    } by {
        if row < added {
            assert(mid.module.insts[row] == after.module.insts[row]);
        }
    }
}

/// Steps from where earlier steps ended are steps from where those
/// started. What was set aside by the earlier ones stays aside.
pub proof fn lemma_step_on(
    before: CompilerView,
    current: BasicBlock,
    mid: CompilerView,
    aside: Set<int>,
    after: CompilerView,
)
    requires
        ready(before, current),
        stepped(before, current, mid, aside),
        stepped(mid, mid.position->0, after, Set::empty()),
    ensures
        stepped(before, current, after, aside),
{
    let from = mid.position->0;
    let end = after.position->0;
    assert(from.function == current.function);
    assert forall|block: BasicBlock|
        block != from && block.index < mid.module.blocks.len() && #[trigger] closed_block(mid.module, block) implies closed_block(
        after.module,
        block,
    ) by {
        assert forall|row: int| mid.module.insts.len() <= row < after.module.insts.len() implies (#[trigger] after.module.insts[row]).block
            != Some(block) by {
            let b = after.module.insts[row].block->0;
            if b != from {
                assert(started(mid, from, after, Set::empty(), b));
            }
        }
        lemma_untouched_block(mid.module, after.module, block);
    }
    assert forall|row: int|
        before.module.insts.len() <= row < after.module.insts.len() implies match (#[trigger] after.module.insts[row]).block {
        Some(b) => b == current || started(before, current, after, aside, b),
        None => false,
    } by {
        if row < mid.module.insts.len() {
            assert(mid.module.insts[row] == after.module.insts[row]);
        }
    }
    assert forall|j: int|
        before.module.blocks.len() <= j < after.module.blocks.len() implies (#[trigger] after.module.blocks[j]).function
        == current.function && (block_at(j, current.function) == end || aside.contains(j) || closed_block(
        after.module,
        block_at(j, current.function),
    )) by {
        let block = block_at(j, current.function);
        if j < mid.module.blocks.len() {
            assert(mid.module.blocks[j] == after.module.blocks[j]);
            if block == from {
            } else if aside.contains(j) {
            } else {
                assert(closed_block(mid.module, block));
                assert(block.index < mid.module.blocks.len());
                assert(closed_block(after.module, block));
            }
        } else {
            assert(after.module.blocks[j].function == from.function);
        }
    }
    if end != current {
        if from != current {
            assert(closed_block(mid.module, current));
            assert(closed_block(after.module, current));
        }
    }
}

/// To open a conditional is a step: the block the builder stood in is
/// closed by the branch, the builder stands in the first of three new
/// blocks, and the other two are set aside.
pub proof fn lemma_step_if_open(
    before: CompilerView,
    current: BasicBlock,
    mid: CompilerView,
    aside: Set<int>,
    test: AnyValue,
)
    requires
        ready(before, current),
        stepped(before, current, mid, aside),
        mid.module.blocks.len() + 3 <= usize::MAX,
        mid.module.insts.len() < usize::MAX,
    ensures
        ({
            let from = mid.position->0;
            let n = mid.module.blocks.len() as int;
            let f = current.function;
            let opened = mid.if_open(test, from);
            &&& mid.if_blocks(from) == (block_at(n, f), block_at(n + 1, f), block_at(n + 2, f))
            &&& opened.position == Some(block_at(n, f))
            &&& opened.module.blocks.len() == n + 3
            &&& stepped(before, current, opened, aside.insert(n + 1).insert(n + 2))
        }),
{
    let from = mid.position->0;
    let n = mid.module.blocks.len() as int;
    let f = current.function;
    let opened = mid.if_open(test, from);
    let wider = aside.insert(n + 1).insert(n + 2);
    let added = mid.module.insts.len() as int;
    assert(from.function == f);
    assert(opened.module.insts[added].block == Some(from));
    assert(is_terminator(opened.module.insts[added].op));
    assert(begins_with(opened.module.blocks, mid.module.blocks));
    assert(begins_with(opened.module.insts, mid.module.insts));
    assert(module_extends(opened.module, mid.module));
    assert forall|row: int| 0 <= row < opened.module.insts.len() implies match (#[trigger] opened.module.insts[row]).block {
        Some(b) => b.index < opened.module.blocks.len(),
        None => true,
    } by {
        if row < added {
            assert(mid.module.insts[row] == opened.module.insts[row]);
        }
    }
    // The block that the builder has left ends in the branch.
    assert(ends_at(opened.module, from, added)) by {
        assert forall|row: int| #[trigger] in_block(opened.module, row, from) && row != added implies row < added
            && !is_terminator(opened.module.insts[row].op) by {
            assert(in_block(mid.module, row, from));
        }
    }
    assert forall|block: BasicBlock| block != from && closed_block(mid.module, block) implies closed_block(
        opened.module,
        block,
    ) by {
        lemma_untouched_block(mid.module, opened.module, block);
    }
    // The block that the builder has entered holds nothing.
    assert forall|row: int| #[trigger] in_block(opened.module, row, block_at(n, f)) implies !is_terminator(
        opened.module.insts[row].op,
    ) by {
        if row < added {
            assert(mid.module.insts[row] == opened.module.insts[row]);
        }
    }
    assert forall|row: int|
        before.module.insts.len() <= row < opened.module.insts.len() implies match (#[trigger] opened.module.insts[row]).block {
        Some(b) => b == current || started(before, current, opened, wider, b),
        None => false,
    } by {
        if row < added {
            assert(mid.module.insts[row] == opened.module.insts[row]);
        }
    }
    assert forall|j: int|
        before.module.blocks.len() <= j < opened.module.blocks.len() implies (#[trigger] opened.module.blocks[j]).function
        == f && (block_at(j, f) == opened.position->0 || wider.contains(j) || closed_block(
        opened.module,
        block_at(j, f),
    )) by {
        if j < n {
            assert(mid.module.blocks[j] == opened.module.blocks[j]);
        }
    }
}

/// To leave a branch of a conditional for a block that was set aside is a
/// step: the block the builder stood in is closed by the jump, and the
/// builder stands in the other block, which is set aside no longer.
pub proof fn lemma_step_if_leave(
    before: CompilerView,
    current: BasicBlock,
    mid: CompilerView,
    aside: Set<int>,
    dest: BasicBlock,
    next: int,
)
    requires
        ready(before, current),
        stepped(before, current, mid, aside),
        aside.contains(next),
        mid.module.insts.len() < usize::MAX,
    ensures
        stepped(
            before,
            current,
            mid.if_leave(dest, block_at(next, current.function)),
            aside.remove(next),
        ),
{
    let f = current.function;
    let from = mid.position->0;
    let to = block_at(next, f);
    let after = mid.if_leave(dest, to);
    let fewer = aside.remove(next);
    let added = mid.module.insts.len() as int;
    assert(from.function == f);
    assert(after.module.insts[added].block == Some(from));
    assert(is_terminator(after.module.insts[added].op));
    assert(module_extends(after.module, mid.module));
    lemma_aside_is_empty(before, current, mid, aside, next);
    assert(from != to);
    assert forall|row: int| 0 <= row < after.module.insts.len() implies match (#[trigger] after.module.insts[row]).block {
        Some(b) => b.index < after.module.blocks.len(),
        None => true,
    } by {
        if row < added {
            assert(mid.module.insts[row] == after.module.insts[row]);
        }
    }
    assert(ends_at(after.module, from, added)) by {
        assert forall|row: int| #[trigger] in_block(after.module, row, from) && row != added implies row < added
            && !is_terminator(after.module.insts[row].op) by {
            assert(in_block(mid.module, row, from));
        }
    }
    assert forall|block: BasicBlock| block != from && closed_block(mid.module, block) implies closed_block(
        after.module,
        block,
    ) by {
        lemma_untouched_block(mid.module, after.module, block);
    }
    assert forall|row: int| #[trigger] in_block(after.module, row, to) implies !is_terminator(
        after.module.insts[row].op,
    ) by {
        if row < added {
            assert(in_block(mid.module, row, to));
        }
    }
    assert forall|row: int|
        before.module.insts.len() <= row < after.module.insts.len() implies match (#[trigger] after.module.insts[row]).block {
        Some(b) => b == current || started(before, current, after, fewer, b),
        None => false,
    } by {
        if row < added {
            assert(mid.module.insts[row] == after.module.insts[row]);
            let b = mid.module.insts[row].block->0;
            if b != current {
                assert(started(before, current, mid, aside, b));
            }
        }
    }
    assert forall|j: int|
        before.module.blocks.len() <= j < after.module.blocks.len() implies (#[trigger] after.module.blocks[j]).function
        == f && (block_at(j, f) == after.position->0 || fewer.contains(j) || closed_block(
        after.module,
        block_at(j, f),
    )) by {
        assert(mid.module.blocks[j] == after.module.blocks[j]);
    }
}

/// Whether the tables of the state are no longer than a row number can
/// say.
pub open spec fn fits(st: CompilerView) -> bool {
    st.module.blocks.len() <= usize::MAX && st.module.insts.len() <= usize::MAX
}

/// New edges of a phi node that exists are a step that moves nothing.
pub proof fn lemma_step_edges(
    before: CompilerView,
    current: BasicBlock,
    mid: CompilerView,
    aside: Set<int>,
    phi: Phi,
    edges: Seq<(AnyValue, BasicBlock)>,
)
    requires
        ready(before, current),
        stepped(before, current, mid, aside),
        phi.index < mid.module.insts.len(),
    ensures
        stepped(before, current, CompilerView { module: mid.module.add_incoming(phi, edges), ..mid }, aside),
{
    let after = CompilerView { module: mid.module.add_incoming(phi, edges), ..mid };
    assert(module_extends(after.module, mid.module));
    assert forall|block: BasicBlock| true implies (open_block(mid.module, block) ==> open_block(
        after.module,
        block,
    )) && (#[trigger] closed_block(mid.module, block) ==> closed_block(after.module, block)) by {
        lemma_untouched_block(mid.module, after.module, block);
    }
    lemma_untouched_block(mid.module, after.module, mid.position->0);
    assert forall|j: int|
        before.module.blocks.len() <= j < after.module.blocks.len() implies (#[trigger] after.module.blocks[j]).function
        == current.function && (block_at(j, current.function) == after.position->0 || aside.contains(j)
        || closed_block(after.module, block_at(j, current.function))) by {
        assert(mid.module.blocks[j] == after.module.blocks[j]);
    }
    assert forall|row: int|
        before.module.insts.len() <= row < after.module.insts.len() implies match (#[trigger] after.module.insts[row]).block {
        Some(b) => b == current || started(before, current, after, aside, b),
        None => false,
    } by {
        assert(mid.module.insts[row] == after.module.insts[row]);
    }
    assert forall|e: int| 0 <= e < after.module.incoming.len() implies (#[trigger] after.module.incoming[e]).phi.index
        < after.module.insts.len() by {
        if e < mid.module.incoming.len() {
            assert(mid.module.incoming[e] == after.module.incoming[e]);
        }
    }
}

/// What has grown out of what has grown out of a module has grown out of
/// that module.
pub proof fn lemma_module_extends_on(a: ModuleView, b: ModuleView, c: ModuleView)
    requires
        module_extends(b, a),
        module_extends(c, b),
    ensures
        module_extends(c, a),
{
}

/// Tables that have grown to a length that fits were never longer.
pub proof fn lemma_fits_back(earlier: CompilerView, later: CompilerView)
    requires
        module_extends(later.module, earlier.module),
        fits(later),
    ensures
        fits(earlier),
{
}

/// Generating an expression that defines no function and binds no
/// variable, in a state that is ready, is a number of steps: the builder
/// ends in an open block, and every block that it has left, or that was
/// started on the way, is closed.
pub proof fn lemma_flat_gen_steps(st: CompilerView, node: SpecNode, verdicts: Seq<VerdictView>, current: BasicBlock)
    requires
        ready(st, current),
        flat(node),
        gen(st, node, verdicts).1 is Ok,
        fits(gen(st, node, verdicts).0),
    ensures
        stepped(st, current, gen(st, node, verdicts).0, Set::empty()),
    decreases node, 0nat,
{
    let none = Set::<int>::empty();
    lemma_stepped_nowhere(st, current);
    match node.expr {
        SpecAst::Number(_) => {},
        SpecAst::Ref(_) => {},
        SpecAst::Variable { .. } => {},
        SpecAst::Function { .. } => {},
        SpecAst::Block(exprs) => {
            lemma_flat_gen_all_steps(st, exprs, exprs.len(), verdicts, current);
        },
        SpecAst::Call { name, args } => {
            let (s, values) = gen_all(st, args, args.len(), verdicts);
            let last = gen(st, node, verdicts).0;
            assert(module_extends(last.module, s.module));
            lemma_fits_back(s, last);
            lemma_flat_gen_all_steps(st, args, args.len(), verdicts, current);
            lemma_step_emit(st, current, s, none, None, OpView::Call { callee: s.defs[name], args: values->Ok_0 });
        },
        SpecAst::BinOp { kind, lhs, rhs } => {
            let (s1, l) = gen(st, *lhs, verdicts);
            let (s2, r) = gen(s1, *rhs, verdicts);
            let last = gen(st, node, verdicts).0;
            assert(module_extends(last.module, s2.module));
            lemma_fits_back(s2, last);
            lemma_gen_extends(s1, *rhs, verdicts);
            lemma_fits_back(s1, s2);
            lemma_flat_gen_steps(st, *lhs, verdicts, current);
            lemma_stepped_is_ready(st, current, s1, none);
            lemma_flat_gen_steps(s1, *rhs, verdicts, s1.position->0);
            lemma_step_on(st, current, s1, none, s2);
            match predicate_of(kind) {
                Some(predicate) => {
                    let compared = s2.emit(
                        Some("cmptmp"@),
                        OpView::FCmp { predicate, lhs: l->Ok_0, rhs: r->Ok_0 },
                    );
                    lemma_step_emit(
                        st,
                        current,
                        s2,
                        none,
                        Some("cmptmp"@),
                        OpView::FCmp { predicate, lhs: l->Ok_0, rhs: r->Ok_0 },
                    );
                    lemma_step_emit(
                        st,
                        current,
                        compared,
                        none,
                        Some("booltmp"@),
                        OpView::UiToFp { value: s2.next_value(), ty: Type::F64 },
                    );
                },
                None => {
                    let (op, name) = arithmetic_of(kind);
                    lemma_step_emit(
                        st,
                        current,
                        s2,
                        none,
                        Some(name),
                        OpView::Binary { kind: op, lhs: l->Ok_0, rhs: r->Ok_0 },
                    );
                },
            }
        },
        SpecAst::If { condition, then, el } => {
            let (s1, c) = gen(st, *condition, verdicts);
            let tested = s1.if_test(c->Ok_0);
            let from = s1.position->0;
            let (then_block, else_block, merge_block) = tested.if_blocks(from);
            let opened = tested.if_open(s1.next_value(), from);
            let (s2, t) = gen(opened, *then, verdicts);
            let left = s2.if_leave(merge_block, else_block);
            let (s3, e) = match el {
                Some(el) => gen(left, *el, verdicts),
                None => (left, Ok(float_const(POSITIVE_INFINITY))),
            };
            let merged = s3.if_leave(merge_block, merge_block);
            let last = gen(st, node, verdicts).0;
            let phi = Phi { index: merged.module.insts.len() as usize };
            let joined = merged.emit(Some("iftmp"@), OpView::Phi { ty: Type::F64 });
            assert(last == merged.if_join(t->Ok_0, s2.position->0, e->Ok_0, s3.position->0).0);
            // Nothing on the way was longer than the tables are in the end.
            assert(module_extends(last.module, joined.module));
            assert(module_extends(joined.module, merged.module));
            assert(module_extends(merged.module, s3.module));
            if el is Some {
                lemma_gen_extends(left, *el->0, verdicts);
            }
            assert(module_extends(left.module, s2.module));
            lemma_gen_extends(opened, *then, verdicts);
            assert(module_extends(opened.module, tested.module)) by {
                assert(begins_with(opened.module.blocks, tested.module.blocks));
                assert(begins_with(opened.module.insts, tested.module.insts));
            }
            assert(module_extends(tested.module, s1.module));
            lemma_fits_back(joined, last);
            lemma_fits_back(merged, joined);
            lemma_fits_back(s3, merged);
            lemma_fits_back(left, s3);
            lemma_fits_back(s2, left);
            lemma_fits_back(opened, s2);
            lemma_fits_back(tested, opened);
            lemma_fits_back(s1, tested);

            lemma_flat_gen_steps(st, *condition, verdicts, current);
            lemma_stepped_is_ready(st, current, s1, none);
            lemma_step_emit(
                st,
                current,
                s1,
                none,
                Some("ifcond"@),
                OpView::FCmp {
                    predicate: RealPredicate::ONE,
                    lhs: c->Ok_0,
                    rhs: float_const(ZERO),
                },
            );
            assert(tested.position == s1.position);
            let n = tested.module.blocks.len() as int;
            let f = current.function;
            lemma_step_if_open(st, current, tested, none, s1.next_value());
            let pending = none.insert(n + 1).insert(n + 2);
            assert(stepped(st, current, opened, pending));
            lemma_stepped_is_ready(st, current, opened, pending);
            lemma_flat_gen_steps(opened, *then, verdicts, opened.position->0);
            lemma_step_on(st, current, opened, pending, s2);
            lemma_step_if_leave(st, current, s2, pending, merge_block, n + 1);
            assert(else_block == block_at(n + 1, f));
            let waiting = pending.remove(n + 1);
            assert(stepped(st, current, left, waiting));
            lemma_stepped_is_ready(st, current, left, waiting);
            if el is Some {
                lemma_flat_gen_steps(left, *el->0, verdicts, left.position->0);
                lemma_step_on(st, current, left, waiting, s3);
            }
            assert(stepped(st, current, s3, waiting));
            lemma_step_if_leave(st, current, s3, waiting, merge_block, n + 2);
            assert(merge_block == block_at(n + 2, f));
            assert(waiting.remove(n + 2) =~= none);
            assert(stepped(st, current, merged, none));
            lemma_step_emit(
                st,
                current,
                merged,
                none,
                Some("iftmp"@),
                OpView::Phi { ty: Type::F64 },
            );
            lemma_step_edges(
                st,
                current,
                joined,
                none,
                phi,
                seq![(t->Ok_0, s2.position->0), (e->Ok_0, s3.position->0)],
            );
        },
    }
}

/// What `lemma_flat_gen_steps` says of one expression, of a list.
pub proof fn lemma_flat_gen_all_steps(
    st: CompilerView,
    nodes: Seq<SpecNode>,
    n: nat,
    verdicts: Seq<VerdictView>,
    current: BasicBlock,
)
    requires
        ready(st, current),
        n <= nodes.len(),
        forall|i: int| 0 <= i < n ==> flat(#[trigger] nodes[i]),
        gen_all(st, nodes, n, verdicts).1 is Ok,
        fits(gen_all(st, nodes, n, verdicts).0),
    ensures
        stepped(st, current, gen_all(st, nodes, n, verdicts).0, Set::empty()),
    decreases nodes, n,
{
    let none = Set::<int>::empty();
    lemma_stepped_nowhere(st, current);
    if n > 0 {
        let (s1, before) = gen_all(st, nodes, (n - 1) as nat, verdicts);
        let (s2, value) = gen(s1, nodes[n - 1], verdicts);
        lemma_gen_extends(s1, nodes[n - 1], verdicts);
        lemma_fits_back(s1, s2);
        lemma_flat_gen_all_steps(st, nodes, (n - 1) as nat, verdicts, current);
        lemma_stepped_is_ready(st, current, s1, none);
        lemma_flat_gen_steps(s1, nodes[n - 1], verdicts, s1.position->0);
        lemma_step_on(st, current, s1, none, s2);
    }
}

/// An expression that defines no function and binds no variable, generated
/// while the builder stands in a block, is supported: only a binding
/// without parameters, or a conditional outside every function, is not.
pub proof fn lemma_flat_is_supported(st: CompilerView, node: SpecNode, verdicts: Seq<VerdictView>)
    requires
        flat(node),
        st.position is Some,
    ensures
        !(gen(st, node, verdicts).1 matches Err(HaltView::Unsupported(_))),
        gen(st, node, verdicts).0.position is Some,
    decreases node, 0nat,
{
    lemma_gen_extends(st, node, verdicts);
    match node.expr {
        SpecAst::Number(_) => {},
        SpecAst::Ref(_) => {},
        SpecAst::Variable { .. } => {},
        SpecAst::Function { .. } => {},
        SpecAst::Block(exprs) => {
            lemma_flat_all_are_supported(st, exprs, exprs.len(), verdicts);
        },
        SpecAst::Call { name, args } => {
            lemma_flat_all_are_supported(st, args, args.len(), verdicts);
        },
        SpecAst::BinOp { kind, lhs, rhs } => {
            lemma_flat_is_supported(st, *lhs, verdicts);
            let (s1, l) = gen(st, *lhs, verdicts);
            if l is Ok {
                lemma_flat_is_supported(s1, *rhs, verdicts);
            }
        },
        SpecAst::If { condition, then, el } => {
            lemma_flat_is_supported(st, *condition, verdicts);
            let (s1, c) = gen(st, *condition, verdicts);
            if c is Ok {
                let tested = s1.if_test(c->Ok_0);
                let from = s1.position->0;
                let (_, else_block, merge_block) = tested.if_blocks(from);
                let opened = tested.if_open(s1.next_value(), from);
                lemma_flat_is_supported(opened, *then, verdicts);
                let (s2, t) = gen(opened, *then, verdicts);
                if t is Ok && el is Some {
                    lemma_flat_is_supported(s2.if_leave(merge_block, else_block), *el->0, verdicts);
                }
            }
        },
    }
}

/// What `lemma_flat_is_supported` says of one expression, of a list.
pub proof fn lemma_flat_all_are_supported(st: CompilerView, nodes: Seq<SpecNode>, n: nat, verdicts: Seq<VerdictView>)
    requires
        n <= nodes.len(),
        forall|i: int| 0 <= i < n ==> flat(#[trigger] nodes[i]),
        st.position is Some,
    ensures
        !(gen_all(st, nodes, n, verdicts).1 matches Err(HaltView::Unsupported(_))),
        gen_all(st, nodes, n, verdicts).0.position is Some,
    decreases nodes, n,
{
    if n > 0 {
        lemma_flat_all_are_supported(st, nodes, (n - 1) as nat, verdicts);
        let (s1, before) = gen_all(st, nodes, (n - 1) as nat, verdicts);
        if before is Ok {
            lemma_flat_is_supported(s1, nodes[n - 1], verdicts);
        }
    }
}

/// A program of plain functions is supported.
pub proof fn lemma_plain_program_is_supported(st: CompilerView, program: SpecNode, verdicts: Seq<VerdictView>)
    requires
        plain_program(program),
    ensures
        !(compile(st, program, verdicts).1 matches Ok(Progress::Unsupported(_))),
{
    let started = CompilerView { answered: 0, compiled: false, ..st.init_std() };
    let items = program.expr->Block_0;
    lemma_plain_functions_are_supported(started, items, items.len(), verdicts);
}

/// A list of plain functions is supported.
pub proof fn lemma_plain_functions_are_supported(
    st: CompilerView,
    nodes: Seq<SpecNode>,
    n: nat,
    verdicts: Seq<VerdictView>,
)
    requires
        n <= nodes.len(),
        forall|i: int| 0 <= i < n ==> plain_function(#[trigger] nodes[i]),
    ensures
        !(gen_all(st, nodes, n, verdicts).1 matches Err(HaltView::Unsupported(_))),
    decreases n,
{
    if n > 0 {
        lemma_plain_functions_are_supported(st, nodes, (n - 1) as nat, verdicts);
        let (s1, before) = gen_all(st, nodes, (n - 1) as nat, verdicts);
        if before is Ok {
            let node = nodes[n - 1];
            assert(plain_function(node));
            match node.expr {
                SpecAst::Function { name, params, body } => {
                    let (opened, f) = s1.open_function(name, params);
                    lemma_flat_is_supported(opened, *body, verdicts);
                    let (s, value) = gen(opened, *body, verdicts);
                    assert(gen(s1, node, verdicts) == match value {
                        Err(halt) => (s.leave_scope(), Err::<AnyValue, HaltView>(halt)),
                        Ok(value) => s.close_function(f, name, value, node.span, verdicts),
                    });
                },
                _ => {},
            }
        }
    }
}

/// Whether the module is valid and every one of its blocks is closed.
pub open spec fn tidy(module: ModuleView) -> bool {
    &&& valid(module)
    &&& forall|j: int|
        0 <= j < module.blocks.len() ==> closed_block(module, block_at(j, (#[trigger] module.blocks[j]).function))
}

/// Whether generation came to the end of a function: it gave a value, or
/// stopped for the verifier's answer, or for a function that the verifier
/// refused.
pub open spec fn came_through(result: Result<AnyValue, HaltView>) -> bool {
    match result {
        Ok(_) => true,
        Err(HaltView::AwaitVerdict(_)) => true,
        Err(HaltView::Error(e)) => e.kind == ErrorKind::FunctionVerificationFailed,
        Err(HaltView::Unsupported(_)) => false,
    }
}

/// Whether the expression is the definition of a function whose body
/// defines no function and binds no variable.
pub open spec fn plain_function(node: SpecNode) -> bool {
    match node.expr {
        SpecAst::Function { name, params, body } => flat(*body),
        _ => false,
    }
}

/// An expression that defines no function never waits for the verifier:
/// where it stops, it stops for an error of the program or for something
/// unsupported.
pub proof fn lemma_flat_never_asks(st: CompilerView, node: SpecNode, verdicts: Seq<VerdictView>)
    requires
        flat(node),
    ensures
        gen(st, node, verdicts).1 is Err ==> !came_through(gen(st, node, verdicts).1),
    decreases node, 0nat,
{
    match node.expr {
        SpecAst::Number(_) => {},
        SpecAst::Ref(_) => {},
        SpecAst::Variable { .. } => {},
        SpecAst::Function { .. } => {},
        SpecAst::Block(exprs) => {
            lemma_flat_all_never_ask(st, exprs, exprs.len(), verdicts);
        },
        SpecAst::Call { name, args } => {
            lemma_flat_all_never_ask(st, args, args.len(), verdicts);
        },
        SpecAst::BinOp { kind, lhs, rhs } => {
            lemma_flat_never_asks(st, *lhs, verdicts);
            let (s1, l) = gen(st, *lhs, verdicts);
            if l is Ok {
                lemma_flat_never_asks(s1, *rhs, verdicts);
            }
        },
        SpecAst::If { condition, then, el } => {
            lemma_flat_never_asks(st, *condition, verdicts);
            let (s1, c) = gen(st, *condition, verdicts);
            if c is Ok && s1.position is Some {
                let tested = s1.if_test(c->Ok_0);
                let from = s1.position->0;
                let (_, else_block, merge_block) = tested.if_blocks(from);
                let opened = tested.if_open(s1.next_value(), from);
                lemma_flat_never_asks(opened, *then, verdicts);
                let (s2, t) = gen(opened, *then, verdicts);
                if t is Ok && s2.position is Some && el is Some {
                    lemma_flat_never_asks(s2.if_leave(merge_block, else_block), *el->0, verdicts);
                }
            }
        },
    }
}

/// What `lemma_flat_never_asks` says of one expression, of a list.
pub proof fn lemma_flat_all_never_ask(st: CompilerView, nodes: Seq<SpecNode>, n: nat, verdicts: Seq<VerdictView>)
    requires
        n <= nodes.len(),
        forall|i: int| 0 <= i < n ==> flat(#[trigger] nodes[i]),
    ensures
        match gen_all(st, nodes, n, verdicts).1 {
            Ok(_) => true,
            Err(halt) => !came_through(Err(halt)),
        },
    decreases nodes, n,
{
    if n > 0 {
        lemma_flat_all_never_ask(st, nodes, (n - 1) as nat, verdicts);
        let (s1, before) = gen_all(st, nodes, (n - 1) as nat, verdicts);
        if before is Ok {
            lemma_flat_never_asks(s1, nodes[n - 1], verdicts);
        }
    }
}

/// A function whose body defines no function leaves a tidy module tidy: by
/// the time it is complete, every block of it ends in its one terminator,
/// and no other block has changed.
pub proof fn lemma_function_is_tidy(st: CompilerView, node: SpecNode, verdicts: Seq<VerdictView>)
    requires
        tidy(st.module),
        plain_function(node),
        came_through(gen(st, node, verdicts).1),
        fits(gen(st, node, verdicts).0),
    ensures
        tidy(gen(st, node, verdicts).0.module),
{
    let name = node.expr->Function_name;
    let params = node.expr->Function_params;
    let body = *node.expr->Function_body;
    let (opened, f) = st.open_function(name, params);
    let (s, value) = gen(opened, body, verdicts);
    lemma_flat_never_asks(opened, body, verdicts);
    assert(value is Ok);
    let last = gen(st, node, verdicts).0;
    let returned = if name == "main"@ {
        s.emit(None, OpView::RetVoid)
    } else {
        s.emit(None, OpView::Ret { value: value->Ok_0 })
    };
    assert(last.module == returned.module);
    assert(module_extends(returned.module, s.module));
    lemma_fits_back(s, returned);
    lemma_gen_extends(opened, body, verdicts);
    lemma_fits_back(opened, s);
    lemma_open_function_extends(st, name, params);
    lemma_module_extends_on(st.module, opened.module, s.module);
    lemma_module_extends_on(st.module, s.module, returned.module);

    // The start of the body is ready: the entry block is new and empty.
    let decl = signature_of(name, params);
    let declared = CompilerView { module: st.module.declare(decl), ..st };
    let bound_to = if f.arity <= params.len() { f.arity as nat } else { params.len() };
    lemma_bind_params_keeps_functions(declared, f, params, bound_to);
    let entry = opened.position->0;
    let first = st.module.blocks.len() as int;
    assert(entry == block_at(first, f));
    assert(opened.module.insts == st.module.insts);
    assert(opened.module.incoming == st.module.incoming);
    assert(opened.module.blocks == st.module.blocks.push(opened.module.blocks[first]));
    assert(ready(opened, entry));
    lemma_flat_gen_steps(opened, body, verdicts, entry);
    let none = Set::<int>::empty();
    let end = s.position->0;
    let ret = s.module.insts.len() as int;

    // The return closes the block in which the body ended.
    assert(returned.module.insts[ret].block == Some(end));
    assert(is_terminator(returned.module.insts[ret].op));
    assert(ends_at(returned.module, end, ret)) by {
        assert forall|row: int| #[trigger] in_block(returned.module, row, end) && row != ret implies row < ret
            && !is_terminator(returned.module.insts[row].op) by {
            assert(in_block(s.module, row, end));
        }
    }
    assert forall|row: int| 0 <= row < returned.module.insts.len() implies match (#[trigger] returned.module.insts[row]).block {
        Some(b) => b.index < returned.module.blocks.len(),
        None => true,
    } by {
        if row < ret {
            assert(s.module.insts[row] == returned.module.insts[row]);
        }
    }
    assert forall|j: int| 0 <= j < returned.module.blocks.len() implies closed_block(
        returned.module,
        block_at(j, (#[trigger] returned.module.blocks[j]).function),
    ) by {
        let block = block_at(j, returned.module.blocks[j].function);
        if block != end {
            if j < first {
                // A block of an earlier function: nothing was inserted there.
                assert(st.module.blocks[j] == returned.module.blocks[j]);
                assert(closed_block(st.module, block));
                assert forall|row: int| st.module.insts.len() <= row < returned.module.insts.len() implies (#[trigger] returned.module.insts[row]).block
                    != Some(block) by {
                    if row < ret {
                        assert(s.module.insts[row] == returned.module.insts[row]);
                        let b = s.module.insts[row].block->0;
                        if b != entry {
                            assert(started(opened, entry, s, none, b));
                        }
                    }
                }
                lemma_untouched_block(st.module, returned.module, block);
            } else {
                assert(s.module.blocks[j] == returned.module.blocks[j]);
                if j == first {
                    assert(block == entry);
                }
                assert(closed_block(s.module, block));
                lemma_untouched_block(s.module, returned.module, block);
            }
        }
    }
}

/// A list of functions whose bodies define no function leaves a tidy module
/// tidy.
pub proof fn lemma_functions_are_tidy(st: CompilerView, nodes: Seq<SpecNode>, n: nat, verdicts: Seq<VerdictView>)
    requires
        tidy(st.module),
        n <= nodes.len(),
        forall|i: int| 0 <= i < n ==> plain_function(#[trigger] nodes[i]),
        match gen_all(st, nodes, n, verdicts).1 {
            Ok(_) => true,
            Err(halt) => came_through(Err(halt)),
        },
        fits(gen_all(st, nodes, n, verdicts).0),
    ensures
        tidy(gen_all(st, nodes, n, verdicts).0.module),
    decreases n,
{
    if n > 0 {
        let (s1, before) = gen_all(st, nodes, (n - 1) as nat, verdicts);
        if before is Ok {
            let (s2, value) = gen(s1, nodes[n - 1], verdicts);
            lemma_gen_extends(s1, nodes[n - 1], verdicts);
            lemma_fits_back(s1, s2);
            lemma_functions_are_tidy(st, nodes, (n - 1) as nat, verdicts);
            lemma_function_is_tidy(s1, nodes[n - 1], verdicts);
        } else {
            lemma_functions_are_tidy(st, nodes, (n - 1) as nat, verdicts);
        }
    }
}

/// Whether the program is a list of functions whose bodies define no
/// function and bind no variable.
pub open spec fn plain_program(program: SpecNode) -> bool {
    match program.expr {
        SpecAst::Block(items) => forall|i: int| 0 <= i < items.len() ==> plain_function(#[trigger] items[i]),
        _ => false,
    }
}

/// Whenever the compilation of a program of plain functions asks for the
/// verifier's answer, about a function or about the module, and when it has
/// finished, the module holds complete functions only: every block ends in
/// its one terminator.
pub proof fn lemma_program_is_tidy(program: SpecNode, verdicts: Seq<VerdictView>)
    requires
        plain_program(program),
        fits(compile(CompilerView::initial(), program, verdicts).0),
        compile(CompilerView::initial(), program, verdicts).1 is Ok,
    ensures
        tidy(compile(CompilerView::initial(), program, verdicts).0.module),
{
    lemma_plain_program_is_supported(CompilerView::initial(), program, verdicts);
    let started = CompilerView { answered: 0, compiled: false, ..CompilerView::initial().init_std() };
    let items = program.expr->Block_0;
    assert(tidy(started.module));
    let (s, result) = gen(started, program, verdicts);
    assert(compile(CompilerView::initial(), program, verdicts).0.module == s.module);
    lemma_functions_are_tidy(started, items, items.len(), verdicts);
}

/// Whether `block` ends in a jump to `dest`.
pub open spec fn jumps_to(module: ModuleView, block: BasicBlock, dest: BasicBlock) -> bool {
    exists|last: int| ends_at(module, block, last) && module.insts[last].op == (OpView::Br { dest })
}

/// A conditional whose parts define no function, generated in a state that
/// is ready, joins its two branches in a phi node that is well formed:
///
/// - its value is the phi node, which is the last instruction inserted and
///   the only one in the block where the builder ends;
/// - the phi node has exactly two edges, the last two of the table;
/// - the two edges come from two different blocks, each of which ends in a
///   jump to the block of the phi node.
pub proof fn lemma_conditional_joins_two_branches(
    st: CompilerView,
    node: SpecNode,
    verdicts: Seq<VerdictView>,
    current: BasicBlock,
)
    requires
        ready(st, current),
        flat(node),
        node.expr is If,
        gen(st, node, verdicts).1 is Ok,
        fits(gen(st, node, verdicts).0),
    ensures
        ({
            let last = gen(st, node, verdicts).0;
            let merge = last.position->0;
            let row = last.module.insts.len() - 1;
            let edges = last.module.incoming;
            &&& last.position is Some
            &&& 0 <= row
            &&& gen(st, node, verdicts).1 == Ok::<AnyValue, HaltView>(AnyValue::Inst(row as usize))
            &&& last.module.insts[row].op == (OpView::Phi { ty: Type::F64 })
            &&& last.module.insts[row].block == Some(merge)
            &&& forall|r: int| in_block(last.module, r, merge) ==> r == row
            &&& edges.len() >= 2
            &&& forall|e: int|
                0 <= e < edges.len() ==> ((#[trigger] edges[e]).phi.index == row <==> e >= edges.len() - 2)
            &&& jumps_to(last.module, edges[edges.len() - 2].block, merge)
            &&& jumps_to(last.module, edges[edges.len() - 1].block, merge)
            &&& edges[edges.len() - 2].block != edges[edges.len() - 1].block
        }),
{
    let none = Set::<int>::empty();
    let condition = *node.expr->If_condition;
    let then = *node.expr->If_then;
    let el = node.expr->If_el;
    let (s1, c) = gen(st, condition, verdicts);
    let tested = s1.if_test(c->Ok_0);
    let from = s1.position->0;
    let (then_block, else_block, merge_block) = tested.if_blocks(from);
    let opened = tested.if_open(s1.next_value(), from);
    let (s2, t) = gen(opened, then, verdicts);
    let left = s2.if_leave(merge_block, else_block);
    let (s3, e) = match el {
        Some(el) => gen(left, *el, verdicts),
        None => (left, Ok(float_const(POSITIVE_INFINITY))),
    };
    let merged = s3.if_leave(merge_block, merge_block);
    let last = gen(st, node, verdicts).0;
    let phi = Phi { index: merged.module.insts.len() as usize };
    let joined = merged.emit(Some("iftmp"@), OpView::Phi { ty: Type::F64 });
    assert(last == merged.if_join(t->Ok_0, s2.position->0, e->Ok_0, s3.position->0).0);
    assert(module_extends(last.module, joined.module));
    assert(module_extends(joined.module, merged.module));
    assert(module_extends(merged.module, s3.module));
    if el is Some {
        lemma_gen_extends(left, *el->0, verdicts);
    }
    assert(module_extends(left.module, s2.module));
    lemma_gen_extends(opened, then, verdicts);
    assert(module_extends(opened.module, tested.module)) by {
        assert(begins_with(opened.module.blocks, tested.module.blocks));
        assert(begins_with(opened.module.insts, tested.module.insts));
    }
    assert(module_extends(tested.module, s1.module));
    lemma_fits_back(joined, last);
    lemma_fits_back(merged, joined);
    lemma_fits_back(s3, merged);
    lemma_fits_back(left, s3);
    lemma_fits_back(s2, left);
    lemma_fits_back(opened, s2);
    lemma_fits_back(tested, opened);
    lemma_fits_back(s1, tested);

    lemma_stepped_nowhere(st, current);
    lemma_flat_gen_steps(st, condition, verdicts, current);
    lemma_stepped_is_ready(st, current, s1, none);
    lemma_step_emit(
        st,
        current,
        s1,
        none,
        Some("ifcond"@),
        OpView::FCmp {
            predicate: RealPredicate::ONE,
            lhs: c->Ok_0,
            rhs: float_const(ZERO),
        },
    );
    let n = tested.module.blocks.len() as int;
    let f = current.function;
    lemma_step_if_open(st, current, tested, none, s1.next_value());
    let pending = none.insert(n + 1).insert(n + 2);
    lemma_stepped_is_ready(st, current, opened, pending);
    lemma_flat_gen_steps(opened, then, verdicts, opened.position->0);
    lemma_step_on(st, current, opened, pending, s2);
    lemma_step_if_leave(st, current, s2, pending, merge_block, n + 1);
    let waiting = pending.remove(n + 1);
    lemma_stepped_is_ready(st, current, left, waiting);
    if el is Some {
        lemma_flat_gen_steps(left, *el->0, verdicts, left.position->0);
        lemma_step_on(st, current, left, waiting, s3);
    }
    lemma_step_if_leave(st, current, s3, waiting, merge_block, n + 2);
    assert(waiting.remove(n + 2) =~= none);
    assert(stepped(st, current, merged, none));
    lemma_stepped_is_ready(st, current, merged, none);
    lemma_step_emit(st, current, merged, none, Some("iftmp"@), OpView::Phi { ty: Type::F64 });
    lemma_step_edges(st, current, joined, none, phi, seq![(t->Ok_0, s2.position->0), (e->Ok_0, s3.position->0)]);
    assert(stepped(st, current, last, none));

    let row = merged.module.insts.len() as int;
    let then_end = s2.position->0;
    let else_end = s3.position->0;
    let then_jump = s2.module.insts.len() as int;
    let else_jump = s3.module.insts.len() as int;
    assert(merge_block == block_at(n + 2, f));
    assert(last.position == Some(merge_block));
    assert(last.module.insts == joined.module.insts);
    assert(last.module.insts.len() == row + 1);

    // The phi node is alone in the merge block, which held nothing when the
    // builder entered it.
    lemma_aside_is_empty(st, current, s3, waiting, n + 2);
    assert forall|r: int| in_block(last.module, r, merge_block) implies r == row by {
        if r < else_jump {
            assert(s3.module.insts[r] == last.module.insts[r]);
            assert(in_block(s3.module, r, merge_block));
        } else if r == else_jump {
            assert(last.module.insts[r] == merged.module.insts[r]);
            assert(merged.module.insts[r].block == Some(else_end));
            assert(else_end != merge_block);
        }
    }

    // Its edges are the last two of the table.
    let edges = last.module.incoming;
    let old = merged.module.incoming.len() as int;
    assert(edges.len() == old + 2);
    assert forall|k: int| 0 <= k < edges.len() implies ((#[trigger] edges[k]).phi.index == row <==> k >= edges.len()
        - 2) by {
        if k < old {
            assert(edges[k] == merged.module.incoming[k]);
        }
    }
    assert(edges[old].block == then_end);
    assert(edges[old + 1].block == else_end);

    // Each branch ended in a block that jumps to the merge block, and that
    // block has not changed since.
    assert(last.module.insts[then_jump] == left.module.insts[then_jump]);
    assert(last.module.insts[else_jump] == merged.module.insts[else_jump]);
    assert(then_end == opened.position->0 || started(opened, opened.position->0, s2, none, then_end));
    assert(else_end == left.position->0 || started(left, left.position->0, s3, none, else_end));
    assert(then_end != else_end);
    assert(then_end != merge_block);
    assert(closed_block(last.module, then_end)) by {
        if then_end != current {
            assert(started(st, current, s2, pending, then_end));
            assert(then_end == block_at(then_end.index as int, f));
            assert(last.module.blocks[then_end.index as int].function == f);
        }
    }
    assert(closed_block(last.module, else_end)) by {
        if else_end != current {
            assert(started(st, current, s3, waiting, else_end));
            assert(else_end == block_at(else_end.index as int, f));
            assert(last.module.blocks[else_end.index as int].function == f);
        }
    }
    assert(jumps_to(last.module, then_end, merge_block)) by {
        let end = choose|end: int| ends_at(last.module, then_end, end);
        assert(in_block(last.module, then_jump, then_end));
        assert(is_terminator(last.module.insts[then_jump].op));
        assert(end == then_jump);
    }
    assert(jumps_to(last.module, else_end, merge_block)) by {
        let end = choose|end: int| ends_at(last.module, else_end, end);
        assert(in_block(last.module, else_jump, else_end));
        assert(is_terminator(last.module.insts[else_jump].op));
        assert(end == else_jump);
    }
}

} // verus!
