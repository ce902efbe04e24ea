//! Definitions come before uses, and calls fit their callees.
//!
//! An instruction is defined by its row. Every value that an instruction
//! uses, and every value that flows into a phi node, is a constant, a
//! parameter, a function, or the result of an instruction of an earlier
//! row: nothing is used before it is defined. Every call hands over as
//! many arguments as its callee has parameters.

use vstd::prelude::*;
use crate::backend::analysis::VerdictView;
use crate::backend::builder::RealPredicate;
use crate::backend::module::{ModuleView, OpView};
use crate::backend::types::Type;
use crate::backend::value::{AnyValue, Function};
use crate::compiler::laws::{lemma_bind_params_keeps_functions, lemma_gen_extends};
use crate::compiler::model::{
    arithmetic_of, compile, float_const, gen, gen_all, predicate_of, signature_of, CompilerView,
    POSITIVE_INFINITY, ZERO,
};
use crate::parser::ast::{SpecAst, SpecNode};

verus! {

/// Whether `value`, if it is the result of an instruction, is that of one
/// of the first `rows` rows.
pub open spec fn defined_before(value: AnyValue, rows: int) -> bool {
    match value {
        AnyValue::Inst(row) => row < rows,
        _ => true,
    }
}

/// The values that an instruction uses.
pub open spec fn operands(op: OpView) -> Seq<AnyValue> {
    match op {
        OpView::Binary { kind, lhs, rhs } => seq![lhs, rhs],
        OpView::FCmp { predicate, lhs, rhs } => seq![lhs, rhs],
        OpView::UiToFp { value, ty } => seq![value],
        OpView::Call { callee, args } => args,
        OpView::CondBr { cond, then_block, else_block } => seq![cond],
        OpView::Ret { value } => seq![value],
        OpView::Br { .. } => Seq::empty(),
        OpView::Phi { .. } => Seq::empty(),
        OpView::RetVoid => Seq::empty(),
    }
}

/// Whether every operand of `op` is defined before the row `rows`.
pub open spec fn uses_before(op: OpView, rows: int) -> bool {
    forall|k: int| 0 <= k < operands(op).len() ==> defined_before(#[trigger] operands(op)[k], rows)
}

/// Whether the instruction, if it is a call, hands over as many arguments
/// as its callee has parameters.
pub open spec fn fits_callee(op: OpView) -> bool {
    match op {
        OpView::Call { callee, args } => args.len() == callee.arity,
        _ => true,
    }
}

/// Whether no instruction of the module uses the result of itself or of a
/// later one, every call fits its callee, and every value that flows into
/// a phi node is defined.
pub open spec fn settled(module: ModuleView) -> bool {
    &&& module.insts.len() <= usize::MAX
    &&& forall|row: int|
        0 <= row < module.insts.len() ==> uses_before((#[trigger] module.insts[row]).op, row) && fits_callee(
            module.insts[row].op,
        )
    &&& forall|e: int|
        0 <= e < module.incoming.len() ==> defined_before((#[trigger] module.incoming[e]).value, module.insts.len() as int)
}

/// Whether the module is settled and every variable stands for a value
/// that is defined.
pub open spec fn at_rest(st: CompilerView) -> bool {
    &&& settled(st.module)
    &&& forall|name: Seq<char>|
        st.vars.dom().contains(name) ==> defined_before(#[trigger] st.vars[name], st.module.insts.len() as int)
}

/// One more instruction whose operands are defined leaves the state at
/// rest, wherever it is inserted.
pub proof fn lemma_push_at_rest(st: CompilerView, after: CompilerView, op: OpView)
    requires
        at_rest(st),
        uses_before(op, st.module.insts.len() as int),
        fits_callee(op),
        st.module.insts.len() < usize::MAX,
        after.module.insts.len() == st.module.insts.len() + 1,
        forall|row: int| 0 <= row < st.module.insts.len() ==> after.module.insts[row] == st.module.insts[row],
        after.module.insts[st.module.insts.len() as int].op == op,
        after.module.incoming == st.module.incoming,
        after.vars == st.vars,
    ensures
        at_rest(after),
{
    assert forall|row: int| 0 <= row < after.module.insts.len() implies uses_before(
        (#[trigger] after.module.insts[row]).op,
        row,
    ) && fits_callee(after.module.insts[row].op) by {
        if row < st.module.insts.len() {
            assert(after.module.insts[row] == st.module.insts[row]);
        }
    }
}

/// One more instruction whose operands are defined leaves the state at
/// rest, and its value is defined from then on.
pub proof fn lemma_emit_at_rest(st: CompilerView, name: Option<Seq<char>>, op: OpView)
    requires
        at_rest(st),
        uses_before(op, st.module.insts.len() as int),
        fits_callee(op),
        st.module.insts.len() < usize::MAX,
    ensures
        at_rest(st.emit(name, op)),
        defined_before(st.next_value(), st.emit(name, op).module.insts.len() as int),
{
    lemma_push_at_rest(st, st.emit(name, op), op);
}

/// Generation uses nothing before it is defined: it leaves a state at rest
/// at rest, and the value it gives is defined.
pub proof fn lemma_gen_at_rest(st: CompilerView, node: SpecNode, verdicts: Seq<VerdictView>)
    requires
        at_rest(st),
        gen(st, node, verdicts).0.module.insts.len() <= usize::MAX,
    ensures
        at_rest(gen(st, node, verdicts).0),
        st.module.insts.len() <= gen(st, node, verdicts).0.module.insts.len(),
        match gen(st, node, verdicts).1 {
            Ok(value) => defined_before(value, gen(st, node, verdicts).0.module.insts.len() as int),
            Err(_) => true,
        },
    decreases node, 1nat,
{
    match node.expr {
        SpecAst::Number(_) => {},
        SpecAst::Ref(_) => {},
        SpecAst::Variable { .. } => {},
        SpecAst::Block(exprs) => {
            lemma_gen_all_at_rest(st, exprs, exprs.len(), verdicts);
        },
        SpecAst::Call { name, args } => {
            lemma_gen_all_at_rest(st, args, args.len(), verdicts);
            let (s, values) = gen_all(st, args, args.len(), verdicts);
            if values is Ok && s.defs.dom().contains(name) && s.defs[name].arity == values->Ok_0.len() {
                lemma_emit_at_rest(s, None, OpView::Call { callee: s.defs[name], args: values->Ok_0 });
            }
        },
        SpecAst::BinOp { kind, lhs, rhs } => {
            let (s1, l) = gen(st, *lhs, verdicts);
            if l is Ok {
                let (s2, r) = gen(s1, *rhs, verdicts);
                lemma_gen_grows(s1, *rhs, verdicts);
                if r is Ok {
                    lemma_gen_at_rest(st, *lhs, verdicts);
                    lemma_gen_at_rest(s1, *rhs, verdicts);
                    match predicate_of(kind) {
                        Some(predicate) => {
                            let compared = s2.emit(
                                Some("cmptmp"@),
                                OpView::FCmp { predicate, lhs: l->Ok_0, rhs: r->Ok_0 },
                            );
                            lemma_emit_at_rest(
                                s2,
                                Some("cmptmp"@),
                                OpView::FCmp { predicate, lhs: l->Ok_0, rhs: r->Ok_0 },
                            );
                            lemma_emit_at_rest(
                                compared,
                                Some("booltmp"@),
                                OpView::UiToFp { value: s2.next_value(), ty: Type::F64 },
                            );
                        },
                        None => {
                            let (op, name) = arithmetic_of(kind);
                            lemma_emit_at_rest(
                                s2,
                                Some(name),
                                OpView::Binary { kind: op, lhs: l->Ok_0, rhs: r->Ok_0 },
                            );
                        },
                    }
                } else {
                    lemma_gen_at_rest(st, *lhs, verdicts);
                    lemma_gen_at_rest(s1, *rhs, verdicts);
                }
            } else {
                lemma_gen_at_rest(st, *lhs, verdicts);
            }
        },
        SpecAst::If { condition, then, el } => {
            lemma_if_at_rest(st, node, verdicts);
        },
        SpecAst::Function { name, params, body } => {
            let (opened, f) = st.open_function(name, params);
            let decl = signature_of(name, params);
            let declared = CompilerView { module: st.module.declare(decl), ..st };
            let n = if f.arity <= params.len() { f.arity as nat } else { params.len() };
            lemma_bind_params_keeps_functions(declared, f, params, n);
            lemma_bind_params_are_params(declared, f, params, n);
            assert(at_rest(opened));
            let (s, value) = gen(opened, *body, verdicts);
            if value is Ok {
                let returned = if name == "main"@ {
                    s.emit(None, OpView::RetVoid)
                } else {
                    s.emit(None, OpView::Ret { value: value->Ok_0 })
                };
                assert(gen(st, node, verdicts).0.module == returned.module);
                lemma_gen_at_rest(opened, *body, verdicts);
                if name == "main"@ {
                    lemma_emit_at_rest(s, None, OpView::RetVoid);
                } else {
                    lemma_emit_at_rest(s, None, OpView::Ret { value: value->Ok_0 });
                }
                assert(at_rest(returned));
            } else {
                lemma_gen_at_rest(opened, *body, verdicts);
            }
        },
    }
}

/// The variables that parameters are bound to are parameters.
pub proof fn lemma_bind_params_are_params(
    st: CompilerView,
    f: Function,
    params: Seq<Seq<char>>,
    n: nat,
)
    ensures
        forall|name: Seq<char>|
            st.bind_params(f, params, n).vars.dom().contains(name) ==> #[trigger] st.bind_params(
                f,
                params,
                n,
            ).vars[name] is Param,
    decreases n,
{
    if n > 0 {
        lemma_bind_params_are_params(st, f, params, (n - 1) as nat);
    }
}

/// Generation only adds instructions.
pub proof fn lemma_gen_grows(st: CompilerView, node: SpecNode, verdicts: Seq<VerdictView>)
    ensures
        st.module.insts.len() <= gen(st, node, verdicts).0.module.insts.len(),
{
    lemma_gen_extends(st, node, verdicts);
}

/// What `lemma_gen_at_rest` says, of a conditional.
pub proof fn lemma_if_at_rest(st: CompilerView, node: SpecNode, verdicts: Seq<VerdictView>)
    requires
        node.expr is If,
        at_rest(st),
        gen(st, node, verdicts).0.module.insts.len() <= usize::MAX,
    ensures
        at_rest(gen(st, node, verdicts).0),
        st.module.insts.len() <= gen(st, node, verdicts).0.module.insts.len(),
        match gen(st, node, verdicts).1 {
            Ok(value) => defined_before(value, gen(st, node, verdicts).0.module.insts.len() as int),
            Err(_) => true,
        },
    decreases node, 0nat,
{
    let condition = *node.expr->If_condition;
    let then = *node.expr->If_then;
    let el = node.expr->If_el;
    let last = gen(st, node, verdicts).0;
    lemma_gen_grows(st, node, verdicts);
    let (s1, c) = gen(st, condition, verdicts);
    lemma_gen_grows(st, condition, verdicts);
    if c is Err {
        lemma_gen_at_rest(st, condition, verdicts);
    } else {
        let test = OpView::FCmp { predicate: RealPredicate::ONE, lhs: c->Ok_0, rhs: float_const(ZERO) };
        let tested = s1.if_test(c->Ok_0);
        if s1.position is None {
            lemma_gen_at_rest(st, condition, verdicts);
            lemma_emit_at_rest(s1, Some("ifcond"@), test);
        } else {
            let from = s1.position->0;
            let (then_block, else_block, merge_block) = tested.if_blocks(from);
            let branch = OpView::CondBr { cond: s1.next_value(), then_block, else_block };
            let opened = tested.if_open(s1.next_value(), from);
            let (s2, t) = gen(opened, then, verdicts);
            lemma_gen_grows(opened, then, verdicts);
            if t is Err || s2.position is None {
                assert(last == s2);
                lemma_gen_at_rest(st, condition, verdicts);
                lemma_emit_at_rest(s1, Some("ifcond"@), test);
                lemma_push_at_rest(tested, opened, branch);
                lemma_gen_at_rest(opened, then, verdicts);
            } else {
                let jump = OpView::Br { dest: merge_block };
                let left = s2.if_leave(merge_block, else_block);
                let (s3, e) = match el {
                    Some(el) => gen(left, *el, verdicts),
                    None => (left, Ok(float_const(POSITIVE_INFINITY))),
                };
                if el is Some {
                    lemma_gen_grows(left, *el->0, verdicts);
                }
                if e is Ok && s3.position is Some {
                    let merged = s3.if_leave(merge_block, merge_block);
                    let joined = merged.emit(Some("iftmp"@), OpView::Phi { ty: Type::F64 });
                    assert(last == merged.if_join(t->Ok_0, s2.position->0, e->Ok_0, s3.position->0).0);
                    assert(last.module.insts == joined.module.insts);
                }
                lemma_gen_at_rest(st, condition, verdicts);
                lemma_emit_at_rest(s1, Some("ifcond"@), test);
                lemma_push_at_rest(tested, opened, branch);
                lemma_gen_at_rest(opened, then, verdicts);
                lemma_push_at_rest(s2, left, jump);
                if el is Some {
                    lemma_gen_at_rest(left, *el->0, verdicts);
                }
                if e is Ok && s3.position is Some {
                    let merged = s3.if_leave(merge_block, merge_block);
                    let joined = merged.emit(Some("iftmp"@), OpView::Phi { ty: Type::F64 });
                    lemma_push_at_rest(s3, merged, jump);
                    lemma_emit_at_rest(merged, Some("iftmp"@), OpView::Phi { ty: Type::F64 });
                    assert forall|k: int| 0 <= k < last.module.incoming.len() implies defined_before(
                        (#[trigger] last.module.incoming[k]).value,
                        last.module.insts.len() as int,
                    ) by {
                        if k < joined.module.incoming.len() {
                            assert(last.module.incoming[k] == joined.module.incoming[k]);
                        }
                    }
                }
            }
        }
    }
}

/// What `lemma_gen_at_rest` says of one expression, of a list.
pub proof fn lemma_gen_all_at_rest(st: CompilerView, nodes: Seq<SpecNode>, n: nat, verdicts: Seq<VerdictView>)
    requires
        at_rest(st),
        gen_all(st, nodes, n, verdicts).0.module.insts.len() <= usize::MAX,
    ensures
        at_rest(gen_all(st, nodes, n, verdicts).0),
        st.module.insts.len() <= gen_all(st, nodes, n, verdicts).0.module.insts.len(),
        match gen_all(st, nodes, n, verdicts).1 {
            Ok(values) => forall|k: int|
                0 <= k < values.len() ==> defined_before(
                    #[trigger] values[k],
                    gen_all(st, nodes, n, verdicts).0.module.insts.len() as int,
                ),
            Err(_) => true,
        },
    decreases nodes, n,
{
    if n == 0 || n > nodes.len() {
    } else {
        let (s1, before) = gen_all(st, nodes, (n - 1) as nat, verdicts);
        if before is Ok {
            lemma_gen_grows(s1, nodes[n - 1], verdicts);
            lemma_gen_all_at_rest(st, nodes, (n - 1) as nat, verdicts);
            lemma_gen_at_rest(s1, nodes[n - 1], verdicts);
        } else {
            lemma_gen_all_at_rest(st, nodes, (n - 1) as nat, verdicts);
        }
    }
}

/// In the module of any compilation that started afresh, no instruction
/// uses what is defined later and every call fits its callee, whatever the
/// program and however the compilation ended.
pub proof fn lemma_compile_at_rest(program: SpecNode, verdicts: Seq<VerdictView>)
    requires
        compile(CompilerView::initial(), program, verdicts).0.module.insts.len() <= usize::MAX,
    ensures
        settled(compile(CompilerView::initial(), program, verdicts).0.module),
{
    let started = CompilerView { answered: 0, compiled: false, ..CompilerView::initial().init_std() };
    assert(at_rest(started));
    let last = compile(CompilerView::initial(), program, verdicts).0;
    if last.module == gen(started, program, verdicts).0.module {
        lemma_gen_at_rest(started, program, verdicts);
    } else {
        // The compilation failed: nothing of the program is left.
        assert(last == CompilerView::initial().abandoned());
    }
}

} // verus!
