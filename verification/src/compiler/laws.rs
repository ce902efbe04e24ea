//! Laws of the code generator, proved of its model.

use vstd::prelude::*;
use crate::parser::ast::{BinOpKind, SpecAst, SpecNode};
use crate::backend::analysis::VerdictView;
use crate::backend::builder::RealPredicate;
use crate::backend::module::{ModuleView, OpView};
use crate::backend::types::Type;
use crate::backend::value::{AnyValue, Function};
use crate::compiler::error::{error_of, CompilerErrorView, ErrorKind};
use crate::compiler::model::{
    begins_with, compile, declares, float_const, gen, gen_all, handle_of, lemma_gen_all_halts, module_extends,
    predicate_of, print_number_decl, signature_of, CompilerView, HaltView, Progress, POSITIVE_INFINITY,
};
use crate::span::Span;

verus! {

/// Compilation is a function of the tree, the state and the verifier's
/// answers: the same three give the same module and the same result.
pub proof fn lemma_compile_deterministic(
    first: CompilerView,
    second: CompilerView,
    node: SpecNode,
    again: SpecNode,
    verdicts: Seq<VerdictView>,
)
    requires
        first == second,
        node == again,
    ensures
        compile(first, node, verdicts).0.module == compile(second, again, verdicts).0.module,
        compile(first, node, verdicts) == compile(second, again, verdicts),
{
}

/// A reference to `_` fails as an illegal reference wherever it is
/// generated: in every state, bound or not, and without changing the state.
pub proof fn lemma_discard_reference_fails(st: CompilerView, span: Span, verdicts: Seq<VerdictView>)
    ensures
        gen(st, SpecNode { span, expr: SpecAst::Ref("_"@) }, verdicts) == (
            st,
            Err::<AnyValue, HaltView>(
                HaltView::Error(error_of(ErrorKind::IllegalDiscardReference, "_"@, span)),
            ),
        ),
{
}

/// A block without expressions fails as an empty block, in every state and
/// without changing it.
pub proof fn lemma_empty_block_fails(st: CompilerView, span: Span, verdicts: Seq<VerdictView>)
    ensures
        gen(st, SpecNode { span, expr: SpecAst::Block(Seq::empty()) }, verdicts) == (
            st,
            Err::<AnyValue, HaltView>(HaltView::Error(error_of(ErrorKind::EmptyBlock, Seq::empty(), span))),
        ),
{
    assert(gen_all(st, Seq::<SpecNode>::empty(), 0, verdicts) == (st, Ok::<Seq<AnyValue>, HaltView>(Seq::empty())));
}

/// The values of a list that was generated to its end are as many as its
/// expressions.
pub proof fn lemma_gen_all_len(st: CompilerView, nodes: Seq<SpecNode>, n: nat, verdicts: Seq<VerdictView>)
    requires
        n <= nodes.len(),
        gen_all(st, nodes, n, verdicts).1 is Ok,
    ensures
        gen_all(st, nodes, n, verdicts).1->Ok_0.len() == n,
    decreases n,
{
    if n > 0 {
        lemma_gen_all_len(st, nodes, (n - 1) as nat, verdicts);
    }
}

/// A call of a name that no function is defined under, once its arguments
/// have been generated, fails as an undefined function at the span of the
/// call.
pub proof fn lemma_undefined_function_fails(
    st: CompilerView,
    span: Span,
    name: Seq<char>,
    args: Seq<SpecNode>,
    verdicts: Seq<VerdictView>,
)
    requires
        gen_all(st, args, args.len(), verdicts).1 is Ok,
        !gen_all(st, args, args.len(), verdicts).0.defs.dom().contains(name),
    ensures
        gen(st, SpecNode { span, expr: SpecAst::Call { name, args } }, verdicts) == (
            gen_all(st, args, args.len(), verdicts).0,
            Err::<AnyValue, HaltView>(HaltView::Error(error_of(ErrorKind::UndefinedFunction, name, span))),
        ),
{
}

/// A call with a number of arguments other than the number of parameters
/// that the callee was declared with fails as an arity mismatch that holds
/// both numbers, and inserts nothing.
pub proof fn lemma_arity_mismatch_fails(
    st: CompilerView,
    span: Span,
    name: Seq<char>,
    args: Seq<SpecNode>,
    verdicts: Seq<VerdictView>,
)
    requires
        args.len() <= usize::MAX,
        gen_all(st, args, args.len(), verdicts).1 is Ok,
        gen_all(st, args, args.len(), verdicts).0.defs.dom().contains(name),
        gen_all(st, args, args.len(), verdicts).0.defs[name].arity != args.len(),
    ensures
        gen(st, SpecNode { span, expr: SpecAst::Call { name, args } }, verdicts) == (
            gen_all(st, args, args.len(), verdicts).0,
            Err::<AnyValue, HaltView>(
                HaltView::Error(
                    error_of(
                        ErrorKind::ArityMismatch {
                            expected: gen_all(st, args, args.len(), verdicts).0.defs[name].arity,
                            actual: args.len() as usize,
                        },
                        name,
                        span,
                    ),
                ),
            ),
        ),
{
    lemma_gen_all_len(st, args, args.len(), verdicts);
}

/// A call with as many arguments as the callee has parameters is one call
/// instruction on the arguments' values.
pub proof fn lemma_call_succeeds(
    st: CompilerView,
    span: Span,
    name: Seq<char>,
    args: Seq<SpecNode>,
    verdicts: Seq<VerdictView>,
)
    requires
        gen_all(st, args, args.len(), verdicts).1 is Ok,
        gen_all(st, args, args.len(), verdicts).0.defs.dom().contains(name),
        gen_all(st, args, args.len(), verdicts).0.defs[name].arity == args.len(),
    ensures
        ({
            let (s, values) = gen_all(st, args, args.len(), verdicts);
            gen(st, SpecNode { span, expr: SpecAst::Call { name, args } }, verdicts) == (
                s.emit(None, OpView::Call { callee: s.defs[name], args: values->Ok_0 }),
                Ok::<AnyValue, HaltView>(s.next_value()),
            )
        }),
{
    lemma_gen_all_len(st, args, args.len(), verdicts);
}

/// The function `main` is declared without parameters and without a return
/// value, whatever parameters its definition names; every other function is
/// declared with one float for each parameter and returns one float.
pub proof fn lemma_function_signature(st: CompilerView, name: Seq<char>, params: Seq<Seq<char>>)
    ensures
        ({
            let (opened, f) = st.open_function(name, params);
            let row = st.module.functions.len() as int;
            &&& opened.module.functions.len() == row + 1
            &&& opened.module.functions[row] == signature_of(name, params)
            &&& opened.module.functions[row].name == Some(name)
            &&& name == "main"@ ==> opened.module.functions[row].ret == Type::Void
                && opened.module.functions[row].params.len() == 0 && f.arity == 0
            &&& name != "main"@ ==> opened.module.functions[row].ret == Type::F64
                && opened.module.functions[row].params == Seq::new(params.len(), |i: int| Type::F64)
        }),
{
    let decl = signature_of(name, params);
    let f = st.module.next_function(decl);
    let declared = CompilerView { module: st.module.declare(decl), ..st };
    let n = if f.arity <= params.len() { f.arity as nat } else { params.len() };
    lemma_bind_params_keeps_functions(declared, f, params, n);
}

/// Naming and binding parameters changes the names of values and the
/// variables, and nothing else.
pub proof fn lemma_bind_params_keeps_functions(st: CompilerView, f: Function, params: Seq<Seq<char>>, n: nat)
    ensures
        begins_with(st.bind_params(f, params, n).module.names, st.module.names),
        st.bind_params(f, params, n).module.functions == st.module.functions,
        st.bind_params(f, params, n).module.blocks == st.module.blocks,
        st.bind_params(f, params, n).module.insts == st.module.insts,
        st.bind_params(f, params, n).module.incoming == st.module.incoming,
        st.bind_params(f, params, n).module.name == st.module.name,
        st.bind_params(f, params, n).defs == st.defs,
        st.bind_params(f, params, n).position == st.position,
        st.bind_params(f, params, n).answered == st.answered,
        st.bind_params(f, params, n).compiled == st.compiled,
    decreases n,
{
    if n > 0 {
        lemma_bind_params_keeps_functions(st, f, params, (n - 1) as nat);
    }
}

/// The variables after `n` parameters were bound are those parameters and
/// nothing else: each name stands for the last parameter that bears it.
pub proof fn lemma_bind_params_scope(st: CompilerView, f: Function, params: Seq<Seq<char>>, n: nat)
    requires
        n <= params.len(),
    ensures
        forall|name: Seq<char>| #[trigger]
            st.bind_params(f, params, n).vars.dom().contains(name) <==> exists|i: int|
                0 <= i < n && params[i] == name,
        forall|i: int|
            0 <= i < n && (forall|j: int| i < j < n ==> params[j] != params[i]) ==> st.bind_params(
                f,
                params,
                n,
            ).vars[#[trigger] params[i]] == (AnyValue::Param { function: f.index, index: i as usize }),
    decreases n,
{
    if n > 0 {
        lemma_bind_params_scope(st, f, params, (n - 1) as nat);
        let before = st.bind_params(f, params, (n - 1) as nat);
        let after = st.bind_params(f, params, n);
        assert forall|name: Seq<char>| #[trigger] after.vars.dom().contains(name) <==> exists|i: int|
            0 <= i < n && params[i] == name by {
            if after.vars.dom().contains(name) {
                if name == params[n - 1] {
                    assert(0 <= n - 1 < n && params[n - 1] == name);
                } else {
                    assert(before.vars.dom().contains(name));
                    let i = choose|i: int| 0 <= i < n - 1 && params[i] == name;
                    assert(0 <= i < n && params[i] == name);
                }
            }
            if exists|i: int| 0 <= i < n && params[i] == name {
                let i = choose|i: int| 0 <= i < n && params[i] == name;
                if i < n - 1 {
                    assert(0 <= i < n - 1 && params[i] == name);
                    assert(before.vars.dom().contains(name));
                }
            }
        }
    }
}

/// The body of a function sees the parameters of that function and no
/// other variable: whatever was in scope before is gone. The body of
/// `main` sees no variable at all.
pub proof fn lemma_function_scope_is_fresh(st: CompilerView, name: Seq<char>, params: Seq<Seq<char>>)
    requires
        params.len() <= usize::MAX,
    ensures
        ({
            let (opened, f) = st.open_function(name, params);
            &&& name == "main"@ ==> opened.vars == Map::<Seq<char>, AnyValue>::empty()
            &&& name != "main"@ ==> forall|x: Seq<char>| #[trigger]
                opened.vars.dom().contains(x) <==> exists|i: int| 0 <= i < params.len() && params[i] == x
            &&& opened.defs == st.defs
        }),
{
    let decl = signature_of(name, params);
    let f = st.module.next_function(decl);
    let declared = CompilerView { module: st.module.declare(decl), ..st };
    let n = if f.arity <= params.len() { f.arity as nat } else { params.len() };
    lemma_bind_params_keeps_functions(declared, f, params, n);
    lemma_bind_params_scope(declared, f, params, n);
    if name == "main"@ {
        assert(n == 0);
        assert(declared.bind_params(f, params, 0).vars =~= Map::<Seq<char>, AnyValue>::empty());
    } else {
        assert(decl.params.len() == params.len());
        assert(n == params.len());
    }
}

/// A function returns at the end of its body: `main` nothing, every other
/// function the value of its body.
pub proof fn lemma_function_returns(
    st: CompilerView,
    f: Function,
    name: Seq<char>,
    value: AnyValue,
    span: Span,
    verdicts: Seq<VerdictView>,
)
    ensures
        ({
            let closed = st.close_function(f, name, value, span, verdicts).0;
            &&& closed.module.insts.len() == st.module.insts.len() + 1
            &&& closed.module.insts[st.module.insts.len() as int].block == st.position
            &&& closed.module.insts[st.module.insts.len() as int].op == if name == "main"@ {
                OpView::RetVoid
            } else {
                OpView::Ret { value }
            }
        }),
{
}

/// A function is defined if and only if the verifier has accepted it; one
/// that it refused is an error that carries the verifier's dump, and one
/// that it was not asked about yet is handed back for it to be asked.
pub proof fn lemma_function_defined_once_accepted(
    st: CompilerView,
    f: Function,
    name: Seq<char>,
    value: AnyValue,
    span: Span,
    verdicts: Seq<VerdictView>,
)
    ensures
        ({
            let (closed, result) = st.close_function(f, name, value, span, verdicts);
            if st.answered >= verdicts.len() {
                closed.defs == st.defs && result == Err::<AnyValue, HaltView>(HaltView::AwaitVerdict(f))
            } else {
                match verdicts[st.answered as int] {
                    VerdictView::Passed => closed.defs == st.defs.insert(name, f) && result == Ok::<
                        AnyValue,
                        HaltView,
                    >(f.spec_value()),
                    VerdictView::Failed(dump) => closed.defs == st.defs && result == Err::<AnyValue, HaltView>(
                        HaltView::Error(error_of(ErrorKind::FunctionVerificationFailed, dump, span)),
                    ),
                }
            }
        }),
{
}

/// The value of a relational operator is the conversion to a float of the
/// one-bit result of a comparison, inserted right after that comparison;
/// the comparison is the unordered one of the operator.
pub proof fn lemma_relational_is_cast_of_comparison(st: CompilerView, kind: BinOpKind, lhs: AnyValue, rhs: AnyValue)
    requires
        predicate_of(kind) is Some,
        st.module.insts.len() + 1 <= usize::MAX,
    ensures
        ({
            let (s, value) = st.gen_binop(kind, lhs, rhs);
            let row = st.module.insts.len() as int;
            &&& s.module.insts.len() == row + 2
            &&& value == Ok::<AnyValue, HaltView>(AnyValue::Inst((row + 1) as usize))
            &&& s.module.insts[row].op == OpView::FCmp { predicate: predicate_of(kind)->0, lhs, rhs }
            &&& s.module.insts[row + 1].op == OpView::UiToFp { value: AnyValue::Inst(row as usize), ty: Type::F64 }
            &&& predicate_of(kind)->0 == match kind {
                BinOpKind::Eq => RealPredicate::UEQ,
                BinOpKind::NotEq => RealPredicate::UNE,
                BinOpKind::LessThan => RealPredicate::ULT,
                BinOpKind::LessEq => RealPredicate::ULE,
                BinOpKind::GreaterThan => RealPredicate::UGT,
                _ => RealPredicate::UGE,
            }
        }),
{
}

/// A function that a module declares is declared by every module that the
/// first has grown into.
pub proof fn lemma_declares_extends(before: ModuleView, after: ModuleView, f: Function)
    requires
        declares(before, f),
        module_extends(after, before),
    ensures
        declares(after, f),
{
    let row = choose|row: int| 0 <= row < before.functions.len() && #[trigger] handle_of(before, row) == f;
    assert(before.functions[row] == after.functions[row]);
    assert(handle_of(after, row) == f);
}

/// Growth composes: what has grown out of what has grown out of a state
/// has grown out of that state.
pub proof fn lemma_extends_transitive(a: CompilerView, b: CompilerView, c: CompilerView)
    requires
        b.extends(a),
        c.extends(b),
    ensures
        c.extends(a),
{
}

/// A consistent state stays consistent while its module grows and its
/// table of functions stays as it is.
pub proof fn lemma_consistent_extends(before: CompilerView, after: CompilerView)
    requires
        module_extends(after.module, before.module),
        after.defs == before.defs,
    ensures
        before.consistent() ==> after.consistent(),
{
    if before.consistent() {
        assert forall|name: Seq<char>| after.defs.dom().contains(name) implies declares(
            after.module,
            #[trigger] after.defs[name],
        ) by {
            lemma_declares_extends(before.module, after.module, before.defs[name]);
        }
    }
}

/// Generation only adds: to the module, whose rows stay where they are; to
/// the table of functions, which keeps every name it had; and it keeps the
/// table consistent with the module. A builder that has a position keeps
/// one. The mark of a finished compilation stays as it is: only `compile`
/// sets it.
pub proof fn lemma_gen_extends(st: CompilerView, node: SpecNode, verdicts: Seq<VerdictView>)
    ensures
        gen(st, node, verdicts).0.extends(st),
        st.consistent() ==> gen(st, node, verdicts).0.consistent(),
    decreases node, 0nat,
{
    match node.expr {
        SpecAst::Number(_) => {},
        SpecAst::Ref(_) => {},
        SpecAst::Variable { .. } => {},
        SpecAst::Block(exprs) => {
            lemma_gen_all_extends(st, exprs, exprs.len(), verdicts);
        },
        SpecAst::Call { name, args } => {
            lemma_gen_all_extends(st, args, args.len(), verdicts);
            let (s, values) = gen_all(st, args, args.len(), verdicts);
            if values is Ok {
                lemma_consistent_extends(s, s.gen_call(name, values->Ok_0, node.span).0);
            }
        },
        SpecAst::BinOp { kind, lhs, rhs } => {
            lemma_gen_extends(st, *lhs, verdicts);
            let (s1, l) = gen(st, *lhs, verdicts);
            if l is Ok {
                lemma_gen_extends(s1, *rhs, verdicts);
                let (s2, r) = gen(s1, *rhs, verdicts);
                if r is Ok {
                    let s3 = s2.gen_binop(kind, l->Ok_0, r->Ok_0).0;
                    lemma_consistent_extends(s2, s3);
                    lemma_extends_transitive(s1, s2, s3);
                }
                lemma_extends_transitive(st, s1, gen(st, node, verdicts).0);
            }
        },
        SpecAst::If { condition, then, el } => {
            lemma_gen_extends(st, *condition, verdicts);
            let (s1, c) = gen(st, *condition, verdicts);
            if c is Ok {
                let tested = s1.if_test(c->Ok_0);
                lemma_consistent_extends(s1, tested);
                if s1.position is Some {
                    let current = s1.position->0;
                    let (_, else_block, merge_block) = tested.if_blocks(current);
                    let opened = tested.if_open(s1.next_value(), current);
                    lemma_consistent_extends(tested, opened);
                    lemma_gen_extends(opened, *then, verdicts);
                    let (s2, t) = gen(opened, *then, verdicts);
                    lemma_extends_transitive(tested, opened, s2);
                    if t is Ok && s2.position is Some {
                        let left = s2.if_leave(merge_block, else_block);
                        lemma_consistent_extends(s2, left);
                        let (s3, e) = match el {
                            Some(el) => gen(left, *el, verdicts),
                            None => (left, Ok(float_const(POSITIVE_INFINITY))),
                        };
                        if el is Some {
                            lemma_gen_extends(left, *el->0, verdicts);
                        }
                        lemma_extends_transitive(s2, left, s3);
                        lemma_extends_transitive(tested, s2, s3);
                        if e is Ok && s3.position is Some {
                            let merged = s3.if_leave(merge_block, merge_block);
                            lemma_consistent_extends(s3, merged);
                            let joined = merged.if_join(t->Ok_0, s2.position->0, e->Ok_0, s3.position->0).0;
                            lemma_consistent_extends(merged, joined);
                            lemma_extends_transitive(s3, merged, joined);
                            lemma_extends_transitive(tested, s3, joined);
                        }
                    }
                }
                lemma_extends_transitive(s1, tested, gen(st, node, verdicts).0);
                lemma_extends_transitive(st, s1, gen(st, node, verdicts).0);
            }
        },
        SpecAst::Function { name, params, body } => {
            let (opened, f) = st.open_function(name, params);
            lemma_open_function_extends(st, name, params);
            lemma_gen_extends(opened, *body, verdicts);
            let (s, value) = gen(opened, *body, verdicts);
            lemma_extends_transitive(st, opened, s);
            if value is Ok {
                let (closed, _) = s.close_function(f, name, value->Ok_0, node.span, verdicts);
                lemma_declares_extends(opened.module, s.module, f);
                lemma_declares_extends(s.module, closed.module, f);
                if st.consistent() {
                    assert forall|n: Seq<char>| closed.defs.dom().contains(n) implies declares(
                        closed.module,
                        #[trigger] closed.defs[n],
                    ) by {
                        if closed.defs[n] != f {
                            lemma_declares_extends(s.module, closed.module, s.defs[n]);
                        }
                    }
                }
                lemma_extends_transitive(st, s, closed);
            }
        },
    }
}

/// The start of a function's body is a state that the state before the
/// function has grown into, and its module declares the function.
pub proof fn lemma_open_function_extends(st: CompilerView, name: Seq<char>, params: Seq<Seq<char>>)
    ensures
        st.open_function(name, params).0.extends(st),
        st.consistent() ==> st.open_function(name, params).0.consistent(),
        st.open_function(name, params).0.position is Some,
        declares(st.open_function(name, params).0.module, st.open_function(name, params).1),
{
    let decl = signature_of(name, params);
    let f = st.module.next_function(decl);
    let declared = CompilerView { module: st.module.declare(decl), ..st };
    let n = if f.arity <= params.len() { f.arity as nat } else { params.len() };
    lemma_bind_params_keeps_functions(declared, f, params, n);
    let (opened, _) = st.open_function(name, params);
    assert(handle_of(opened.module, st.module.functions.len() as int) == f);
    lemma_consistent_extends(st, CompilerView { defs: st.defs, ..opened });
}

/// What `lemma_gen_extends` says of one expression, of a list.
pub proof fn lemma_gen_all_extends(st: CompilerView, nodes: Seq<SpecNode>, n: nat, verdicts: Seq<VerdictView>)
    ensures
        gen_all(st, nodes, n, verdicts).0.extends(st),
        st.consistent() ==> gen_all(st, nodes, n, verdicts).0.consistent(),
    decreases nodes, n,
{
    if n == 0 || n > nodes.len() {
    } else {
        lemma_gen_all_extends(st, nodes, (n - 1) as nat, verdicts);
        let (s1, before) = gen_all(st, nodes, (n - 1) as nat, verdicts);
        if before is Ok {
            lemma_gen_extends(s1, nodes[n - 1], verdicts);
            lemma_extends_transitive(st, s1, gen(s1, nodes[n - 1], verdicts).0);
        }
    }
}

/// Where an expression of a list stops, the list stops with it.
pub proof fn lemma_element_halts_list(st: CompilerView, nodes: Seq<SpecNode>, i: nat, verdicts: Seq<VerdictView>)
    requires
        i < nodes.len(),
        gen_all(st, nodes, i, verdicts).1 is Ok,
        gen(gen_all(st, nodes, i, verdicts).0, nodes[i as int], verdicts).1 is Err,
    ensures
        gen_all(st, nodes, nodes.len(), verdicts) == (
            gen(gen_all(st, nodes, i, verdicts).0, nodes[i as int], verdicts).0,
            Err::<Seq<AnyValue>, HaltView>(
                gen(gen_all(st, nodes, i, verdicts).0, nodes[i as int], verdicts).1->Err_0,
            ),
        ),
{
    assert(gen_all(st, nodes, i + 1, verdicts).1 is Err);
    lemma_gen_all_halts(st, nodes, i + 1, nodes.len(), verdicts);
}

/// Where an expression of a block stops, the block stops in the same state
/// for the same reason: an error in any position is the error of the whole.
pub proof fn lemma_element_halts_block(
    st: CompilerView,
    span: Span,
    exprs: Seq<SpecNode>,
    i: nat,
    verdicts: Seq<VerdictView>,
)
    requires
        i < exprs.len(),
        gen_all(st, exprs, i, verdicts).1 is Ok,
        gen(gen_all(st, exprs, i, verdicts).0, exprs[i as int], verdicts).1 is Err,
    ensures
        gen(st, SpecNode { span, expr: SpecAst::Block(exprs) }, verdicts) == gen(
            gen_all(st, exprs, i, verdicts).0,
            exprs[i as int],
            verdicts,
        ),
{
    lemma_element_halts_list(st, exprs, i, verdicts);
}

/// Where an argument of a call stops, the call stops in the same state for
/// the same reason.
pub proof fn lemma_argument_halts_call(
    st: CompilerView,
    span: Span,
    name: Seq<char>,
    args: Seq<SpecNode>,
    i: nat,
    verdicts: Seq<VerdictView>,
)
    requires
        i < args.len(),
        gen_all(st, args, i, verdicts).1 is Ok,
        gen(gen_all(st, args, i, verdicts).0, args[i as int], verdicts).1 is Err,
    ensures
        gen(st, SpecNode { span, expr: SpecAst::Call { name, args } }, verdicts) == gen(
            gen_all(st, args, i, verdicts).0,
            args[i as int],
            verdicts,
        ),
{
    lemma_element_halts_list(st, args, i, verdicts);
}

/// Where an operand stops, the binary operation stops in the same state for
/// the same reason: the left operand first, the right one in the state that
/// the left one led to.
pub proof fn lemma_operand_halts_binop(
    st: CompilerView,
    span: Span,
    kind: BinOpKind,
    lhs: SpecNode,
    rhs: SpecNode,
    verdicts: Seq<VerdictView>,
)
    ensures
        ({
            let node = SpecNode { span, expr: SpecAst::BinOp { kind, lhs: Box::new(lhs), rhs: Box::new(rhs) } };
            let (s1, l) = gen(st, lhs, verdicts);
            &&& l is Err ==> gen(st, node, verdicts) == gen(st, lhs, verdicts)
            &&& l is Ok && gen(s1, rhs, verdicts).1 is Err ==> gen(st, node, verdicts) == gen(s1, rhs, verdicts)
        }),
{
}

/// Where the condition or a branch of a conditional stops, the conditional
/// stops in the same state for the same reason.
pub proof fn lemma_part_halts_if(
    st: CompilerView,
    span: Span,
    condition: SpecNode,
    then: SpecNode,
    el: Option<SpecNode>,
    verdicts: Seq<VerdictView>,
)
    ensures
        ({
            let node = SpecNode {
                span,
                expr: SpecAst::If {
                    condition: Box::new(condition),
                    then: Box::new(then),
                    el: match el {
                        Some(e) => Some(Box::new(e)),
                        None => None,
                    },
                },
            };
            let (s1, c) = gen(st, condition, verdicts);
            &&& c is Err ==> gen(st, node, verdicts) == gen(st, condition, verdicts)
            &&& c is Ok && s1.position is Some ==> {
                let tested = s1.if_test(c->Ok_0);
                let current = s1.position->0;
                let (_, else_block, merge_block) = tested.if_blocks(current);
                let in_then = gen(tested.if_open(s1.next_value(), current), then, verdicts);
                &&& in_then.1 is Err ==> gen(st, node, verdicts) == in_then
                &&& in_then.1 is Ok && in_then.0.position is Some && el is Some ==> {
                    let in_else = gen(in_then.0.if_leave(merge_block, else_block), el->0, verdicts);
                    in_else.1 is Err ==> gen(st, node, verdicts) == in_else
                }
            }
        }),
{
}

/// Where the body of a function stops, the function stops for the same
/// reason, in the state in which the body stopped but for the variables,
/// which are discarded; the function is not defined.
pub proof fn lemma_body_halts_function(
    st: CompilerView,
    span: Span,
    name: Seq<char>,
    params: Seq<Seq<char>>,
    body: SpecNode,
    verdicts: Seq<VerdictView>,
)
    requires
        gen(st.open_function(name, params).0, body, verdicts).1 is Err,
    ensures
        gen(st, SpecNode { span, expr: SpecAst::Function { name, params, body: Box::new(body) } }, verdicts)
            == (
            gen(st.open_function(name, params).0, body, verdicts).0.leave_scope(),
            gen(st.open_function(name, params).0, body, verdicts).1,
        ),
{
}

/// When a function has ended, however it ended, no variable is in scope:
/// the parameters are bound while the body is generated, and no longer. A
/// reference that follows the function finds none of them.
pub proof fn lemma_function_leaves_no_variable(
    st: CompilerView,
    span: Span,
    name: Seq<char>,
    params: Seq<Seq<char>>,
    body: SpecNode,
    verdicts: Seq<VerdictView>,
    other: Seq<char>,
    at: Span,
)
    ensures
        ({
            let node = SpecNode { span, expr: SpecAst::Function { name, params, body: Box::new(body) } };
            let after = gen(st, node, verdicts).0;
            &&& after.vars == Map::<Seq<char>, AnyValue>::empty()
            &&& other != "_"@ ==> gen(after, SpecNode { span: at, expr: SpecAst::Ref(other) }, verdicts) == (
                after,
                Err::<AnyValue, HaltView>(HaltView::Error(error_of(ErrorKind::UndefinedVariable, other, at))),
            )
        }),
{
}

/// Where generation gives a value, the verifier has accepted every function
/// that was completed on the way: a function that it refused, or was not
/// asked about, stops the generation.
pub proof fn lemma_gen_ok_was_accepted(st: CompilerView, node: SpecNode, verdicts: Seq<VerdictView>)
    ensures
        gen(st, node, verdicts).1 is Ok ==> gen(st, node, verdicts).0.accepted_since(st, verdicts),
    decreases node, 0nat,
{
    match node.expr {
        SpecAst::Number(_) => {},
        SpecAst::Ref(_) => {},
        SpecAst::Variable { .. } => {},
        SpecAst::Block(exprs) => {
            lemma_gen_all_ok_was_accepted(st, exprs, exprs.len(), verdicts);
        },
        SpecAst::Call { name, args } => {
            lemma_gen_all_ok_was_accepted(st, args, args.len(), verdicts);
        },
        SpecAst::BinOp { kind, lhs, rhs } => {
            lemma_gen_ok_was_accepted(st, *lhs, verdicts);
            let (s1, l) = gen(st, *lhs, verdicts);
            if l is Ok {
                lemma_gen_ok_was_accepted(s1, *rhs, verdicts);
            }
        },
        SpecAst::If { condition, then, el } => {
            lemma_gen_ok_was_accepted(st, *condition, verdicts);
            let (s1, c) = gen(st, *condition, verdicts);
            if c is Ok && s1.position is Some {
                let tested = s1.if_test(c->Ok_0);
                let current = s1.position->0;
                let (_, else_block, merge_block) = tested.if_blocks(current);
                let opened = tested.if_open(s1.next_value(), current);
                lemma_gen_ok_was_accepted(opened, *then, verdicts);
                let (s2, t) = gen(opened, *then, verdicts);
                if t is Ok && s2.position is Some && el is Some {
                    lemma_gen_ok_was_accepted(s2.if_leave(merge_block, else_block), *el->0, verdicts);
                }
            }
        },
        SpecAst::Function { name, params, body } => {
            let (opened, f) = st.open_function(name, params);
            let n = if f.arity <= params.len() { f.arity as nat } else { params.len() };
            lemma_bind_params_keeps_functions(
                CompilerView { module: st.module.declare(signature_of(name, params)), ..st },
                f,
                params,
                n,
            );
            lemma_gen_ok_was_accepted(opened, *body, verdicts);
        },
    }
}

/// What `lemma_gen_ok_was_accepted` says of one expression, of a list.
pub proof fn lemma_gen_all_ok_was_accepted(st: CompilerView, nodes: Seq<SpecNode>, n: nat, verdicts: Seq<VerdictView>)
    ensures
        gen_all(st, nodes, n, verdicts).1 is Ok ==> gen_all(st, nodes, n, verdicts).0.accepted_since(st, verdicts),
    decreases nodes, n,
{
    if n == 0 || n > nodes.len() {
    } else {
        lemma_gen_all_ok_was_accepted(st, nodes, (n - 1) as nat, verdicts);
        let (s1, before) = gen_all(st, nodes, (n - 1) as nat, verdicts);
        if before is Ok {
            lemma_gen_ok_was_accepted(s1, nodes[n - 1], verdicts);
        }
    }
}

/// A program counts as compiled only if the verifier has accepted every
/// one of its functions and, last, the module; the standard library is
/// defined then.
pub proof fn lemma_compiled_was_accepted(st: CompilerView, node: SpecNode, verdicts: Seq<VerdictView>)
    ensures
        ({
            let (s, result) = compile(st, node, verdicts);
            &&& s.compiled <==> result == Ok::<Progress, CompilerErrorView>(
                Progress::Compiled,
            )
            &&& s.compiled ==> 0 < s.answered <= verdicts.len() && forall|i: int|
                0 <= i < s.answered ==> #[trigger] verdicts[i] is Passed
            &&& s.defs.dom().contains("print_number"@)
        }),
{
    let started = CompilerView { answered: 0, compiled: false, ..st.init_std() };
    lemma_gen_ok_was_accepted(started, node, verdicts);
    lemma_gen_extends(started, node, verdicts);
    lemma_gen_keeps_flag(started, node, verdicts);
}

/// A compilation that fails leaves nothing of the program: the module
/// holds the declaration of the standard library and nothing else (no
/// function of the program, no block, no instruction), only the standard
/// library is defined, and the program does not count as compiled. The
/// same holds where the program holds what is not supported.
pub proof fn lemma_failed_compile_leaves_nothing(st: CompilerView, node: SpecNode, verdicts: Seq<VerdictView>)
    requires
        compile(st, node, verdicts).1 is Err || compile(st, node, verdicts).1 matches Ok(Progress::Unsupported(_)),
    ensures
        ({
            let s = compile(st, node, verdicts).0;
            &&& s == st.abandoned()
            &&& s.module.name == st.module.name
            &&& s.module.functions == seq![print_number_decl()]
            &&& s.module.blocks.len() == 0
            &&& s.module.insts.len() == 0
            &&& s.module.incoming.len() == 0
            &&& s.module.names.len() == 0
            &&& s.module.find_function("main"@) is None
            &&& s.defs == Map::<Seq<char>, Function>::empty().insert("print_number"@, Function { index: 0, arity: 1 })
            &&& s.vars == Map::<Seq<char>, AnyValue>::empty()
            &&& s.position is None
            &&& !s.compiled
        }),
{
    let s = st.abandoned();
    assert(s.module.functions =~= seq![print_number_decl()]);
    reveal_strlit("main");
    reveal_strlit("print_number");
    assert("main"@ != "print_number"@) by {
        assert("main"@.len() == 4);
        assert("print_number"@.len() == 12);
    }
    assert forall|i: int| 0 <= i < s.module.functions.len() implies s.module.functions[i].name != Some("main"@) by {}
}

/// Generation does not touch the mark of a finished compilation.
pub proof fn lemma_gen_keeps_flag(st: CompilerView, node: SpecNode, verdicts: Seq<VerdictView>)
    ensures
        gen(st, node, verdicts).0.compiled == st.compiled,
    decreases node, 0nat,
{
    match node.expr {
        SpecAst::Number(_) => {},
        SpecAst::Ref(_) => {},
        SpecAst::Variable { .. } => {},
        SpecAst::Block(exprs) => {
            lemma_gen_all_keeps_flag(st, exprs, exprs.len(), verdicts);
        },
        SpecAst::Call { name, args } => {
            lemma_gen_all_keeps_flag(st, args, args.len(), verdicts);
        },
        SpecAst::BinOp { kind, lhs, rhs } => {
            lemma_gen_keeps_flag(st, *lhs, verdicts);
            let (s1, l) = gen(st, *lhs, verdicts);
            if l is Ok {
                lemma_gen_keeps_flag(s1, *rhs, verdicts);
            }
        },
        SpecAst::If { condition, then, el } => {
            lemma_gen_keeps_flag(st, *condition, verdicts);
            let (s1, c) = gen(st, *condition, verdicts);
            if c is Ok && s1.position is Some {
                let tested = s1.if_test(c->Ok_0);
                let current = s1.position->0;
                let (_, else_block, merge_block) = tested.if_blocks(current);
                let opened = tested.if_open(s1.next_value(), current);
                lemma_gen_keeps_flag(opened, *then, verdicts);
                let (s2, t) = gen(opened, *then, verdicts);
                if t is Ok && s2.position is Some && el is Some {
                    lemma_gen_keeps_flag(s2.if_leave(merge_block, else_block), *el->0, verdicts);
                }
            }
        },
        SpecAst::Function { name, params, body } => {
            let (opened, f) = st.open_function(name, params);
            let n = if f.arity <= params.len() { f.arity as nat } else { params.len() };
            lemma_bind_params_keeps_functions(
                CompilerView { module: st.module.declare(signature_of(name, params)), ..st },
                f,
                params,
                n,
            );
            lemma_gen_keeps_flag(opened, *body, verdicts);
        },
    }
}

/// What `lemma_gen_keeps_flag` says of one expression, of a list.
pub proof fn lemma_gen_all_keeps_flag(st: CompilerView, nodes: Seq<SpecNode>, n: nat, verdicts: Seq<VerdictView>)
    ensures
        gen_all(st, nodes, n, verdicts).0.compiled == st.compiled,
    decreases nodes, n,
{
    if n == 0 || n > nodes.len() {
    } else {
        lemma_gen_all_keeps_flag(st, nodes, (n - 1) as nat, verdicts);
        let (s1, before) = gen_all(st, nodes, (n - 1) as nat, verdicts);
        if before is Ok {
            lemma_gen_keeps_flag(s1, nodes[n - 1], verdicts);
        }
    }
}

} // verus!
