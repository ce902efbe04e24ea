//! What the code generator does, as a function on mathematical values.
//!
//! The generator's state is the module built so far, the builder's
//! position, the two symbol tables, and how many of the verifier's answers
//! have been used. `gen` says, for a state and a tree, which state results
//! and what comes out: a value, or the reason why generation stopped.

use vstd::prelude::*;
use crate::parser::ast::{BinOpKind, SpecAst, SpecNode};
use crate::backend::analysis::VerdictView;
use crate::backend::basic_block::BasicBlock;
use crate::backend::builder::{call_check, BuilderError, RealPredicate};
use crate::backend::module::{BinaryKind, FunctionDeclView, InstView, ModuleView, OpView};
use crate::backend::types::Type;
use crate::backend::value::{AnyValue, Function, Phi};
use crate::compiler::error::{error_of, CompilerErrorView, ErrorKind};
use crate::span::Span;

verus! {

/// Bit pattern of the float `0.0`.
pub const ZERO: u64 = 0;

/// Bit pattern of the float positive infinity, the value of a conditional
/// without an `else` whose condition does not hold.
pub const POSITIVE_INFINITY: u64 = 0x7FF0_0000_0000_0000;

/// The generator's state.
#[verifier::ext_equal]
pub struct CompilerView {
    pub module: ModuleView,
    pub position: Option<BasicBlock>,
    pub vars: Map<Seq<char>, AnyValue>,
    pub defs: Map<Seq<char>, Function>,
    pub answered: nat,
    /// Whether the last compilation ended with the module accepted.
    pub compiled: bool,
}

/// Why generation stopped.
pub enum HaltView {
    /// The program is wrong.
    Error(CompilerErrorView),
    /// The function is complete, and the verifier's answer about it is not
    /// at hand.
    AwaitVerdict(Function),
    /// The tree holds, at `Span`, something that cannot be generated: a
    /// binding without parameters, or a conditional outside any function.
    Unsupported(Span),
}

/// How far a compilation has come.
#[derive(Clone, Copy, Debug, PartialEq, Eq, Structural)]
pub enum Progress {
    /// Every function and the module have been generated and accepted.
    Compiled,
    /// The function has been generated; the verifier's answer about it is
    /// needed to go on.
    VerifyFunction(Function),
    /// All has been generated; the verifier's answer about the module is
    /// needed to finish.
    VerifyModule,
    /// The tree holds, at the span, something that cannot be generated.
    Unsupported(Span),
}

/// A state and what generation gave in it.
pub type Generated = (CompilerView, Result<AnyValue, HaltView>);

/// A state and the values that a list of expressions gave in it.
pub type GeneratedAll = (CompilerView, Result<Seq<AnyValue>, HaltView>);

/// The constant of the language's one value type with the given bits.
pub open spec fn float_const(bits: u64) -> AnyValue {
    AnyValue::ConstReal { ty: Type::F64, bits }
}

/// The comparison that a relational operator stands for; `None` for the
/// arithmetic operators.
pub open spec fn predicate_of(kind: BinOpKind) -> Option<RealPredicate> {
    match kind {
        BinOpKind::Eq => Some(RealPredicate::UEQ),
        BinOpKind::NotEq => Some(RealPredicate::UNE),
        BinOpKind::GreaterThan => Some(RealPredicate::UGT),
        BinOpKind::GreaterEq => Some(RealPredicate::UGE),
        BinOpKind::LessThan => Some(RealPredicate::ULT),
        BinOpKind::LessEq => Some(RealPredicate::ULE),
        BinOpKind::Add => None,
        BinOpKind::Sub => None,
        BinOpKind::Mul => None,
    }
}

/// The instruction and the result's name of an arithmetic operator.
pub open spec fn arithmetic_of(kind: BinOpKind) -> (BinaryKind, Seq<char>) {
    match kind {
        BinOpKind::Sub => (BinaryKind::FSub, "subtmp"@),
        BinOpKind::Mul => (BinaryKind::FMul, "multmp"@),
        _ => (BinaryKind::FAdd, "addtmp"@),
    }
}

/// The declaration of the function `name` with the given parameter names:
/// `main` takes nothing and returns nothing, whatever parameters it names;
/// any other function takes one float for each parameter and returns one.
pub open spec fn signature_of(name: Seq<char>, params: Seq<Seq<char>>) -> FunctionDeclView {
    if name == "main"@ {
        FunctionDeclView { name: Some(name), ret: Type::Void, params: Seq::empty(), is_var_arg: false }
    } else {
        FunctionDeclView {
            name: Some(name),
            ret: Type::F64,
            params: Seq::new(params.len(), |i: int| Type::F64),
            is_var_arg: false,
        }
    }
}

/// Whether `longer` begins with `shorter`.
pub open spec fn begins_with<T>(longer: Seq<T>, shorter: Seq<T>) -> bool {
    &&& shorter.len() <= longer.len()
    &&& forall|i: int| 0 <= i < shorter.len() ==> #[trigger] shorter[i] == longer[i]
}

/// Whether `after` holds every row of `before`, at the same place.
pub open spec fn module_extends(after: ModuleView, before: ModuleView) -> bool {
    &&& after.name == before.name
    &&& begins_with(after.functions, before.functions)
    &&& begins_with(after.blocks, before.blocks)
    &&& begins_with(after.insts, before.insts)
    &&& begins_with(after.incoming, before.incoming)
    &&& begins_with(after.names, before.names)
}

/// The handle of the function declared in the given row of `module`.
pub open spec fn handle_of(module: ModuleView, row: int) -> Function {
    Function { index: row as usize, arity: module.functions[row].params.len() as usize }
}

/// Whether `f` is the handle of a function declared in `module`.
pub open spec fn declares(module: ModuleView, f: Function) -> bool {
    exists|row: int| 0 <= row < module.functions.len() && #[trigger] handle_of(module, row) == f
}

/// The declaration of the one function of the standard library: it takes
/// a float, prints it, and returns nothing.
pub open spec fn print_number_decl() -> FunctionDeclView {
    FunctionDeclView { name: Some("print_number"@), ret: Type::Void, params: seq![Type::F64], is_var_arg: false }
}

impl CompilerView {
    /// The state of a new generator: a module `main` that holds nothing, no
    /// position, and empty symbol tables.
    pub open spec fn initial() -> CompilerView {
        CompilerView {
            module: ModuleView::empty("main"@),
            position: None,
            vars: Map::empty(),
            defs: Map::empty(),
            answered: 0,
            compiled: false,
        }
    }

    /// The state after the standard library was declared and defined.
    pub open spec fn init_std(self) -> CompilerView {
        CompilerView {
            module: self.module.declare(print_number_decl()),
            defs: self.defs.insert("print_number"@, self.module.next_function(print_number_decl())),
            ..self
        }
    }

    /// Whether every defined function is one that the module declares.
    pub open spec fn consistent(self) -> bool {
        forall|name: Seq<char>| self.defs.dom().contains(name) ==> declares(self.module, #[trigger] self.defs[name])
    }

    /// Whether this state can have come from `before` by generation: the
    /// module has only grown, every function defined then is still defined
    /// under its name, a builder that had a position still has one, no
    /// answer of the verifier was given back, and the mark of a finished
    /// compilation is as it was.
    pub open spec fn extends(self, before: CompilerView) -> bool {
        &&& module_extends(self.module, before.module)
        &&& before.defs.dom().subset_of(self.defs.dom())
        &&& before.position is Some ==> self.position is Some
        &&& before.answered <= self.answered
        &&& self.compiled == before.compiled
    }

    /// Whether the verifier accepted every function that was completed on
    /// the way from the state `before` to this one.
    pub open spec fn accepted_since(self, before: CompilerView, verdicts: Seq<VerdictView>) -> bool {
        &&& before.answered <= self.answered
        &&& before.answered <= verdicts.len() ==> self.answered <= verdicts.len()
        &&& forall|i: int| before.answered <= i < self.answered ==> #[trigger] verdicts[i] is Passed
    }

    /// The state that a compilation leaves when it fails: a module of the
    /// same name that holds the declaration of the standard library and
    /// nothing else, no position, no variable, no function defined but the
    /// standard library. Nothing of the program that failed is left.
    pub open spec fn abandoned(self) -> CompilerView {
        (CompilerView {
            module: ModuleView::empty(self.module.name),
            position: None,
            vars: Map::empty(),
            defs: Map::empty(),
            answered: 0,
            compiled: false,
        }).init_std()
    }

    /// The state after the instruction `op`, named `name`, was inserted at
    /// the builder's position.
    pub open spec fn emit(self, name: Option<Seq<char>>, op: OpView) -> CompilerView {
        CompilerView { module: self.module.emit(InstView { block: self.position, name, op }), ..self }
    }

    /// The value of the instruction that `emit` inserts.
    pub open spec fn next_value(self) -> AnyValue {
        self.module.next_value()
    }

    /// The state after `n` parameters of `f` were named and bound, in order,
    /// starting from no variable at all.
    pub open spec fn bind_params(self, f: Function, params: Seq<Seq<char>>, n: nat) -> CompilerView
        decreases n,
    {
        if n == 0 {
            CompilerView { vars: Map::empty(), ..self }
        } else {
            let before = self.bind_params(f, params, (n - 1) as nat);
            let param = AnyValue::Param { function: f.index, index: (n - 1) as usize };
            CompilerView {
                module: before.module.set_name(param, params[n - 1]),
                vars: before.vars.insert(params[n - 1], param),
                ..before
            }
        }
    }

    /// The state at the start of the body of the function `name`, and the
    /// function: it is declared, its parameters are the only variables, and
    /// the builder stands in its entry block.
    pub open spec fn open_function(self, name: Seq<char>, params: Seq<Seq<char>>) -> (CompilerView, Function) {
        let decl = signature_of(name, params);
        let f = self.module.next_function(decl);
        let declared = CompilerView { module: self.module.declare(decl), ..self };
        let bound = declared.bind_params(f, params, if f.arity <= params.len() { f.arity as nat } else { params.len() });
        let entry = bound.module.next_block(f);
        (
            CompilerView {
                module: bound.module.append_block("entry"@, f),
                position: Some(entry),
                ..bound
            },
            f,
        )
    }

    /// The state once a function has ended, however it ended: its variables
    /// are discarded, and nothing else is in scope.
    pub open spec fn leave_scope(self) -> CompilerView {
        CompilerView { vars: Map::empty(), ..self }
    }

    /// What the function `f`, named `name` and read at `span`, comes to once
    /// its body gave `value` in this state: it returns, its variables are
    /// discarded, the verifier's next answer is taken, and only if that is
    /// favourable the function is defined.
    pub open spec fn close_function(
        self,
        f: Function,
        name: Seq<char>,
        value: AnyValue,
        span: Span,
        verdicts: Seq<VerdictView>,
    ) -> Generated {
        let returned = (if name == "main"@ {
            self.emit(None, OpView::RetVoid)
        } else {
            self.emit(None, OpView::Ret { value })
        }).leave_scope();
        if returned.answered >= verdicts.len() {
            (returned, Err(HaltView::AwaitVerdict(f)))
        } else {
            let answered = CompilerView { answered: returned.answered + 1, ..returned };
            match verdicts[returned.answered as int] {
                VerdictView::Failed(dump) => (
                    answered,
                    Err(HaltView::Error(error_of(ErrorKind::FunctionVerificationFailed, dump, span))),
                ),
                VerdictView::Passed => (
                    CompilerView { defs: answered.defs.insert(name, f), ..answered },
                    Ok(f.spec_value()),
                ),
            }
        }
    }

    /// A reference to `name` read at `span`.
    pub open spec fn gen_ref(self, name: Seq<char>, span: Span) -> Generated {
        if name == "_"@ {
            (self, Err(HaltView::Error(error_of(ErrorKind::IllegalDiscardReference, name, span))))
        } else if self.vars.dom().contains(name) {
            (self, Ok(self.vars[name]))
        } else {
            (self, Err(HaltView::Error(error_of(ErrorKind::UndefinedVariable, name, span))))
        }
    }

    /// A call of `name` read at `span`, once the arguments gave `args` and
    /// led to this state.
    pub open spec fn gen_call(self, name: Seq<char>, args: Seq<AnyValue>, span: Span) -> Generated {
        if !self.defs.dom().contains(name) {
            (self, Err(HaltView::Error(error_of(ErrorKind::UndefinedFunction, name, span))))
        } else {
            let f = self.defs[name];
            match call_check(f, args.len()) {
                Some(BuilderError::WrongArgumentsCount { expected, actual }) => (
                    self,
                    Err(HaltView::Error(error_of(ErrorKind::ArityMismatch { expected, actual }, name, span))),
                ),
                None => (self.emit(None, OpView::Call { callee: f, args }), Ok(self.next_value())),
            }
        }
    }

    /// The value of a block read at `span` whose expressions gave `values`.
    pub open spec fn gen_block(self, values: Seq<AnyValue>, span: Span) -> Generated {
        if values.len() == 0 {
            (self, Err(HaltView::Error(error_of(ErrorKind::EmptyBlock, Seq::empty(), span))))
        } else {
            (self, Ok(values.last()))
        }
    }

    /// A binary operation on the values `lhs` and `rhs`. An arithmetic
    /// operator is one instruction. A relational operator is a comparison
    /// that holds also where an operand is not a number, followed by the
    /// conversion of its one-bit result to a float: 0.0 or 1.0.
    pub open spec fn gen_binop(self, kind: BinOpKind, lhs: AnyValue, rhs: AnyValue) -> Generated {
        match predicate_of(kind) {
            Some(predicate) => {
                let compared = self.emit(Some("cmptmp"@), OpView::FCmp { predicate, lhs, rhs });
                let cast = compared.emit(
                    Some("booltmp"@),
                    OpView::UiToFp { value: self.next_value(), ty: Type::F64 },
                );
                (cast, Ok(compared.next_value()))
            },
            None => {
                let (op, name) = arithmetic_of(kind);
                (self.emit(Some(name), OpView::Binary { kind: op, lhs, rhs }), Ok(self.next_value()))
            },
        }
    }

    /// The state after the test of a conditional on `cond`: the comparison
    /// of `cond` with zero. Its value is `self.next_value()`.
    pub open spec fn if_test(self, cond: AnyValue) -> CompilerView {
        self.emit(Some("ifcond"@), OpView::FCmp { predicate: RealPredicate::ONE, lhs: cond, rhs: float_const(ZERO) })
    }

    /// The blocks `then`, `else` and `ifmerge` that a conditional opens in
    /// the function of `current`.
    pub open spec fn if_blocks(self, current: BasicBlock) -> (BasicBlock, BasicBlock, BasicBlock) {
        let f = current.function;
        let m1 = self.module.append_block("then"@, f);
        let m2 = m1.append_block("else"@, f);
        (self.module.next_block(f), m1.next_block(f), m2.next_block(f))
    }

    /// The state at the start of the `then` branch: the three blocks exist,
    /// `current` ends in the branch on `test`, and the builder stands in
    /// `then`.
    pub open spec fn if_open(self, test: AnyValue, current: BasicBlock) -> CompilerView {
        let f = current.function;
        let (then_block, else_block, merge_block) = self.if_blocks(current);
        let module = self.module.append_block("then"@, f).append_block("else"@, f).append_block(
            "ifmerge"@,
            f,
        );
        let branched = CompilerView { module, ..self }.emit(
            None,
            OpView::CondBr { cond: test, then_block, else_block },
        );
        CompilerView { position: Some(then_block), ..branched }
    }

    /// The state after a branch of a conditional ended: it jumps to `merge`,
    /// and the builder moves to `next`.
    pub open spec fn if_leave(self, merge: BasicBlock, next: BasicBlock) -> CompilerView {
        CompilerView { position: Some(next), ..self.emit(None, OpView::Br { dest: merge }) }
    }

    /// The phi node that joins the two branches, with one edge from the
    /// block in which each branch ended. The builder stands in the merge
    /// block when this is called.
    pub open spec fn if_join(
        self,
        then_value: AnyValue,
        then_end: BasicBlock,
        else_value: AnyValue,
        else_end: BasicBlock,
    ) -> Generated {
        let phi = Phi { index: self.module.insts.len() as usize };
        let joined = self.emit(Some("iftmp"@), OpView::Phi { ty: Type::F64 });
        (
            CompilerView {
                module: joined.module.add_incoming(phi, seq![(then_value, then_end), (else_value, else_end)]),
                ..joined
            },
            Ok(phi.spec_value()),
        )
    }
}

/// What generating `node` in the state `st` gives, where the verifier
/// answers with `verdicts`, in the order in which functions are completed.
pub open spec fn gen(st: CompilerView, node: SpecNode, verdicts: Seq<VerdictView>) -> Generated
    decreases node, 0nat,
{
    match node.expr {
        SpecAst::Number(bits) => (st, Ok(float_const(bits))),
        SpecAst::Ref(name) => st.gen_ref(name, node.span),
        SpecAst::Variable { .. } => (st, Err(HaltView::Unsupported(node.span))),
        SpecAst::Block(exprs) => {
            let (s, values) = gen_all(st, exprs, exprs.len(), verdicts);
            match values {
                Err(halt) => (s, Err(halt)),
                Ok(values) => s.gen_block(values, node.span),
            }
        },
        SpecAst::Call { name, args } => {
            let (s, values) = gen_all(st, args, args.len(), verdicts);
            match values {
                Err(halt) => (s, Err(halt)),
                Ok(values) => s.gen_call(name, values, node.span),
            }
        },
        SpecAst::BinOp { kind, lhs, rhs } => {
            let (s1, l) = gen(st, *lhs, verdicts);
            match l {
                Err(halt) => (s1, Err(halt)),
                Ok(l) => {
                    let (s2, r) = gen(s1, *rhs, verdicts);
                    match r {
                        Err(halt) => (s2, Err(halt)),
                        Ok(r) => s2.gen_binop(kind, l, r),
                    }
                },
            }
        },
        SpecAst::If { condition, then, el } => {
            let (s1, c) = gen(st, *condition, verdicts);
            match c {
                Err(halt) => (s1, Err(halt)),
                Ok(c) => {
                    let tested = s1.if_test(c);
                    match s1.position {
                        None => (tested, Err(HaltView::Unsupported(node.span))),
                        Some(current) => {
                            let (_, else_block, merge_block) = tested.if_blocks(current);
                            let (s2, t) = gen(tested.if_open(s1.next_value(), current), *then, verdicts);
                            match (t, s2.position) {
                                (Err(halt), _) => (s2, Err(halt)),
                                (Ok(_), None) => (s2, Err(HaltView::Unsupported(node.span))),
                                (Ok(t), Some(then_end)) => {
                                    let (s3, e) = match el {
                                        Some(el) => gen(s2.if_leave(merge_block, else_block), *el, verdicts),
                                        None => (s2.if_leave(merge_block, else_block), Ok(float_const(POSITIVE_INFINITY))),
                                    };
                                    match (e, s3.position) {
                                        (Err(halt), _) => (s3, Err(halt)),
                                        (Ok(_), None) => (s3, Err(HaltView::Unsupported(node.span))),
                                        (Ok(e), Some(else_end)) => s3.if_leave(merge_block, merge_block).if_join(
                                            t,
                                            then_end,
                                            e,
                                            else_end,
                                        ),
                                    }
                                },
                            }
                        },
                    }
                },
            }
        },
        SpecAst::Function { name, params, body } => {
            let (opened, f) = st.open_function(name, params);
            let (s, value) = gen(opened, *body, verdicts);
            match value {
                Err(halt) => (s.leave_scope(), Err(halt)),
                Ok(value) => s.close_function(f, name, value, node.span, verdicts),
            }
        },
    }
}

/// What generating the first `n` of `nodes`, in order, gives in the state
/// `st`: the values of all of them, or the reason why the first that
/// stopped did so.
pub open spec fn gen_all(st: CompilerView, nodes: Seq<SpecNode>, n: nat, verdicts: Seq<VerdictView>) -> GeneratedAll
    decreases nodes, n,
{
    if n == 0 || n > nodes.len() {
        (st, Ok(Seq::empty()))
    } else {
        let (s1, before) = gen_all(st, nodes, (n - 1) as nat, verdicts);
        match before {
            Err(halt) => (s1, Err(halt)),
            Ok(values) => {
                let (s2, value) = gen(s1, nodes[n - 1], verdicts);
                match value {
                    Err(halt) => (s2, Err(halt)),
                    Ok(value) => (s2, Ok(values.push(value))),
                }
            },
        }
    }
}

/// What compiling the program `node` in the state `st` gives, where the
/// verifier answers with `verdicts`: first about each function, in the
/// order in which they are completed, then about the module. The standard
/// library is declared first. Where the answers run out, the result says
/// which one is needed next, and the state holds what was generated so
/// far, for the verifier to look at. Where the compilation fails, or meets
/// what is not supported, nothing of the program is left in the state.
pub open spec fn compile(st: CompilerView, node: SpecNode, verdicts: Seq<VerdictView>) -> (
    CompilerView,
    Result<Progress, CompilerErrorView>,
) {
    let (s, value) = gen(CompilerView { answered: 0, compiled: false, ..st.init_std() }, node, verdicts);
    match value {
        Err(HaltView::Error(e)) => (st.abandoned(), Err(e)),
        Err(HaltView::AwaitVerdict(f)) => (s, Ok(Progress::VerifyFunction(f))),
        Err(HaltView::Unsupported(span)) => (st.abandoned(), Ok(Progress::Unsupported(span))),
        Ok(_) => if s.answered >= verdicts.len() {
            (s, Ok(Progress::VerifyModule))
        } else {
            match verdicts[s.answered as int] {
                VerdictView::Failed(diagnostic) => (
                    st.abandoned(),
                    Err(error_of(ErrorKind::ModuleVerificationFailed, diagnostic, node.span)),
                ),
                VerdictView::Passed => (
                    CompilerView { answered: s.answered + 1, compiled: true, ..s },
                    Ok(Progress::Compiled),
                ),
            }
        },
    }
}

/// Once a list has stopped, generating more of it changes nothing.
pub proof fn lemma_gen_all_halts(st: CompilerView, nodes: Seq<SpecNode>, k: nat, n: nat, verdicts: Seq<VerdictView>)
    requires
        k <= n <= nodes.len(),
        gen_all(st, nodes, k, verdicts).1 is Err,
    ensures
        gen_all(st, nodes, n, verdicts) == gen_all(st, nodes, k, verdicts),
    decreases n,
{
    if n > k {
        lemma_gen_all_halts(st, nodes, k, (n - 1) as nat, verdicts);
    }
}

} // verus!
