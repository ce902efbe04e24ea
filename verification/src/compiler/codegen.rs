//! The code generator.
//!
//! The generator walks a syntax tree and fills a module. It does not verify
//! what it generates: that is the work of the backend's verifier, which is
//! asked about every function once it is complete, and about the module at
//! the end. Its answers are handed in as a list, in the order in which they
//! are asked for. Where the list ends, generation stops and says which
//! answer is needed next; the caller gets that answer and starts again with
//! the longer list. Generation is a function of the tree and the answers,
//! so that starting again leads through the same code to the point where it
//! stopped.

use vstd::prelude::*;
use vstd::string::StringExecFns;
use crate::backend::analysis::{verdicts_view, Verdict, VerdictView};
use crate::backend::basic_block::BasicBlock;
use crate::backend::builder::{Builder, BuilderError, RealPredicate};
use crate::backend::context::Context;
use crate::backend::module::{Module, OpView};
use crate::backend::transformation::{FunctionPassManager, Pass};
use crate::backend::types::Type;
use crate::backend::value::{AnyValue, Function};
use crate::compiler::environment::Environment;
use crate::compiler::error::{CompilerError, CompilerErrorView, ErrorKind};
use crate::compiler::laws::lemma_gen_extends;
use crate::compiler::model::{
    compile, gen, gen_all, lemma_gen_all_halts, signature_of, CompilerView, HaltView, Progress,
    POSITIVE_INFINITY, ZERO,
};
use crate::parser::ast::{names_view, nodes_view, Ast, AstNode, BinOpKind};
use crate::span::Span;

verus! {

/// Why generation stopped.
#[derive(Debug, PartialEq, Eq)]
pub enum Halt {
    /// The program is wrong.
    Error(CompilerError),
    /// The function is complete, and the verifier's answer about it is not
    /// at hand.
    AwaitVerdict(Function),
    /// The tree holds, at the span, something that cannot be generated: a
    /// binding without parameters, or a conditional outside any function.
    Unsupported(Span),
}

impl View for Halt {
    type V = HaltView;

    open spec fn view(&self) -> HaltView {
        match self {
            Halt::Error(e) => HaltView::Error(e@),
            Halt::AwaitVerdict(f) => HaltView::AwaitVerdict(*f),
            Halt::Unsupported(span) => HaltView::Unsupported(*span),
        }
    }
}

/// The model of what generating one expression gave.
pub open spec fn value_view(r: Result<AnyValue, Halt>) -> Result<AnyValue, HaltView> {
    match r {
        Ok(v) => Ok(v),
        Err(h) => Err(h@),
    }
}

/// The model of what generating a list of expressions gave.
pub open spec fn values_view(r: Result<Vec<AnyValue>, Halt>) -> Result<Seq<AnyValue>, HaltView> {
    match r {
        Ok(v) => Ok(v@),
        Err(h) => Err(h@),
    }
}

/// The model of what a compilation gave.
pub open spec fn progress_view(r: Result<Progress, CompilerError>) -> Result<Progress, CompilerErrorView> {
    match r {
        Ok(p) => Ok(p),
        Err(e) => Err(e@),
    }
}

/// The code generator: the module it fills, the builder it inserts with,
/// and its symbol tables.
pub struct Compiler {
    pub(crate) builder: Builder,
    pub(crate) module: Module,
    pub(crate) context: Context,
    pub(crate) env: Environment,
    pub(crate) answered: usize,
    pub(crate) compiled: bool,
}

/// `n` times the type `ty`.
fn repeat_type(ty: Type, n: usize) -> (types: Vec<Type>)
    ensures
        types@ == Seq::new(n as nat, |i: int| ty),
{
    let mut types: Vec<Type> = Vec::new();
    while types.len() < n
        invariant
            types.len() <= n,
            types@ == Seq::new(types.len() as nat, |i: int| ty),
        decreases n - types.len(),
    {
        types.push(ty);
    }
    types
}

impl Compiler {
    /// The generator's state.
    pub closed spec fn view(&self) -> CompilerView {
        CompilerView {
            module: self.module@,
            position: self.builder.position,
            vars: self.env.spec_vars(),
            defs: self.env.spec_defs(),
            answered: self.answered as nat,
            compiled: self.compiled,
        }
    }

    /// A generator in its initial state, with the fixed pipeline of local
    /// optimizations.
    pub fn new() -> (c: Compiler)
        ensures
            c@ == CompilerView::initial(),
    {
        let mut context = Context::new();
        let module = context.create_module("main");
        let builder = context.create_builder();
        Compiler { builder, module, context, env: Environment::new(), answered: 0, compiled: false }
    }

    /// The optimizations that are run over each function that the verifier
    /// has accepted, in their order.
    pub fn function_optimizer(&mut self) -> (m: FunctionPassManager)
        ensures
            final(self)@ == old(self)@,
            m@ == seq![Pass::InstructionCombining, Pass::Reassociate, Pass::Gvn, Pass::CfgSimplification],
    {
        let m = self.module.function_pass_manager_builder()
            .add_instruction_combination_pass()
            .add_reassociate_pass()
            .add_gvn_pass()
            .add_cfg_simplification_pass()
            .build();
        assert(m@ =~= seq![Pass::InstructionCombining, Pass::Reassociate, Pass::Gvn, Pass::CfgSimplification]);
        m
    }

    /// Declares the standard library in the module and defines it in the
    /// table of functions, so that it can be called before any function of
    /// the program.
    pub fn init_std(&mut self)
        ensures
            final(self)@ == old(self)@.init_std(),
    {
        let params = [self.context.f64_type()];
        let f = self.module.function_prototype(
            Some("print_number"),
            Context::function_type(self.context.void_type(), params.as_slice(), false),
        );
        assert(params@ =~= seq![Type::F64]);
        self.env.define(String::from_str("print_number"), f);
    }

    /// Throws away what a failed compilation has generated: the module is
    /// made anew under its name, with the standard library declared and
    /// defined, and nothing else is kept.
    fn abandon(&mut self)
        ensures
            final(self)@ == old(self)@.abandoned(),
    {
        let name = self.module.name.clone();
        self.module = Module::new(name.as_str());
        self.builder = Builder::new();
        self.env = Environment::new();
        self.answered = 0;
        self.compiled = false;
        self.init_std();
    }

    /// Compiles the program `ast`: declares the standard library, generates
    /// the tree, and takes the verifier's answer about the module.
    ///
    /// Where an answer is missing, the result says which, and the module
    /// holds what was generated so far. Where the compilation fails, the
    /// module holds nothing of the program: no function of it is declared
    /// or defined, and only the standard library is.
    pub fn compile(&mut self, ast: &AstNode, verdicts: &Vec<Verdict>) -> (r: Result<Progress, CompilerError>)
        ensures
            (final(self)@, progress_view(r)) == compile(old(self)@, ast@, verdicts_view(verdicts@)),
            r is Err ==> final(self)@ == old(self)@.abandoned(),
            final(self)@.compiled <==> r == Ok::<Progress, CompilerError>(Progress::Compiled),
    {
        self.init_std();
        self.answered = 0;
        self.compiled = false;
        proof {
            // Generation keeps the module's name and leaves the mark of a
            // finished compilation as it is.
            lemma_gen_extends(self@, ast@, verdicts_view(verdicts@));
        }
        match self.codegen(ast, verdicts) {
            Err(Halt::Error(e)) => {
                self.abandon();
                return Err(e);
            },
            Err(Halt::AwaitVerdict(f)) => {
                return Ok(Progress::VerifyFunction(f));
            },
            Err(Halt::Unsupported(span)) => {
                self.abandon();
                return Ok(Progress::Unsupported(span));
            },
            Ok(_) => {},
        }
        if self.answered >= verdicts.len() {
            return Ok(Progress::VerifyModule);
        }
        let answer = self.answered;
        match &verdicts[answer] {
            Verdict::Failed(diagnostic) => {
                let e = CompilerError::new(ErrorKind::ModuleVerificationFailed, diagnostic.as_str(), ast.span);
                self.abandon();
                Err(e)
            },
            Verdict::Passed => {
                self.answered = self.answered + 1;
                self.compiled = true;
                Ok(Progress::Compiled)
            },
        }
    }

    /// Whether the last compilation ended with the module accepted.
    pub fn is_compiled(&self) -> (b: bool)
        ensures
            b == self@.compiled,
    {
        self.compiled
    }

    /// The module and the symbol tables, for the runtime to take over.
    pub(crate) fn into_parts(self) -> (parts: (Module, Environment))
        ensures
            parts.0@ == self@.module,
            parts.1.spec_defs() == self@.defs,
    {
        (self.module, self.env)
    }


    /// The module built so far.
    pub fn module(&self) -> (m: &Module)
        ensures
            m@ == self@.module,
    {
        &self.module
    }

    /// Generates `ast` and returns its value, or the reason why generation
    /// stopped.
    pub fn codegen(&mut self, ast: &AstNode, verdicts: &Vec<Verdict>) -> (r: Result<AnyValue, Halt>)
        ensures
            (final(self)@, value_view(r)) == gen(old(self)@, ast@, verdicts_view(verdicts@)),
            final(self)@.compiled == old(self)@.compiled,
        decreases ast, 1nat,
    {
        proof {
            lemma_gen_extends(self@, ast@, verdicts_view(verdicts@));
        }
        match &*ast.expr {
            Ast::Number(bits) => Ok(self.builder.build_const_fp(self.context.f64_type(), *bits)),
            Ast::Block(_) => self.build_block(ast, verdicts),
            Ast::Ref(_) => self.build_ref(ast),
            Ast::Call { .. } => self.build_call(ast, verdicts),
            Ast::If { .. } => self.build_if(ast, verdicts),
            Ast::BinOp { .. } => self.build_binop(ast, verdicts),
            Ast::Function { .. } => self.build_function(ast, verdicts),
            Ast::Variable { .. } => Err(Halt::Unsupported(ast.span)),
        }
    }

    /// Generates `nodes` in order and returns their values, or the reason
    /// why the first that stopped did so.
    pub fn codegen_all(&mut self, nodes: &Vec<AstNode>, verdicts: &Vec<Verdict>) -> (r: Result<Vec<AnyValue>, Halt>)
        ensures
            (final(self)@, values_view(r)) == gen_all(
                old(self)@,
                nodes_view(nodes@),
                nodes@.len(),
                verdicts_view(verdicts@),
            ),
        decreases nodes, 0nat,
    {
        let mut values: Vec<AnyValue> = Vec::new();
        let mut i: usize = 0;
        while i < nodes.len()
            invariant
                i <= nodes.len(),
                (self@, Ok::<Seq<AnyValue>, HaltView>(values@)) == gen_all(
                    old(self)@,
                    nodes_view(nodes@),
                    i as nat,
                    verdicts_view(verdicts@),
                ),
            decreases nodes.len() - i,
        {
            match self.codegen(&nodes[i], verdicts) {
                Ok(value) => {
                    values.push(value);
                },
                Err(halt) => {
                    proof {
                        lemma_gen_all_halts(
                            old(self)@,
                            nodes_view(nodes@),
                            (i + 1) as nat,
                            nodes@.len(),
                            verdicts_view(verdicts@),
                        );
                    }
                    return Err(halt);
                },
            }
            i = i + 1;
        }
        Ok(values)
    }

    /// The value of a block: that of its last expression.
    pub fn build_block(&mut self, ast: &AstNode, verdicts: &Vec<Verdict>) -> (r: Result<AnyValue, Halt>)
        requires
            *ast.expr is Block,
        ensures
            (final(self)@, value_view(r)) == gen(old(self)@, ast@, verdicts_view(verdicts@)),
        decreases ast, 0nat,
    {
        match &*ast.expr {
            Ast::Block(exprs) => {
                let values = match self.codegen_all(exprs, verdicts) {
                    Ok(values) => values,
                    Err(halt) => {
                        return Err(halt);
                    },
                };
                if values.len() == 0 {
                    Err(Halt::Error(CompilerError::new(ErrorKind::EmptyBlock, "", ast.span)))
                } else {
                    Ok(values[values.len() - 1])
                }
            },
            _ => Err(Halt::Unsupported(ast.span)),
        }
    }

    /// The value of a variable.
    pub fn build_ref(&mut self, ast: &AstNode) -> (r: Result<AnyValue, Halt>)
        requires
            *ast.expr is Ref,
        ensures
            forall|verdicts: Seq<VerdictView>|
                (final(self)@, value_view(r)) == #[trigger] gen(old(self)@, ast@, verdicts),
    {
        match &*ast.expr {
            Ast::Ref(name) => {
                if *name == String::from_str("_") {
                    return Err(
                        Halt::Error(CompilerError::new(ErrorKind::IllegalDiscardReference, name.as_str(), ast.span)),
                    );
                }
                match self.env.var(name) {
                    Some(value) => Ok(value),
                    None => Err(
                        Halt::Error(CompilerError::new(ErrorKind::UndefinedVariable, name.as_str(), ast.span)),
                    ),
                }
            },
            _ => Err(Halt::Unsupported(ast.span)),
        }
    }

    /// A call: the arguments from left to right, then the call itself.
    pub fn build_call(&mut self, ast: &AstNode, verdicts: &Vec<Verdict>) -> (r: Result<AnyValue, Halt>)
        requires
            *ast.expr is Call,
        ensures
            (final(self)@, value_view(r)) == gen(old(self)@, ast@, verdicts_view(verdicts@)),
        decreases ast, 0nat,
    {
        match &*ast.expr {
            Ast::Call { name, args } => {
                let values = match self.codegen_all(args, verdicts) {
                    Ok(values) => values,
                    Err(halt) => {
                        return Err(halt);
                    },
                };
                let f = match self.env.def(name) {
                    Some(f) => f,
                    None => {
                        return Err(
                            Halt::Error(CompilerError::new(ErrorKind::UndefinedFunction, name.as_str(), ast.span)),
                        );
                    },
                };
                match self.builder.build_call(&mut self.module, &f, values.as_slice(), None) {
                    Ok(value) => Ok(value),
                    Err(BuilderError::WrongArgumentsCount { expected, actual }) => Err(
                        Halt::Error(
                            CompilerError::new(ErrorKind::ArityMismatch { expected, actual }, name.as_str(), ast.span),
                        ),
                    ),
                }
            },
            _ => Err(Halt::Unsupported(ast.span)),
        }
    }

    /// A conditional: the test, the two branches in blocks of their own,
    /// and a phi node that joins them.
    pub fn build_if(&mut self, ast: &AstNode, verdicts: &Vec<Verdict>) -> (r: Result<AnyValue, Halt>)
        requires
            *ast.expr is If,
        ensures
            (final(self)@, value_view(r)) == gen(old(self)@, ast@, verdicts_view(verdicts@)),
        decreases ast, 0nat,
    {
        match &*ast.expr {
            Ast::If { condition, then, el } => {
                let cond = match self.codegen(condition, verdicts) {
                    Ok(cond) => cond,
                    Err(halt) => {
                        return Err(halt);
                    },
                };
                let zero = self.builder.build_const_fp(self.context.f64_type(), ZERO);
                let test = self.builder.build_fp_cmp(
                    &mut self.module,
                    RealPredicate::ONE,
                    &cond,
                    &zero,
                    Some("ifcond"),
                );
                let current = match self.builder.get_insert_block() {
                    Some(current) => current,
                    None => {
                        return Err(Halt::Unsupported(ast.span));
                    },
                };
                let mut f = current.parent();
                let then_block = BasicBlock::new("then", &mut self.module, &mut f);
                let else_block = BasicBlock::new("else", &mut self.module, &mut f);
                let merge_block = BasicBlock::new("ifmerge", &mut self.module, &mut f);
                self.builder.build_cond_br(&mut self.module, &test, &then_block, &else_block);

                self.builder.position_at_end(&then_block);
                let then_value = match self.codegen(then, verdicts) {
                    Ok(value) => value,
                    Err(halt) => {
                        return Err(halt);
                    },
                };
                // Generating the branch may have moved the builder: the phi
                // node must name the block in which the branch ended.
                let then_end = match self.builder.get_insert_block() {
                    Some(block) => block,
                    None => {
                        return Err(Halt::Unsupported(ast.span));
                    },
                };
                self.builder.build_br(&mut self.module, &merge_block);

                self.builder.position_at_end(&else_block);
                let else_value = match el {
                    Some(el) => match self.codegen(el, verdicts) {
                        Ok(value) => value,
                        Err(halt) => {
                            return Err(halt);
                        },
                    },
                    None => self.builder.build_const_fp(self.context.f64_type(), POSITIVE_INFINITY),
                };
                let else_end = match self.builder.get_insert_block() {
                    Some(block) => block,
                    None => {
                        return Err(Halt::Unsupported(ast.span));
                    },
                };
                self.builder.build_br(&mut self.module, &merge_block);

                self.builder.position_at_end(&merge_block);
                let phi = self.builder.build_phi(&mut self.module, self.context.f64_type(), Some("iftmp"));
                let edges = [(then_value, then_end), (else_value, else_end)];
                self.module.add_incoming(phi, edges.as_slice());
                assert(edges@ =~= seq![(then_value, then_end), (else_value, else_end)]);
                Ok(phi.to_value())
            },
            _ => Err(Halt::Unsupported(ast.span)),
        }
    }

    /// A binary operation: the left operand, the right operand, then the
    /// operation on their values.
    pub fn build_binop(&mut self, ast: &AstNode, verdicts: &Vec<Verdict>) -> (r: Result<AnyValue, Halt>)
        requires
            *ast.expr is BinOp,
        ensures
            (final(self)@, value_view(r)) == gen(old(self)@, ast@, verdicts_view(verdicts@)),
        decreases ast, 0nat,
    {
        match &*ast.expr {
            Ast::BinOp { kind, lhs, rhs } => {
                let lhs = match self.codegen(lhs, verdicts) {
                    Ok(value) => value,
                    Err(halt) => {
                        return Err(halt);
                    },
                };
                let rhs = match self.codegen(rhs, verdicts) {
                    Ok(value) => value,
                    Err(halt) => {
                        return Err(halt);
                    },
                };
                Ok(
                    match kind {
                        BinOpKind::Eq => self.build_fp_cmp(RealPredicate::UEQ, &lhs, &rhs),
                        BinOpKind::NotEq => self.build_fp_cmp(RealPredicate::UNE, &lhs, &rhs),
                        BinOpKind::GreaterThan => self.build_fp_cmp(RealPredicate::UGT, &lhs, &rhs),
                        BinOpKind::GreaterEq => self.build_fp_cmp(RealPredicate::UGE, &lhs, &rhs),
                        BinOpKind::LessThan => self.build_fp_cmp(RealPredicate::ULT, &lhs, &rhs),
                        BinOpKind::LessEq => self.build_fp_cmp(RealPredicate::ULE, &lhs, &rhs),
                        BinOpKind::Add => self.builder.build_fp_add(&mut self.module, &lhs, &rhs, Some("addtmp")),
                        BinOpKind::Sub => self.builder.build_fp_sub(&mut self.module, &lhs, &rhs, Some("subtmp")),
                        BinOpKind::Mul => self.builder.build_fp_mul(&mut self.module, &lhs, &rhs, Some("multmp")),
                    },
                )
            },
            _ => Err(Halt::Unsupported(ast.span)),
        }
    }

    /// A comparison as a value of the language: the one-bit result is
    /// converted to a float.
    fn build_fp_cmp(&mut self, p: RealPredicate, l: &AnyValue, r: &AnyValue) -> (v: AnyValue)
        ensures
            final(self)@ == old(self)@.emit(
                Some("cmptmp"@),
                OpView::FCmp { predicate: p, lhs: *l, rhs: *r },
            ).emit(
                Some("booltmp"@),
                OpView::UiToFp { value: old(self)@.next_value(), ty: Type::F64 },
            ),
            v == old(self)@.emit(
                Some("cmptmp"@),
                OpView::FCmp { predicate: p, lhs: *l, rhs: *r },
            ).next_value(),
    {
        let cmp = self.builder.build_fp_cmp(&mut self.module, p, l, r, Some("cmptmp"));
        self.builder.build_cast_uint_to_fp(&mut self.module, cmp, self.context.f64_type(), Some("booltmp"))
    }

    /// A function: its declaration, its parameters as the only variables,
    /// its body in a fresh entry block, and its return. When it ends,
    /// however it ends, no variable is left in scope. It is defined only
    /// once the verifier has accepted it.
    pub fn build_function(&mut self, ast: &AstNode, verdicts: &Vec<Verdict>) -> (r: Result<AnyValue, Halt>)
        requires
            *ast.expr is Function,
        ensures
            (final(self)@, value_view(r)) == gen(old(self)@, ast@, verdicts_view(verdicts@)),
            final(self)@.vars == Map::<Seq<char>, AnyValue>::empty(),
        decreases ast, 0nat,
    {
        match &*ast.expr {
            Ast::Function { prototype, body } => {
                let name = &prototype.name;
                let args = &prototype.args;
                let f64_type = self.context.f64_type();
                let void_type = self.context.void_type();
                let is_main = *name == String::from_str("main");

                let mut f = {
                    let ret_type = if is_main { void_type } else { f64_type };
                    let arg_types = if is_main { Vec::new() } else { repeat_type(f64_type, args.len()) };
                    self.module.function_prototype(
                        Some(name.as_str()),
                        Context::function_type(ret_type, arg_types.as_slice(), false),
                    )
                };

                self.env.clear_vars();
                let params = f.params();
                let mut i: usize = 0;
                while i < params.len() && i < args.len()
                    invariant
                        i <= params.len(),
                        i <= args.len(),
                        params@ == f.spec_params(),
                        self@ == (CompilerView { module: self@.module, vars: self@.vars, ..old(self)@ }),
                        (CompilerView { module: self@.module, vars: self@.vars, ..old(self)@ }) == (CompilerView {
                            module: old(self)@.module.declare(
                                signature_of(name@, names_view(args@)),
                            ),
                            ..old(self)@
                        }).bind_params(f, names_view(args@), i as nat),
                    decreases args.len() - i,
                {
                    let mut param = params[i];
                    param.set_name(&mut self.module, args[i].as_str());
                    self.env.bind_var(args[i].clone(), param);
                    i = i + 1;
                }

                let bb = BasicBlock::new("entry", &mut self.module, &mut f);
                self.builder.position_at_end(&bb);

                let ret = match self.codegen(body, verdicts) {
                    Ok(value) => value,
                    Err(halt) => {
                        self.env.clear_vars();
                        return Err(halt);
                    },
                };
                if is_main {
                    self.builder.build_ret_void(&mut self.module);
                } else {
                    self.builder.build_ret(&mut self.module, &ret);
                }
                // The function has ended: its variables go out of scope,
                // whatever the verifier says of it.
                self.env.clear_vars();

                if self.answered >= verdicts.len() {
                    return Err(Halt::AwaitVerdict(f));
                }
                let answer = self.answered;
                self.answered = self.answered + 1;
                match &verdicts[answer] {
                    Verdict::Failed(dump) => {
                        return Err(
                            Halt::Error(
                                CompilerError::new(ErrorKind::FunctionVerificationFailed, dump.as_str(), ast.span),
                            ),
                        );
                    },
                    Verdict::Passed => {},
                }
                self.env.define(name.clone(), f);
                Ok(f.to_value())
            },
            _ => Err(Halt::Unsupported(ast.span)),
        }
    }
}

} // verus!
