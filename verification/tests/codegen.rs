use dg_compiler::backend::analysis::Verdict;
use dg_compiler::backend::basic_block::BasicBlock;
use dg_compiler::backend::builder::RealPredicate;
use dg_compiler::backend::module::{BinaryKind, Incoming, Op};
use dg_compiler::backend::transformation::Pass;
use dg_compiler::backend::types::Type;
use dg_compiler::backend::value::{AnyValue, Function, Phi};
use dg_compiler::compiler::codegen::{Compiler, Halt};
use dg_compiler::compiler::error::{CompilerError, ErrorKind};
use dg_compiler::compiler::model::{Progress, POSITIVE_INFINITY, ZERO};
use dg_compiler::parser::ast::{Ast, AstNode, BinOpKind, Prototype};
use dg_compiler::span::Span;

fn node(lo: usize, hi: usize, ast: Ast) -> AstNode {
    AstNode::new(Span::new(lo, hi, 0), ast)
}

fn num(x: f64) -> AstNode {
    node(0, 1, Ast::Number(x.to_bits()))
}

fn var(name: &str) -> AstNode {
    node(0, 1, Ast::Ref(name.to_string()))
}

fn bin(kind: BinOpKind, lhs: AstNode, rhs: AstNode) -> AstNode {
    node(0, 1, Ast::BinOp { kind, lhs, rhs })
}

fn call(lo: usize, hi: usize, name: &str, args: Vec<AstNode>) -> AstNode {
    node(lo, hi, Ast::Call { name: name.to_string(), args })
}

fn function(name: &str, params: &[&str], body: AstNode) -> AstNode {
    node(
        0,
        1,
        Ast::Function {
            prototype: Prototype {
                name: name.to_string(),
                args: params.iter().map(|p| p.to_string()).collect(),
            },
            body,
        },
    )
}

fn block(items: Vec<AstNode>) -> AstNode {
    node(0, 1, Ast::Block(items))
}

fn float(x: f64) -> AnyValue {
    AnyValue::ConstReal { ty: Type::F64, bits: x.to_bits() }
}

fn passed(n: usize) -> Vec<Verdict> {
    (0..n).map(|_| Verdict::Passed).collect()
}

fn error(r: Result<AnyValue, Halt>) -> CompilerError {
    match r {
        Err(Halt::Error(e)) => e,
        other => panic!("unexpected {:?}", other),
    }
}

/// Generates `let f x y = body` without an answer of the verifier at hand.
fn in_function(body: AstNode) -> (Compiler, Result<AnyValue, Halt>) {
    let mut c = Compiler::new();
    let r = c.codegen(&function("f", &["x", "y"], body), &vec![]);
    (c, r)
}

/// The generator after `let f x y = body`, whose body must be right, and
/// the value that the function returns.
fn generated(body: AstNode) -> (Compiler, AnyValue) {
    let (c, r) = in_function(body);
    assert_eq!(r, Err(Halt::AwaitVerdict(F)));
    let value = match c.module().insts.last().unwrap().op {
        Op::Ret { value } => value,
        ref other => panic!("unexpected {:?}", other),
    };
    (c, value)
}

const F: Function = Function { index: 0, arity: 2 };
const X: AnyValue = AnyValue::Param { function: 0, index: 0 };
const Y: AnyValue = AnyValue::Param { function: 0, index: 1 };

#[test]
fn a_new_generator_holds_an_empty_module_called_main() {
    let c = Compiler::new();
    assert_eq!(c.module().name, "main");
    assert!(c.module().functions.is_empty());
    assert!(c.module().blocks.is_empty());
    assert!(c.module().insts.is_empty());
    assert!(!c.is_compiled());
}

#[test]
fn the_optimizer_runs_four_passes_in_order() {
    let mut c = Compiler::new();
    let passes = c.function_optimizer();
    assert_eq!(
        *passes.passes(),
        vec![Pass::InstructionCombining, Pass::Reassociate, Pass::Gvn, Pass::CfgSimplification]
    );
}

#[test]
fn number_is_a_constant() {
    let mut c = Compiler::new();
    let v = c.codegen(&num(1.5), &vec![]);
    assert_eq!(v, Ok(float(1.5)));
    assert!(c.module().insts.is_empty());
}

#[test]
fn discard_reference_is_illegal() {
    let mut c = Compiler::new();
    let e = error(c.codegen(&node(3, 4, Ast::Ref("_".to_string())), &vec![]));
    assert_eq!(e.kind, ErrorKind::IllegalDiscardReference);
    assert_eq!(e.span, Span::new(3, 4, 0));
    assert_eq!(e.message, "Illegal reference _ at 0:3..4");
    assert_eq!(e.to_string(), "Illegal reference _ at 0:3..4");
}

#[test]
fn discard_reference_is_illegal_even_where_a_parameter_is_called_so() {
    let mut c = Compiler::new();
    let e = error(c.codegen(&function("f", &["_"], var("_")), &passed(1)));
    assert_eq!(e.kind, ErrorKind::IllegalDiscardReference);
}

#[test]
fn discard_reference_is_illegal_in_every_position() {
    let bad = || node(7, 8, Ast::Ref("_".to_string()));
    let places: Vec<AstNode> = vec![
        bin(BinOpKind::Add, bad(), num(1.0)),
        bin(BinOpKind::Eq, num(1.0), bad()),
        block(vec![num(1.0), bad(), num(2.0)]),
        call(0, 1, "print_number", vec![bad()]),
        node(0, 1, Ast::If { condition: bad(), then: num(1.0), el: None }),
        node(0, 1, Ast::If { condition: num(1.0), then: bad(), el: None }),
        node(0, 1, Ast::If { condition: num(1.0), then: num(1.0), el: Some(bad()) }),
        function("g", &["a"], bad()),
    ];
    for place in places {
        let mut c = Compiler::new();
        c.init_std();
        let e = error(c.codegen(&function("f", &["x", "y"], place), &passed(3)));
        assert_eq!(e.kind, ErrorKind::IllegalDiscardReference);
        assert_eq!(e.span, Span::new(7, 8, 0));
    }
}

#[test]
fn an_unbound_name_is_an_undefined_variable() {
    let (_, r) = in_function(node(2, 5, Ast::Ref("zed".to_string())));
    let e = error(r);
    assert_eq!(e.kind, ErrorKind::UndefinedVariable);
    assert_eq!(e.span, Span::new(2, 5, 0));
    assert_eq!(e.message, "Unknown variable ref zed at 0:2..5");
}

#[test]
fn a_parameter_is_its_value() {
    let (_, value) = generated(var("x"));
    assert_eq!(value, X);
    let (c, value) = generated(var("y"));
    assert_eq!(value, Y);
    let names: Vec<(AnyValue, &str)> = c.module().names.iter().map(|n| (n.value, n.name.as_str())).collect();
    assert_eq!(names, vec![(X, "x"), (Y, "y")]);
}

#[test]
fn the_variables_of_a_function_end_with_it() {
    let a = || node(4, 5, Ast::Ref("a".to_string()));
    let f = || function("f", &["a"], num(0.0));

    // accepted
    let mut c = Compiler::new();
    assert_eq!(c.codegen(&f(), &passed(1)), Ok(AnyValue::Function { index: 0, arity: 1 }));
    assert_eq!(error(c.codegen(&a(), &passed(1))).kind, ErrorKind::UndefinedVariable);

    // refused
    let mut c = Compiler::new();
    let refused = vec![Verdict::Failed("dump".to_string())];
    assert_eq!(error(c.codegen(&f(), &refused)).kind, ErrorKind::FunctionVerificationFailed);
    assert_eq!(error(c.codegen(&a(), &refused)).kind, ErrorKind::UndefinedVariable);

    // not answered yet
    let mut c = Compiler::new();
    assert!(matches!(c.codegen(&f(), &vec![]), Err(Halt::AwaitVerdict(_))));
    assert_eq!(error(c.codegen(&a(), &vec![])).kind, ErrorKind::UndefinedVariable);

    // stopped in its body
    let mut c = Compiler::new();
    let broken = function("f", &["a"], call(0, 1, "nowhere", vec![]));
    assert_eq!(error(c.codegen(&broken, &passed(1))).kind, ErrorKind::UndefinedFunction);
    assert_eq!(error(c.codegen(&a(), &passed(1))).kind, ErrorKind::UndefinedVariable);

    // inside the body the parameter is bound
    let mut c = Compiler::new();
    assert!(c.codegen(&function("f", &["a"], a()), &passed(1)).is_ok());
    assert_eq!(c.module().insts[0].op, Op::Ret { value: AnyValue::Param { function: 0, index: 0 } });
}

#[test]
fn the_variables_of_an_outer_function_end_with_an_inner_one() {
    // let f a = { let g b = b; a }: when g has ended, nothing is in scope.
    let inner = function("g", &["b"], var("b"));
    let outer = function("f", &["a"], block(vec![inner, node(9, 10, Ast::Ref("a".to_string()))]));
    let mut c = Compiler::new();
    let e = error(c.codegen(&outer, &passed(2)));
    assert_eq!(e.kind, ErrorKind::UndefinedVariable);
    assert_eq!(e.span, Span::new(9, 10, 0));
}

#[test]
fn of_two_parameters_of_one_name_the_later_is_meant() {
    let mut c = Compiler::new();
    let r = c.codegen(&function("f", &["a", "a"], var("a")), &vec![]);
    assert_eq!(r, Err(Halt::AwaitVerdict(Function { index: 0, arity: 2 })));
    assert_eq!(c.module().insts[0].op, Op::Ret { value: AnyValue::Param { function: 0, index: 1 } });
}

#[test]
fn a_function_sees_no_variable_of_another() {
    let program = block(vec![function("f", &["x"], var("x")), function("g", &["y"], var("x"))]);
    let mut c = Compiler::new();
    let e = c.compile(&program, &passed(3)).unwrap_err();
    assert_eq!(e.kind, ErrorKind::UndefinedVariable);
}

#[test]
fn an_empty_block_is_an_error() {
    let mut c = Compiler::new();
    let e = error(c.codegen(&node(4, 9, Ast::Block(vec![])), &vec![]));
    assert_eq!(e.kind, ErrorKind::EmptyBlock);
    assert_eq!(e.span, Span::new(4, 9, 0));
    assert_eq!(e.message, "Found empty block which is invalid value! 0:4..9");
    assert!(c.module().functions.is_empty());
}

#[test]
fn a_block_has_the_value_of_its_last_expression() {
    let (c, value) = generated(block(vec![
        bin(BinOpKind::Add, var("x"), num(1.0)),
        var("y"),
        bin(BinOpKind::Mul, var("y"), num(2.0)),
    ]));
    assert_eq!(value, AnyValue::Inst(1));
    assert_eq!(c.module().insts.len(), 3);
    let (_, value) = generated(block(vec![bin(BinOpKind::Add, var("x"), num(1.0)), var("y")]));
    assert_eq!(value, Y);
}

#[test]
fn arithmetic_is_one_instruction_on_the_operands_from_left_to_right() {
    let cases = [
        (BinOpKind::Add, BinaryKind::FAdd, "addtmp"),
        (BinOpKind::Sub, BinaryKind::FSub, "subtmp"),
        (BinOpKind::Mul, BinaryKind::FMul, "multmp"),
    ];
    for (kind, op, name) in cases {
        let (c, value) = generated(bin(
            kind,
            bin(BinOpKind::Add, var("x"), var("x")),
            bin(BinOpKind::Add, var("y"), var("y")),
        ));
        assert_eq!(value, AnyValue::Inst(2));
        assert_eq!(c.module().insts[0].op, Op::Binary { kind: BinaryKind::FAdd, lhs: X, rhs: X });
        assert_eq!(c.module().insts[1].op, Op::Binary { kind: BinaryKind::FAdd, lhs: Y, rhs: Y });
        let last = &c.module().insts[2];
        assert_eq!(last.op, Op::Binary { kind: op, lhs: AnyValue::Inst(0), rhs: AnyValue::Inst(1) });
        assert_eq!(last.name.as_deref(), Some(name));
        assert_eq!(last.block, Some(BasicBlock { index: 0, function: F }));
    }
}

#[test]
fn a_comparison_is_unordered_and_cast_to_a_float() {
    let cases = [
        (BinOpKind::Eq, RealPredicate::UEQ),
        (BinOpKind::NotEq, RealPredicate::UNE),
        (BinOpKind::GreaterThan, RealPredicate::UGT),
        (BinOpKind::GreaterEq, RealPredicate::UGE),
        (BinOpKind::LessThan, RealPredicate::ULT),
        (BinOpKind::LessEq, RealPredicate::ULE),
    ];
    for (kind, predicate) in cases {
        let (c, value) = generated(bin(kind, var("x"), num(2.0)));
        assert_eq!(value, AnyValue::Inst(1));
        let cmp = &c.module().insts[0];
        assert_eq!(cmp.op, Op::FCmp { predicate, lhs: X, rhs: float(2.0) });
        assert_eq!(cmp.name.as_deref(), Some("cmptmp"));
        let cast = &c.module().insts[1];
        assert_eq!(cast.op, Op::UiToFp { value: AnyValue::Inst(0), ty: Type::F64 });
        assert_eq!(cast.name.as_deref(), Some("booltmp"));
    }
}

#[test]
fn calling_an_undefined_function_fails_at_the_call() {
    let (_, r) = in_function(call(10, 20, "nowhere", vec![num(1.0)]));
    let e = error(r);
    assert_eq!(e.kind, ErrorKind::UndefinedFunction);
    assert_eq!(e.span, Span::new(10, 20, 0));
    assert_eq!(e.message, "Unknown function ref nowhere at 0:10..20");
}

#[test]
fn the_arguments_are_generated_before_the_callee_is_looked_up() {
    let (c, r) = in_function(call(0, 9, "nowhere", vec![bin(BinOpKind::Add, var("x"), var("y"))]));
    assert_eq!(error(r).kind, ErrorKind::UndefinedFunction);
    assert_eq!(c.module().insts.len(), 1);

    let (_, r) = in_function(call(0, 9, "nowhere", vec![var("zed")]));
    assert_eq!(error(r).kind, ErrorKind::UndefinedVariable);
}

#[test]
fn a_function_cannot_be_called_before_it_is_defined() {
    let program = block(vec![
        function("main", &["_"], call(5, 9, "later", vec![num(1.0)])),
        function("later", &["x"], var("x")),
    ]);
    let mut c = Compiler::new();
    let e = c.compile(&program, &passed(3)).unwrap_err();
    assert_eq!(e.kind, ErrorKind::UndefinedFunction);
    assert_eq!(e.span, Span::new(5, 9, 0));
}

#[test]
fn a_function_cannot_call_itself() {
    // It is defined only once it has been verified, which is after its
    // body.
    let program = function("f", &["x"], call(0, 3, "f", vec![var("x")]));
    let mut c = Compiler::new();
    assert_eq!(c.compile(&program, &passed(2)).unwrap_err().kind, ErrorKind::UndefinedFunction);
}

#[test]
fn the_standard_library_can_be_called_from_the_start() {
    let program = function("main", &["_"], call(0, 1, "print_number", vec![num(4.0)]));
    let mut c = Compiler::new();
    assert_eq!(c.compile(&program, &passed(2)), Ok(Progress::Compiled));
    let print_number = Function { index: 0, arity: 1 };
    assert_eq!(c.module().functions[0].name.as_deref(), Some("print_number"));
    assert_eq!(c.module().functions[0].ty.ret, Type::Void);
    assert_eq!(c.module().functions[0].ty.params, vec![Type::F64]);
    assert!(!c.module().functions[0].ty.is_var_arg);
    assert_eq!(c.module().insts[0].op, Op::Call { callee: print_number, args: vec![float(4.0)] });
    assert_eq!(c.module().insts[0].name, None);
}

#[test]
fn a_wrong_number_of_arguments_is_an_arity_mismatch() {
    let three = function("three", &["a", "b", "c"], var("a"));
    for (given, args) in [(0usize, vec![]), (2, vec![num(1.0), num(2.0)]), (4, vec![num(1.0), num(2.0), num(3.0), num(4.0)])] {
        let program = block(vec![
            function("three", &["a", "b", "c"], var("a")),
            function("main", &["_"], call(30, 40, "three", args)),
        ]);
        let mut c = Compiler::new();
        let e = c.compile(&program, &passed(3)).unwrap_err();
        assert_eq!(e.kind, ErrorKind::ArityMismatch { expected: 3, actual: given });
        assert_eq!(e.span, Span::new(30, 40, 0));
        assert_eq!(e.message, format!("WrongArgumentsCount {{ expected: 3, actual: {} }}", given));
        // Nothing was inserted for the call.
        assert!(c.module().insts.iter().all(|i| !matches!(i.op, Op::Call { .. })));
    }
    assert!(matches!(&*three.expr, Ast::Function { .. }));
}

#[test]
fn main_takes_and_returns_nothing_whatever_it_names() {
    for params in [vec![], vec!["_"], vec!["a", "b", "c"]] {
        let mut c = Compiler::new();
        let r = c.codegen(&function("main", &params, num(7.0)), &passed(1));
        assert_eq!(r, Ok(AnyValue::Function { index: 0, arity: 0 }));
        let decl = &c.module().functions[0];
        assert_eq!(decl.name.as_deref(), Some("main"));
        assert_eq!(decl.ty.ret, Type::Void);
        assert!(decl.ty.params.is_empty());
        assert!(c.module().names.is_empty());
        assert_eq!(c.module().insts.last().unwrap().op, Op::RetVoid);
    }
}

#[test]
fn the_parameters_of_main_are_not_bound() {
    let mut c = Compiler::new();
    let e = error(c.codegen(&function("main", &["a"], var("a")), &passed(1)));
    assert_eq!(e.kind, ErrorKind::UndefinedVariable);
}

#[test]
fn every_other_function_returns_one_float() {
    for params in [vec!["x"], vec!["a", "b"], vec!["a", "b", "c", "d", "e"]] {
        let mut c = Compiler::new();
        let r = c.codegen(&function("mainly", &params, num(7.0)), &passed(1));
        assert_eq!(r, Ok(AnyValue::Function { index: 0, arity: params.len() }));
        let decl = &c.module().functions[0];
        assert_eq!(decl.ty.ret, Type::F64);
        assert_eq!(decl.ty.params, vec![Type::F64; params.len()]);
        assert_eq!(c.module().insts.last().unwrap().op, Op::Ret { value: float(7.0) });
        assert_eq!(c.module().blocks[0].name, "entry");
    }
}

#[test]
fn a_function_is_handed_back_until_the_verifier_has_answered() {
    let f = function("f", &["x"], var("x"));
    let mut c = Compiler::new();
    assert_eq!(c.codegen(&f, &vec![]), Err(Halt::AwaitVerdict(Function { index: 0, arity: 1 })));
    assert_eq!(c.module().insts.len(), 1);
    // It is complete, and not defined yet.
    let e = error(c.codegen(&call(0, 1, "f", vec![num(1.0)]), &vec![]));
    assert_eq!(e.kind, ErrorKind::UndefinedFunction);
}

#[test]
fn a_refused_function_is_an_error_with_its_dump() {
    let program = block(vec![
        function("f", &["x"], var("x")),
        function("g", &["x"], var("x")),
    ]);
    let mut c = Compiler::new();
    let answers = vec![Verdict::Passed, Verdict::Failed("define double @g".to_string()), Verdict::Passed];
    let e = c.compile(&program, &answers).unwrap_err();
    assert_eq!(e.kind, ErrorKind::FunctionVerificationFailed);
    assert_eq!(e.message, "define double @g");
    assert!(!c.is_compiled());
}

#[test]
fn a_refused_function_is_not_defined() {
    let f = function("f", &["x"], var("x"));
    let mut c = Compiler::new();
    let answers = vec![Verdict::Failed("dump".to_string())];
    let e = error(c.codegen(&f, &answers));
    assert_eq!(e.kind, ErrorKind::FunctionVerificationFailed);
    let e = error(c.codegen(&call(0, 1, "f", vec![num(1.0)]), &answers));
    assert_eq!(e.kind, ErrorKind::UndefinedFunction);
}

#[test]
fn an_accepted_function_can_be_called_afterwards() {
    let program = block(vec![
        function("twice", &["x"], bin(BinOpKind::Add, var("x"), var("x"))),
        function("main", &["_"], call(0, 1, "print_number", vec![call(0, 1, "twice", vec![num(2.0)])])),
    ]);
    let mut c = Compiler::new();
    assert_eq!(c.compile(&program, &passed(3)), Ok(Progress::Compiled));
    let calls: Vec<&Op> = c.module().insts.iter().map(|i| &i.op).filter(|op| matches!(op, Op::Call { .. })).collect();
    assert_eq!(
        calls,
        vec![
            &Op::Call { callee: Function { index: 1, arity: 1 }, args: vec![float(2.0)] },
            &Op::Call { callee: Function { index: 0, arity: 1 }, args: vec![AnyValue::Inst(2)] },
        ]
    );
}

#[test]
fn a_later_definition_replaces_an_earlier_one_of_the_same_name() {
    let program = block(vec![
        function("f", &["x"], var("x")),
        function("f", &["x", "y"], var("y")),
        function("main", &["_"], call(0, 1, "f", vec![num(1.0), num(2.0)])),
    ]);
    let mut c = Compiler::new();
    assert_eq!(c.compile(&program, &passed(4)), Ok(Progress::Compiled));
    assert!(c.module().insts.iter().any(|i| matches!(&i.op, Op::Call { callee, .. } if *callee == Function { index: 2, arity: 2 })));
}

#[test]
fn a_conditional_makes_three_blocks_and_a_phi_node() {
    let body = node(0, 1, Ast::If { condition: var("x"), then: num(1.0), el: Some(num(2.0)) });
    let mut c = Compiler::new();
    let r = c.codegen(&function("f", &["x"], body), &passed(1));
    let f = Function { index: 0, arity: 1 };
    assert_eq!(r, Ok(AnyValue::Function { index: 0, arity: 1 }));
    let m = c.module();
    let entry = BasicBlock { index: 0, function: f };
    let then = BasicBlock { index: 1, function: f };
    let el = BasicBlock { index: 2, function: f };
    let merge = BasicBlock { index: 3, function: f };
    let labels: Vec<&str> = m.blocks.iter().map(|b| b.name.as_str()).collect();
    assert_eq!(labels, vec!["entry", "then", "else", "ifmerge"]);

    let x = AnyValue::Param { function: 0, index: 0 };
    let seen: Vec<(Option<BasicBlock>, &Op)> = m.insts.iter().map(|i| (i.block, &i.op)).collect();
    assert_eq!(
        seen,
        vec![
            (Some(entry), &Op::FCmp { predicate: RealPredicate::ONE, lhs: x, rhs: float(0.0) }),
            (Some(entry), &Op::CondBr { cond: AnyValue::Inst(0), then_block: then, else_block: el }),
            (Some(then), &Op::Br { dest: merge }),
            (Some(el), &Op::Br { dest: merge }),
            (Some(merge), &Op::Phi { ty: Type::F64 }),
            (Some(merge), &Op::Ret { value: AnyValue::Inst(4) }),
        ]
    );
    assert_eq!(m.insts[0].name.as_deref(), Some("ifcond"));
    assert_eq!(m.insts[4].name.as_deref(), Some("iftmp"));
    assert_eq!(
        m.incoming,
        vec![
            Incoming { phi: Phi { index: 4 }, value: float(1.0), block: then },
            Incoming { phi: Phi { index: 4 }, value: float(2.0), block: el },
        ]
    );
    assert_eq!(ZERO, 0.0f64.to_bits());
}

#[test]
fn a_missing_else_gives_positive_infinity() {
    let body = node(0, 1, Ast::If { condition: var("x"), then: num(1.0), el: None });
    let mut c = Compiler::new();
    c.codegen(&function("f", &["x"], body), &passed(1)).unwrap();
    assert_eq!(c.module().incoming[1].value, float(f64::INFINITY));
    assert_eq!(POSITIVE_INFINITY, f64::INFINITY.to_bits());
    // The else block holds nothing but the jump to the merge block.
    let in_else: Vec<&Op> = c.module().insts.iter().filter(|i| i.block.unwrap().index == 2).map(|i| &i.op).collect();
    assert_eq!(in_else.len(), 1);
    assert!(matches!(in_else[0], Op::Br { .. }));
}

#[test]
fn a_phi_node_names_the_blocks_in_which_the_branches_ended() {
    // if x then (if y then 1 else 2) else 3: the outer then-branch ends in
    // the merge block of the inner conditional, not in its own first block.
    let inner = node(0, 1, Ast::If { condition: var("y"), then: num(1.0), el: Some(num(2.0)) });
    let outer = node(0, 1, Ast::If { condition: var("x"), then: inner, el: Some(num(3.0)) });
    let mut c = Compiler::new();
    c.codegen(&function("f", &["x", "y"], outer), &passed(1)).unwrap();
    let m = c.module();
    let f = Function { index: 0, arity: 2 };
    let labels: Vec<&str> = m.blocks.iter().map(|b| b.name.as_str()).collect();
    assert_eq!(labels, vec!["entry", "then", "else", "ifmerge", "then", "else", "ifmerge"]);
    let inner_phi = m.incoming[0].phi;
    let outer_phi = m.incoming[2].phi;
    assert_ne!(inner_phi, outer_phi);
    assert_eq!(m.incoming.len(), 4);
    // inner: from its own then (4) and else (5)
    assert_eq!(m.incoming[0].block, BasicBlock { index: 4, function: f });
    assert_eq!(m.incoming[1].block, BasicBlock { index: 5, function: f });
    // outer: from the inner merge block (6), where its then-branch ended,
    // and from its own else (2)
    assert_eq!(m.incoming[2].block, BasicBlock { index: 6, function: f });
    assert_eq!(m.incoming[2].value, AnyValue::Inst(inner_phi.index));
    assert_eq!(m.incoming[3].block, BasicBlock { index: 2, function: f });
    assert_eq!(m.incoming[3].value, float(3.0));
    // The phi nodes stand in the merge blocks.
    assert_eq!(m.insts[inner_phi.index].block, Some(BasicBlock { index: 6, function: f }));
    assert_eq!(m.insts[outer_phi.index].block, Some(BasicBlock { index: 3, function: f }));
    // Every edge comes from a block that jumps to the phi node's block.
    for edge in &m.incoming {
        let target = m.insts[edge.phi.index].block.unwrap();
        assert!(m.insts.iter().any(|i| i.block == Some(edge.block) && i.op == Op::Br { dest: target }));
    }
}

#[test]
fn a_binding_without_parameters_is_not_generated() {
    let mut c = Compiler::new();
    let v = node(5, 9, Ast::Variable { name: "x".to_string(), expr: num(1.0) });
    assert_eq!(c.codegen(&v, &vec![]), Err(Halt::Unsupported(Span::new(5, 9, 0))));
    let mut c = Compiler::new();
    assert_eq!(c.compile(&block(vec![v]), &passed(1)), Ok(Progress::Unsupported(Span::new(5, 9, 0))));
    assert!(!c.is_compiled());
}

#[test]
fn a_conditional_outside_every_function_is_not_generated() {
    let mut c = Compiler::new();
    let top = node(2, 8, Ast::If { condition: num(1.0), then: num(1.0), el: None });
    assert_eq!(c.compile(&top, &passed(1)), Ok(Progress::Unsupported(Span::new(2, 8, 0))));
}

#[test]
fn an_expression_outside_every_function_is_inserted_nowhere() {
    let mut c = Compiler::new();
    let v = c.codegen(&bin(BinOpKind::Add, num(1.0), num(2.0)), &vec![]);
    assert_eq!(v, Ok(AnyValue::Inst(0)));
    assert_eq!(c.module().insts[0].block, None);
    assert!(c.module().blocks.is_empty());
}

#[test]
fn the_first_error_ends_the_compilation() {
    let program = block(vec![
        function("f", &["x"], var("nope")),
        function("g", &["x"], call(0, 1, "nowhere", vec![])),
    ]);
    let mut c = Compiler::new();
    let e = c.compile(&program, &passed(3)).unwrap_err();
    // The error is that of f: g was never reached.
    assert_eq!(e.kind, ErrorKind::UndefinedVariable);
}

fn holds_the_standard_library_only(c: &Compiler) {
    let m = c.module();
    assert_eq!(m.name, "main");
    assert_eq!(m.functions.len(), 1);
    assert_eq!(m.functions[0].name.as_deref(), Some("print_number"));
    assert_eq!(m.functions[0].ty.ret, Type::Void);
    assert_eq!(m.functions[0].ty.params, vec![Type::F64]);
    assert!(m.blocks.is_empty());
    assert!(m.insts.is_empty());
    assert!(m.incoming.is_empty());
    assert!(m.names.is_empty());
    assert_eq!(m.get_function("main"), None);
    assert!(!c.is_compiled());
}

#[test]
fn a_failed_compilation_leaves_nothing_of_the_program() {
    let good = || {
        block(vec![
            function("f", &["x"], bin(BinOpKind::Add, var("x"), num(1.0))),
            function("main", &["_"], call(0, 1, "print_number", vec![call(0, 1, "f", vec![num(1.0)])])),
        ])
    };
    let wrong = || {
        block(vec![
            function("f", &["x"], bin(BinOpKind::Add, var("x"), num(1.0))),
            function("main", &["_"], call(0, 1, "unknown_fn", vec![num(1.0)])),
        ])
    };

    // an error of the program, after a function that was accepted
    let mut c = Compiler::new();
    assert_eq!(c.compile(&wrong(), &passed(3)).unwrap_err().kind, ErrorKind::UndefinedFunction);
    holds_the_standard_library_only(&c);
    // f is defined no longer, the standard library is
    assert_eq!(error(c.codegen(&call(0, 1, "f", vec![num(1.0)]), &vec![])).kind, ErrorKind::UndefinedFunction);
    assert!(c.codegen(&call(0, 1, "print_number", vec![num(1.0)]), &vec![]).is_ok());

    // a function that the verifier refused
    let mut c = Compiler::new();
    let answers = vec![Verdict::Passed, Verdict::Failed("dump".to_string())];
    assert_eq!(c.compile(&good(), &answers).unwrap_err().kind, ErrorKind::FunctionVerificationFailed);
    holds_the_standard_library_only(&c);

    // a module that the verifier refused
    let mut c = Compiler::new();
    let answers = vec![Verdict::Passed, Verdict::Passed, Verdict::Failed("diagnostic".to_string())];
    assert_eq!(c.compile(&good(), &answers).unwrap_err().kind, ErrorKind::ModuleVerificationFailed);
    holds_the_standard_library_only(&c);

    // something that is not supported
    let mut c = Compiler::new();
    let unsupported = block(vec![
        function("f", &["x"], var("x")),
        node(5, 9, Ast::Variable { name: "x".to_string(), expr: num(1.0) }),
    ]);
    assert_eq!(c.compile(&unsupported, &passed(2)), Ok(Progress::Unsupported(Span::new(5, 9, 0))));
    holds_the_standard_library_only(&c);

    // while an answer is awaited, what was generated is there to be looked at
    let mut c = Compiler::new();
    assert_eq!(c.compile(&good(), &passed(1)), Ok(Progress::VerifyFunction(Function { index: 2, arity: 0 })));
    assert_eq!(c.module().functions.len(), 3);
    assert!(!c.module().insts.is_empty());
    assert!(!c.is_compiled());

    // after a failure the generator can compile again
    let mut c = Compiler::new();
    assert!(c.compile(&wrong(), &passed(3)).is_err());
    assert_eq!(c.compile(&good(), &passed(3)), Ok(Progress::Compiled));
    assert!(c.is_compiled());
    assert!(c.module().get_function("main").is_some());
}

#[test]
fn an_empty_program_is_an_empty_block() {
    let mut c = Compiler::new();
    let e = c.compile(&node(0, 0, Ast::Block(vec![])), &passed(1)).unwrap_err();
    assert_eq!(e.kind, ErrorKind::EmptyBlock);
}

#[test]
fn compiling_twice_gives_the_same_module() {
    let program = || {
        block(vec![
            function(
                "pick",
                &["a", "b"],
                node(
                    0,
                    1,
                    Ast::If {
                        condition: bin(BinOpKind::LessThan, var("a"), var("b")),
                        then: var("a"),
                        el: Some(bin(BinOpKind::Mul, var("b"), num(2.0))),
                    },
                ),
            ),
            function("main", &["_"], call(0, 1, "print_number", vec![call(0, 1, "pick", vec![num(1.0), num(2.0)])])),
        ])
    };
    let mut first = Compiler::new();
    let mut second = Compiler::new();
    assert_eq!(first.compile(&program(), &passed(3)), Ok(Progress::Compiled));
    assert_eq!(second.compile(&program(), &passed(3)), Ok(Progress::Compiled));
    assert_eq!(first.module(), second.module());
    assert!(!first.module().insts.is_empty());
}

#[test]
fn every_block_of_a_compiled_program_ends_in_its_one_terminator() {
    let nested = node(
        0,
        1,
        Ast::If {
            condition: bin(BinOpKind::LessThan, var("a"), var("b")),
            then: node(
                0,
                1,
                Ast::If {
                    condition: var("a"),
                    then: bin(BinOpKind::Add, var("a"), num(1.0)),
                    el: None,
                },
            ),
            el: Some(block(vec![
                call(0, 1, "print_number", vec![var("b")]),
                node(0, 1, Ast::If { condition: var("b"), then: var("a"), el: Some(var("b")) }),
            ])),
        },
    );
    let program = block(vec![
        function("pick", &["a", "b"], nested),
        function("main", &["_"], call(0, 1, "print_number", vec![call(0, 1, "pick", vec![num(1.0), num(2.0)])])),
    ]);
    let mut c = Compiler::new();
    assert_eq!(c.compile(&program, &passed(3)), Ok(Progress::Compiled));
    let m = c.module();
    assert_eq!(m.blocks.len(), 11);
    for (index, decl) in m.blocks.iter().enumerate() {
        let here = Some(BasicBlock { index, function: decl.function });
        let rows: Vec<&Op> = m.insts.iter().filter(|i| i.block == here).map(|i| &i.op).collect();
        let ends = |op: &Op| matches!(op, Op::Br { .. } | Op::CondBr { .. } | Op::Ret { .. } | Op::RetVoid);
        assert!(!rows.is_empty());
        assert!(ends(rows[rows.len() - 1]));
        assert!(rows[..rows.len() - 1].iter().all(|op| !ends(op)));
    }
    // Every instruction stands in a block, and every phi node has two
    // edges, from two blocks that jump to its block.
    assert!(m.insts.iter().all(|i| i.block.is_some()));
    for (row, inst) in m.insts.iter().enumerate() {
        if let Op::Phi { .. } = inst.op {
            let edges: Vec<&Incoming> = m.incoming.iter().filter(|e| e.phi.index == row).collect();
            assert_eq!(edges.len(), 2);
            assert_ne!(edges[0].block, edges[1].block);
            for edge in edges {
                let last = m.insts.iter().filter(|i| i.block == Some(edge.block)).last().unwrap();
                assert_eq!(last.op, Op::Br { dest: inst.block.unwrap() });
            }
            let first = m.insts.iter().position(|i| i.block == inst.block).unwrap();
            assert_eq!(first, row);
        }
    }
}

#[test]
fn a_conditional_joins_its_branches_whatever_they_hold() {
    // if x then { let g a = a; 1 } else 2: the first branch ends in a block
    // of g, where the builder was left when g ended.
    let then = block(vec![function("g", &["a"], var("a")), num(1.0)]);
    let body = node(0, 1, Ast::If { condition: var("x"), then, el: Some(num(2.0)) });
    let mut c = Compiler::new();
    c.codegen(&function("f", &["x"], body), &passed(2)).unwrap();
    let m = c.module();
    let f = Function { index: 0, arity: 1 };
    let g = Function { index: 1, arity: 1 };
    let merge = BasicBlock { index: 3, function: f };
    let then_end = BasicBlock { index: 4, function: g };
    let else_end = BasicBlock { index: 2, function: f };
    let phi = m.insts.iter().position(|i| matches!(i.op, Op::Phi { .. })).unwrap();
    assert_eq!(m.insts[phi].block, Some(merge));
    assert_eq!(m.insts.iter().position(|i| i.block == Some(merge)), Some(phi));
    assert_eq!(
        m.incoming,
        vec![
            Incoming { phi: Phi { index: phi }, value: float(1.0), block: then_end },
            Incoming { phi: Phi { index: phi }, value: float(2.0), block: else_end },
        ]
    );
    for end in [then_end, else_end] {
        let last = m.insts.iter().filter(|i| i.block == Some(end)).last().unwrap();
        assert_eq!(last.op, Op::Br { dest: merge });
    }
    let jumps: Vec<Option<BasicBlock>> = m
        .insts
        .iter()
        .filter(|i| match &i.op {
            Op::Br { dest } => *dest == merge,
            Op::CondBr { then_block, else_block, .. } => *then_block == merge || *else_block == merge,
            _ => false,
        })
        .map(|i| i.block)
        .collect();
    assert_eq!(jumps, vec![Some(then_end), Some(else_end)]);
}
