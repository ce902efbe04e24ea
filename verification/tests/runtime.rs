use dg_compiler::backend::analysis::Verdict;
use dg_compiler::backend::value::{AnyValue, Function};
use dg_compiler::compiler::codegen::Compiler;
use dg_compiler::compiler::model::Progress;
use dg_compiler::compiler::runtime::RuntimeError;
use dg_compiler::parser::ast::{Ast, AstNode, Prototype};
use dg_compiler::span::Span;

fn node(ast: Ast) -> AstNode {
    AstNode::new(Span::new(0, 1, 0), ast)
}

fn function(name: &str, params: &[&str], body: AstNode) -> AstNode {
    node(Ast::Function {
        prototype: Prototype { name: name.to_string(), args: params.iter().map(|p| p.to_string()).collect() },
        body,
    })
}

fn compiled(program: AstNode, functions: usize) -> Compiler {
    let mut c = Compiler::new();
    let answers: Vec<Verdict> = (0..functions + 1).map(|_| Verdict::Passed).collect();
    assert_eq!(c.compile(&program, &answers), Ok(Progress::Compiled));
    assert!(c.is_compiled());
    c
}

fn main_that_prints() -> AstNode {
    function(
        "main",
        &["_"],
        node(Ast::Call { name: "print_number".to_string(), args: vec![node(Ast::Number(6.0f64.to_bits()))] }),
    )
}

#[test]
fn the_standard_library_is_mapped_to_its_native_address() {
    let c = compiled(main_that_prints(), 1);
    let natives = vec![("other".to_string(), 1usize), ("print_number".to_string(), 0xBEEF)];
    let runtime = c.into_runtime(&natives).unwrap();
    assert_eq!(*runtime.mappings(), vec![(AnyValue::Function { index: 0, arity: 1 }, 0xBEEF)]);
}

#[test]
fn the_module_changes_hands_unchanged() {
    let c = compiled(main_that_prints(), 1);
    let mut again = Compiler::new();
    again.compile(&main_that_prints(), &vec![Verdict::Passed, Verdict::Passed]).unwrap();
    let runtime = c.into_runtime(&vec![("print_number".to_string(), 8)]).unwrap();
    assert_eq!(runtime.module(), again.module());
}

#[test]
fn of_two_addresses_for_one_name_the_later_counts() {
    let c = compiled(main_that_prints(), 1);
    let natives = vec![("print_number".to_string(), 1usize), ("print_number".to_string(), 2)];
    let runtime = c.into_runtime(&natives).unwrap();
    assert_eq!(runtime.mappings()[0].1, 2);
}

#[test]
fn a_standard_function_without_an_address_cannot_be_run() {
    let c = compiled(main_that_prints(), 1);
    assert_eq!(c.into_runtime(&vec![]), Err(RuntimeError::UnmappedSymbol("print_number".to_string())));
    let c = compiled(main_that_prints(), 1);
    let natives = vec![("print".to_string(), 1usize), ("print_numbers".to_string(), 2)];
    assert_eq!(c.into_runtime(&natives), Err(RuntimeError::UnmappedSymbol("print_number".to_string())));
}

#[test]
fn running_enters_main() {
    let program = node(Ast::Block(vec![
        function("helper", &["x"], node(Ast::Ref("x".to_string()))),
        main_that_prints(),
    ]));
    let c = compiled(program, 2);
    let runtime = c.into_runtime(&vec![("print_number".to_string(), 8)]).unwrap();
    assert_eq!(runtime.entry_point(), Some(Function { index: 2, arity: 0 }));
}

#[test]
fn a_program_without_main_has_no_entry_point() {
    let c = compiled(function("helper", &["x"], node(Ast::Ref("x".to_string()))), 1);
    let runtime = c.into_runtime(&vec![("print_number".to_string(), 8)]).unwrap();
    assert_eq!(runtime.entry_point(), None);
}

#[test]
fn a_program_that_redefines_the_standard_library_maps_its_own_function() {
    let program = node(Ast::Block(vec![
        function("print_number", &["x"], node(Ast::Ref("x".to_string()))),
        function("main", &["_"], node(Ast::Number(0))),
    ]));
    let c = compiled(program, 2);
    let runtime = c.into_runtime(&vec![("print_number".to_string(), 8)]).unwrap();
    assert_eq!(*runtime.mappings(), vec![(AnyValue::Function { index: 1, arity: 1 }, 8)]);
}
