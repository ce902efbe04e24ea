//! From a compiled module to a running program: which native address each
//! function of the standard library is mapped to, and which function is
//! entered.

use vstd::prelude::*;
use vstd::string::StringExecFns;
use crate::backend::module::{Module, ModuleView};
use crate::backend::value::{AnyValue, Function};
use crate::compiler::codegen::Compiler;
use crate::compiler::environment::{bindings, lookup, Environment};
use crate::compiler::model::CompilerView;

verus! {

/// Why a compiled module cannot be run.
#[derive(Debug, PartialEq, Eq)]
pub enum RuntimeError {
    /// The function of the standard library of this name has no native
    /// implementation to be mapped to.
    UnmappedSymbol(String),
}

/// Model of [`RuntimeError`].
pub enum RuntimeErrorView {
    UnmappedSymbol(Seq<char>),
}

impl View for RuntimeError {
    type V = RuntimeErrorView;

    open spec fn view(&self) -> RuntimeErrorView {
        match self {
            RuntimeError::UnmappedSymbol(name) => RuntimeErrorView::UnmappedSymbol(name@),
        }
    }
}

/// A program that is ready to run: its module, which now belongs to the
/// execution engine, and the native address of each function of the
/// standard library. The symbol tables of the compilation end with it:
/// once the standard library is mapped, nothing looks a name up again.
#[derive(Debug, PartialEq, Eq)]
pub struct Runtime {
    module: Module,
    mappings: Vec<(AnyValue, usize)>,
}

/// Model of [`Runtime`].
pub struct RuntimeView {
    pub module: ModuleView,
    pub mappings: Seq<(AnyValue, usize)>,
}

/// The mappings with which the compiled state `st` is linked, where
/// `natives` gives the native addresses: one for the standard library's
/// `print_number`. It cannot be linked if that function is not defined or
/// has no address.
pub open spec fn link(st: CompilerView, natives: Map<Seq<char>, usize>) -> Result<
    Seq<(AnyValue, usize)>,
    RuntimeErrorView,
> {
    if st.defs.dom().contains("print_number"@) && natives.dom().contains("print_number"@) {
        Ok(seq![(st.defs["print_number"@].spec_value(), natives["print_number"@])])
    } else {
        Err(RuntimeErrorView::UnmappedSymbol("print_number"@))
    }
}

/// The model of what linking gave.
pub open spec fn linked_view(r: Result<Runtime, RuntimeError>) -> Result<RuntimeView, RuntimeErrorView> {
    match r {
        Ok(runtime) => Ok(runtime@),
        Err(e) => Err(e@),
    }
}

impl View for Runtime {
    type V = RuntimeView;

    closed spec fn view(&self) -> RuntimeView {
        RuntimeView { module: self.module@, mappings: self.mappings@ }
    }
}

impl Compiler {
    /// Turns a compiled generator into a program that is ready to run: the
    /// module changes hands as it is, and every function of the standard
    /// library is mapped to its native address, which `natives` gives by
    /// name.
    pub fn into_runtime(self, natives: &Vec<(String, usize)>) -> (r: Result<Runtime, RuntimeError>)
        requires
            self@.compiled,
        ensures
            linked_view(r) == match link(self@, bindings(natives@)) {
                Ok(mappings) => Ok::<RuntimeView, RuntimeErrorView>(
                    RuntimeView { module: self@.module, mappings },
                ),
                Err(e) => Err::<RuntimeView, RuntimeErrorView>(e),
            },
    {
        let (module, env) = self.into_parts();
        let mut runtime = Runtime { module, mappings: Vec::new() };
        match runtime.init_std(&env, natives) {
            Ok(()) => Ok(runtime),
            Err(e) => Err(e),
        }
    }
}

impl Runtime {
    /// Maps the standard library, as `env` defines it, to its native
    /// addresses.
    fn init_std(&mut self, env: &Environment, natives: &Vec<(String, usize)>) -> (r: Result<(), RuntimeError>)
        requires
            old(self).mappings@.len() == 0,
        ensures
            final(self).module == old(self).module,
            match r {
                Ok(_) => env.spec_defs().dom().contains("print_number"@) && bindings(natives@).dom().contains(
                    "print_number"@,
                ) && final(self).mappings@ == seq![
                    (env.spec_defs()["print_number"@].spec_value(), bindings(natives@)["print_number"@]),
                ],
                Err(e) => e@ == RuntimeErrorView::UnmappedSymbol("print_number"@) && !(env.spec_defs().dom().contains(
                    "print_number"@,
                ) && bindings(natives@).dom().contains("print_number"@)) && final(self).mappings@.len() == 0,
            },
    {
        let name = String::from_str("print_number");
        let print_number_f = match env.def(&name) {
            Some(f) => f,
            None => {
                return Err(RuntimeError::UnmappedSymbol(name));
            },
        };
        let address = match lookup(natives, &name) {
            Some(address) => address,
            None => {
                return Err(RuntimeError::UnmappedSymbol(name));
            },
        };
        self.mappings.push((print_number_f.as_value(), address));
        Ok(())
    }

    /// The module that runs.
    pub fn module(&self) -> (m: &Module)
        ensures
            m@ == self@.module,
    {
        &self.module
    }

    /// The values that are mapped to native addresses, each with its
    /// address.
    pub fn mappings(&self) -> (m: &Vec<(AnyValue, usize)>)
        ensures
            m@ == self@.mappings,
    {
        &self.mappings
    }

    /// The function that running the program enters: the first one declared
    /// as `main`, which takes no argument and returns nothing. `None` if the
    /// program has none.
    pub fn entry_point(&self) -> (entry: Option<Function>)
        ensures
            entry == self@.module.find_function("main"@),
    {
        self.module.get_function("main")
    }
}

} // verus!
