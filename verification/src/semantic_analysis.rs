pub mod typecheck;
pub mod variable_resolution;

use crate::errors::{Error, SpecError};
use crate::parser::nodes::{Program, SpecProgram, SpecType};
use crate::semantic_analysis::typecheck::{check_program, SymbolTable, TypeChecker};
use crate::semantic_analysis::variable_resolution::{resolve_program, Analyzer};
use vstd::prelude::*;

verus! {

/// Semantic analysis of a program: it is resolved, and if it holds to the
/// rules on names it is type checked, both from nothing. The outcome is the
/// typed program with the table of every name's type, or the first
/// violation.
pub open spec fn analysis(program: SpecProgram) -> Result<
    (SpecProgram, Map<Seq<char>, SpecType>),
    SpecError,
> {
    match resolve_program(program, Map::empty()) {
        Err(e) => Err(e),
        Ok(_) => check_program(program, Map::empty()),
    }
}

/// Resolves `program`, then checks its types, and returns the typed program
/// with its symbol table.
pub fn analyze(program: Program) -> (r: Result<(Program, SymbolTable), Error>)
    ensures
        match r {
            Ok((typed, table)) => analysis(program@) == Ok::<
                (SpecProgram, Map<Seq<char>, SpecType>),
                SpecError,
            >((typed@, table@)),
            Err(e) => analysis(program@) == Err::<
                (SpecProgram, Map<Seq<char>, SpecType>),
                SpecError,
            >(e@),
        },
{
    let mut analyzer = Analyzer::new();
    let program = match analyzer.analyze_program(program) {
        Ok(program) => program,
        Err(e) => { return Err(e); },
    };
    let mut typechecker = TypeChecker::new();
    let program = match typechecker.typecheck_program(program) {
        Ok(program) => program,
        Err(e) => { return Err(e); },
    };
    Ok((program, typechecker.symbol_table))
}

} // verus!
