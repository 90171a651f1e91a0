use crate::errors::{fail, Error, ErrorKind, SpecError, SpecErrorKind};
use crate::formatting::{formatting, formatting_check, no_line};
use crate::ir::definition::{
    instruction_models, Instruction, Program, SpecInstruction, SpecProgram,
};
use crate::ir::{lower_program, IRGenerator, Lowering};
use crate::lexer::{is_lexable, lexable, within_limits, Stop};
use crate::parser::nodes::SpecType;
use crate::parser::{lemma_fitting_text, parse, parse_text};
use crate::semantic_analysis::typecheck::SymbolTable;
use crate::semantic_analysis::{analysis, analyze};
use rand::Rng;
use vstd::prelude::*;

verus! {

/// One compilation in this many is given up before it starts, where chance
/// is let in.
pub const ODDS: u32 = 5;

/// The state in which lowering starts: nothing emitted, no temporary taken,
/// and the table that semantic analysis has filled.
pub open spec fn start(table: Map<Seq<char>, SpecType>) -> Lowering {
    Lowering { code: Seq::empty(), next: 0, table }
}

/// What the front end makes of the text `input`: the lowered program and the
/// table of the type of every variable and temporary, or what stops it: the
/// first error of the first stage that fails, or a limit of the machine that
/// the parser meets. The stages are the formatting check, parsing,
/// resolution, type checking and lowering, in this order.
pub open spec fn front_end(input: Seq<char>) -> Result<
    (SpecProgram, Map<Seq<char>, SpecType>),
    Stop,
> {
    match formatting(input) {
        Err(e) => Err(Stop::Failure(e)),
        Ok(_) => match parse(input) {
            Err(stop) => Err(stop),
            Ok(program) => match analysis(program) {
                Err(e) => Err(Stop::Failure(e)),
                Ok((typed, table)) => match lower_program(typed, start(table)) {
                    Err(e) => Err(Stop::Failure(e)),
                    Ok((lowered, end)) => Ok((lowered, end.table)),
                },
            },
        },
    }
}

/// What a compilation of `input` comes to when the draw is `roll`: a draw
/// of zero gives it up, whatever the text and before anything of it is read;
/// any other draw leaves it to the front end.
pub open spec fn compilation(input: Seq<char>, roll: u32) -> Result<
    (SpecProgram, Map<Seq<char>, SpecType>),
    Stop,
> {
    if roll == 0 {
        Err(Stop::Failure(fail(SpecErrorKind::RandomChance, no_line())))
    } else {
        front_end(input)
    }
}

/// `rand::rng().random_range(0..bound)`: a number drawn below `bound`, which
/// differs from call to call.
#[verifier::external_body]
fn draw_below(bound: u32) -> (r: u32)
    requires
        bound > 0,
    ensures
        r < bound,
{
    rand::rng().random_range(0..bound)
}

/// Runs the front end on `input`, which must not lead the parser into a
/// limit of the machine. A text that fails the formatting check leads
/// nowhere.
pub fn run_front_end(input: &str) -> (r: Result<(Program, SymbolTable), Error>)
    requires
        within_limits(front_end(input@)),
    ensures
        match r {
            Ok((program, table)) => front_end(input@) == Ok::<
                (SpecProgram, Map<Seq<char>, SpecType>),
                Stop,
            >((program@, table@)),
            Err(e) => front_end(input@) == Err::<(SpecProgram, Map<Seq<char>, SpecType>), Stop>(
                Stop::Failure(e@),
            ),
        },
{
    match formatting_check(input) {
        Ok(_) => {},
        Err(e) => { return Err(e); },
    }
    let program = match parse_text(input) {
        Ok(program) => program,
        Err(e) => { return Err(e); },
    };
    let (program, symbol_table) = match analyze(program) {
        Ok(analyzed) => analyzed,
        Err(e) => { return Err(e); },
    };
    let ghost table = symbol_table@;
    let mut ir_generator = IRGenerator::new(symbol_table);
    proof {
        assert(instruction_models(Seq::<Instruction>::empty()) =~= Seq::<
            SpecInstruction,
        >::empty());
        assert(ir_generator.state(Seq::empty()) == start(table));
    }
    let program = match ir_generator.generate_ir(program) {
        Ok(program) => program,
        Err(e) => { return Err(e); },
    };
    Ok((program, ir_generator.into_symbol_table()))
}

/// Compiles `input` when the draw was `roll`. After a draw of zero nothing
/// of the text is read, so that any text will do.
pub fn compile_drawn(input: &str, roll: u32) -> (r: Result<(Program, SymbolTable), Error>)
    requires
        within_limits(compilation(input@, roll)),
    ensures
        match r {
            Ok((program, table)) => compilation(input@, roll) == Ok::<
                (SpecProgram, Map<Seq<char>, SpecType>),
                Stop,
            >((program@, table@)),
            Err(e) => compilation(input@, roll) == Err::<
                (SpecProgram, Map<Seq<char>, SpecType>),
                Stop,
            >(Stop::Failure(e@)),
        },
{
    if roll == 0 {
        return Err(Error::new(ErrorKind::RandomChance, usize::MAX));
    }
    run_front_end(input)
}

/// Compiles `input` as far as the lowered program. With `chance` on, one
/// compilation in five, drawn at random and whatever the text, is given up
/// at once with the error `RandomChance`; with `chance` off, none is. As the
/// draw is not known beforehand, the text must not lead the front end into a
/// limit of the machine.
pub fn compile(input: &str, chance: bool) -> (r: Result<(Program, SymbolTable), Error>)
    requires
        within_limits(front_end(input@)),
    ensures
        exists|roll: u32|
            roll < ODDS && (!chance ==> roll != 0) && match r {
                Ok((program, table)) => #[trigger] compilation(input@, roll) == Ok::<
                    (SpecProgram, Map<Seq<char>, SpecType>),
                    Stop,
                >((program@, table@)),
                Err(e) => compilation(input@, roll) == Err::<
                    (SpecProgram, Map<Seq<char>, SpecType>),
                    Stop,
                >(Stop::Failure(e@)),
            },
{
    let roll = if chance {
        draw_below(ODDS)
    } else {
        1
    };
    compile_drawn(input, roll)
}

/// Whether `input` is seen beforehand to stay within the limits of the
/// machine: it fails the formatting check, so that none of its tokens is
/// read, or it can be tokenized on this machine to its end. A text with an
/// error of grammar before a number of more than 64 bits stays within the
/// limits too, but is not seen to.
pub open spec fn tried(input: Seq<char>) -> bool {
    formatting(input) is Err || lexable(input)
}

/// Compiles `input` as `compile` does, but on any text: the draw is made
/// first, and unless it gives the compilation up, the text is compiled where
/// it is seen beforehand to stay within the limits of the machine; where it
/// is not, nothing more is done and the answer is `None`.
pub fn try_compile(input: &str, chance: bool) -> (r: Option<
    Result<(Program, SymbolTable), Error>,
>)
    ensures
        tried(input@) ==> r is Some,
        !chance ==> (r is Some <==> tried(input@)),
        r matches Some(outcome) ==> exists|roll: u32|
            roll < ODDS && (!chance ==> roll != 0) && match outcome {
                Ok((program, table)) => #[trigger] compilation(input@, roll) == Ok::<
                    (SpecProgram, Map<Seq<char>, SpecType>),
                    Stop,
                >((program@, table@)),
                Err(e) => compilation(input@, roll) == Err::<
                    (SpecProgram, Map<Seq<char>, SpecType>),
                    Stop,
                >(Stop::Failure(e@)),
            },
{
    let roll = if chance {
        draw_below(ODDS)
    } else {
        1
    };
    if roll == 0 {
        return Some(compile_drawn(input, roll));
    }
    let formatted = match formatting_check(input) {
        Ok(_) => true,
        Err(_) => false,
    };
    if !formatted || is_lexable(input) {
        proof {
            if formatted {
                lemma_fitting_text(input@);
            }
        }
        Some(compile_drawn(input, roll))
    } else {
        None
    }
}

/// A stage is reached only if the stages before it pass. A text that fails
/// the formatting check fails with that error, whatever its tokens are; a
/// text that passes it and fails to parse fails with the error of the
/// parser, whatever its names and types are; and so on down the stages.
pub proof fn lemma_stages_in_order(input: Seq<char>)
    ensures
        formatting(input) matches Err(e) ==> front_end(input) == Err::<
            (SpecProgram, Map<Seq<char>, SpecType>),
            Stop,
        >(Stop::Failure(e)),
        formatting(input) is Ok ==> (parse(input) matches Err(stop) ==> front_end(input) == Err::<
            (SpecProgram, Map<Seq<char>, SpecType>),
            Stop,
        >(stop)),
        formatting(input) is Ok ==> (parse(input) matches Ok(program) ==> (analysis(
            program,
        ) matches Err(e) ==> front_end(input) == Err::<
            (SpecProgram, Map<Seq<char>, SpecType>),
            Stop,
        >(Stop::Failure(e)))),
{
}

/// Lowering adds no failure of its own: the front end stops only where the
/// formatting check, the parser or the semantic analysis does, and as that
/// stage does.
pub proof fn lemma_failures(input: Seq<char>)
    ensures
        front_end(input) matches Err(stop) ==> ((formatting(input) matches Err(e) && stop
            == Stop::Failure(e)) || parse(input) == Err::<
            crate::parser::nodes::SpecProgram,
            Stop,
        >(stop) || (parse(input) matches Ok(program) && analysis(program) matches Err(e) && stop
            == Stop::Failure(e))),
{
    if let Ok(program) = parse(input) {
        if let Ok((typed, table)) = analysis(program) {
            crate::agreement::lemma_stages_agree(program, start(table));
        }
    }
}

} // verus!
