use ylc::compiler::{compile, compile_drawn, run_front_end, try_compile, ODDS};
use ylc::errors::ErrorKind;
use ylc::formatting::{formatting_check, line_spans};
use ylc::ir::definition::{Instruction, Val};
use ylc::lexer::is_lexable;
use ylc::parser::nodes::Type;

const WORD: &str = "integer_meaning_whole_in_latin_with_exactly_thirty_two_bits";

fn sample() -> String {
    format!(
        "the function numbered 1 is {WORD} shall be equal to main left_bracket right_bracket left_parenthesis\ni am declaring a variable named first_value is {WORD} shall be equal to 2 period\ni am declaring a variable named second_value is {WORD} shall be equal to first_value plus 3 period\nreturn second_value period\nright_parenthesis\n"
    )
}

fn check(input: &str) -> Result<(), ErrorKind> {
    formatting_check(input).map_err(|e| {
        assert_eq!(e.line, usize::MAX);
        e.kind
    })
}

#[test]
fn a_program_goes_through_every_stage() {
    let (program, table) = run_front_end(&sample()).ok().expect("a lowered program");
    assert_eq!(program.functions.len(), 1);
    assert_eq!(program.functions[0].name, "main");
    assert_eq!(program.functions[0].body.len(), 4);
    assert_eq!(program.functions[0].body[3], Instruction::Return(Val::Var("second_value".to_string())));
    assert_eq!(table.get("first_value").unwrap().ty, Type::I32);
    assert_eq!(table.get(".tmp.0").unwrap().ty, Type::I32);
    assert_eq!(table.get("main").unwrap().ty, Type::Function(vec![], Box::new(Type::I32)));
}

#[test]
fn without_chance_compilation_depends_on_the_text_alone() {
    for _ in 0..50 {
        assert!(compile(&sample(), false).is_ok());
    }
}

#[test]
fn with_chance_some_compilations_are_given_up() {
    let mut given_up = 0;
    let mut done = 0;
    for _ in 0..400 {
        match compile(&sample(), true) {
            Ok(_) => done += 1,
            Err(e) => {
                assert_eq!(e.kind, ErrorKind::RandomChance);
                assert_eq!(e.line, usize::MAX);
                given_up += 1;
            }
        }
    }
    assert!(given_up > 0);
    assert!(done > given_up);
}

#[test]
fn a_draw_of_zero_reads_nothing() {
    let huge = "return 340282366920938463463374607431768211456 period";
    let e = compile_drawn(huge, 0).err().expect("an error");
    assert_eq!(e.kind, ErrorKind::RandomChance);
    assert_eq!(e.line, usize::MAX);
}

#[test]
fn a_draw_of_zero_gives_up() {
    assert_eq!(ODDS, 5);
    let e = compile_drawn(&sample(), 0).err().expect("an error");
    assert_eq!(e.kind, ErrorKind::RandomChance);
    assert_eq!(e.line, usize::MAX);
    let e = compile_drawn("  not a program", 0).err().expect("an error");
    assert_eq!(e.kind, ErrorKind::RandomChance);
    for roll in 1..ODDS {
        assert!(compile_drawn(&sample(), roll).is_ok());
    }
}

#[test]
fn formatting_is_held_to_before_any_token_is_made() {
    let e = run_front_end(" @@@ $$$").err().expect("an error");
    assert_eq!(e.kind, ErrorKind::Tabbing);
    let e = run_front_end("@@@\n\n$$$").err().expect("an error");
    assert_eq!(e.kind, ErrorKind::ExtraLine);
    let e = run_front_end("@@@").err().expect("an error");
    assert_eq!(e.kind, ErrorKind::UnexpectedChar('@'));
}

#[test]
fn parsing_comes_before_the_rules_on_names() {
    let input = sample().replace("to main left", "to much_too_long left").replace("numbered 1", "numbered 4");
    let e = run_front_end(&input).err().expect("an error");
    assert_eq!(e.kind, ErrorKind::WrongfunctionCount { expected: 1, found: 4 });
}

#[test]
fn no_line_starts_with_white_space() {
    assert_eq!(check("one\ntwo\nthree"), Ok(()));
    assert_eq!(check("one\n two\nthree"), Err(ErrorKind::Tabbing));
    assert_eq!(check("one\n\ttwo\nthree"), Err(ErrorKind::Tabbing));
    assert_eq!(check(" one"), Err(ErrorKind::Tabbing));
    assert_eq!(check("one\ntwo\n\u{a0}three"), Err(ErrorKind::Tabbing));
    assert_eq!(check("one \ntwo\t\n"), Ok(()));
    assert_eq!(check("one\n\rtwo"), Err(ErrorKind::Tabbing));
    assert_eq!(check("one\n\r"), Err(ErrorKind::Tabbing));
}

#[test]
fn no_line_is_empty() {
    assert_eq!(check("one\n\nthree"), Err(ErrorKind::ExtraLine));
    assert_eq!(check("\none"), Err(ErrorKind::ExtraLine));
    assert_eq!(check("one\n\n"), Err(ErrorKind::ExtraLine));
    assert_eq!(check("one\r\n\r\nthree"), Err(ErrorKind::ExtraLine));
    assert_eq!(check("\n"), Err(ErrorKind::ExtraLine));
    assert_eq!(check("one\n"), Ok(()));
    assert_eq!(check("one\r\ntwo\r\n"), Ok(()));
    assert_eq!(check(""), Ok(()));
}

#[test]
fn white_space_at_the_start_of_a_line_comes_first() {
    assert_eq!(check("\n one"), Err(ErrorKind::Tabbing));
    assert_eq!(check("one\n\n\n\ttwo"), Err(ErrorKind::Tabbing));
}

#[test]
fn lines_are_found_between_line_feeds() {
    assert_eq!(line_spans(""), vec![]);
    assert_eq!(line_spans("one"), vec![(0, 3)]);
    assert_eq!(line_spans("one\n"), vec![(0, 3)]);
    assert_eq!(line_spans("one\ntwo"), vec![(0, 3), (4, 7)]);
    assert_eq!(line_spans("one\r\ntwo\r"), vec![(0, 3), (5, 9)]);
    assert_eq!(line_spans("\n\r\n\n"), vec![(0, 0), (1, 1), (3, 3)]);
    assert_eq!(line_spans("\u{e9}\u{e9}\n\u{1f494}"), vec![(0, 2), (3, 4)]);
}

#[test]
fn a_text_is_tested_before_it_is_compiled() {
    assert!(is_lexable(&sample()));
    let huge = sample().replace("equal to 2 period", "equal to 340282366920938463463374607431768211456 period");
    assert!(!is_lexable(&huge));
    assert!(try_compile(&huge, false).is_none());
    for _ in 0..50 {
        match try_compile(&huge, true) {
            None => {}
            Some(outcome) => {
                assert_eq!(outcome.err().expect("an error").kind, ErrorKind::RandomChance)
            }
        }
    }
    let tabbed = format!(" {huge}");
    let unread = try_compile(&tabbed, false).expect("an outcome");
    assert_eq!(unread.err().expect("an error").kind, ErrorKind::Tabbing);
    let outcome = try_compile(&sample(), false).expect("an outcome");
    assert_eq!(outcome.ok().expect("a lowered program").0.functions.len(), 1);
    let failed = try_compile("the function", false).expect("an outcome");
    assert_eq!(failed.err().expect("an error").kind, ErrorKind::UnexpectedEOF);
}
