use ylc::compiler::compile;
use ylc::errors::{Error, ErrorKind};

const INT: &str = "integer_meaning_whole_in_latin_with_exactly_thirty_two_bits";

fn failure_of(input: &str) -> Error {
    match compile(input, false) {
        Ok(_) => panic!("Compilation should have failed!"),
        Err(e) => e,
    }
}

fn test_error(input: &str, expected_error: ErrorKind) {
    assert_eq!(failure_of(input).kind, expected_error);
}

fn function_with(body: &str) -> String {
    format!(
        "the function numbered 1 is {INT} shall be equal to main left_bracket right_bracket left_parenthesis\n{body}right_parenthesis\n"
    )
}

fn declaration(name: &str, value: &str) -> String {
    format!("i am declaring a variable named {name} is {INT} shall be equal to {value} period\n")
}

#[test]
fn test_extra_line() {
    let input = format!("{}\n{}", function_with("return 0 period\n"), "");
    let input = input.replace("left_parenthesis\n", "left_parenthesis\n\n");
    test_error(&input, ErrorKind::ExtraLine);
}

#[test]
fn test_lonely_variable() {
    let body = format!("{}return lonely_one period\n", declaration("lonely_one", "2"));
    test_error(&function_with(&body), ErrorKind::LonelyVariable);
}

#[test]
fn test_long_func_name() {
    let input = function_with("return 0 period\n").replace("to main left", "to fiver left");
    test_error(&input, ErrorKind::LongFuncName("fiver".to_string()));
}

#[test]
fn test_packed_func() {
    let mut body = String::new();
    for i in 0..11 {
        body.push_str(&declaration(&format!("variable_{i}"), "1"));
    }
    body.push_str("return 0 period\n");
    test_error(&function_with(&body), ErrorKind::PackedFunc(11));
}

#[test]
fn test_short_var_name() {
    let body = format!("{}{}return 0 period\n", declaration("var", "1"), declaration("another_one", "2"));
    test_error(&function_with(&body), ErrorKind::ShortVarName("var".to_string()));
}

#[test]
fn test_tabbing() {
    let input = function_with("    return 0 period\n");
    test_error(&input, ErrorKind::Tabbing);
}

#[test]
fn test_unexpected_char() {
    test_error(&function_with("return @ period\n"), ErrorKind::UnexpectedChar('@'));
}

#[test]
fn test_unexpected_eof() {
    test_error("the function numbered 1", ErrorKind::UnexpectedEOF);
}

#[test]
fn test_unexpected_token() {
    test_error(
        "i am lost",
        ErrorKind::UnexpectedToken { expected: "the".to_string(), found: "i".to_string() },
    );
}

#[test]
fn test_variable_already_declared() {
    let body = format!(
        "{}{}return 0 period\n",
        declaration("varrrriable", "1"),
        declaration("varrrriable", "2")
    );
    test_error(&function_with(&body), ErrorKind::VariableAlreadyDeclared("varrrriable".to_string()));
}

#[test]
fn test_variable_not_declared() {
    test_error(
        &function_with("return varrrriable period\n"),
        ErrorKind::VariableNotDeclared("varrrriable".to_string()),
    );
}

#[test]
fn test_wrong_function_count() {
    let input = function_with("return 0 period\n").replace("numbered 1", "numbered 2");
    test_error(&input, ErrorKind::WrongfunctionCount { expected: 1, found: 2 });
}

#[test]
fn test_invalid_assignment_target() {
    test_error(
        &function_with("5 shall now be equal to 3 period\n"),
        ErrorKind::InvalidAssignmentTarget,
    );
}

#[test]
fn errors_carry_the_line_they_are_blamed_on() {
    let e = failure_of(&function_with("return 0 period\nreturn @ period\n"));
    assert_eq!(e.kind, ErrorKind::UnexpectedChar('@'));
    assert_eq!(e.line, 3);
    let e = failure_of(&function_with("    return 0 period\n"));
    assert_eq!(e.line, usize::MAX);
    let body = format!("return 0 period\n{}", declaration("short", "1"));
    let e = failure_of(&function_with(&body));
    assert_eq!(e.kind, ErrorKind::ShortVarName("short".to_string()));
    assert_eq!(e.line, 3);
}

#[test]
fn new_keeps_kind_and_line() {
    let e = Error::new(ErrorKind::TypeError, 7);
    assert_eq!(e.kind, ErrorKind::TypeError);
    assert_eq!(e.line, 7);
}

#[test]
fn messages_name_what_went_wrong() {
    assert_eq!(
        ErrorKind::UnexpectedChar('@').to_speech(),
        "What the hell is a '@', why would you type that. You must hate everyone huh."
    );
    assert_eq!(
        ErrorKind::WrongfunctionCount { expected: 1, found: 20 }.to_speech(),
        "Do you want your code to be unreadable? Why did you mark your function as number 20 instead of 1?"
    );
    assert_eq!(
        ErrorKind::UnexpectedToken { expected: "the".to_string(), found: "i".to_string() }
            .to_speech(),
        "You dumbass, you wrote i, when I wanted the"
    );
    assert_eq!(
        ErrorKind::PackedFunc(11).to_speech(),
        "Woah woah woah. Slow your horses buddy! You can't have 11 whole variables in just one function. That's basically a party! Calm it down a bit!"
    );
    assert_eq!(
        ErrorKind::LongFuncName("fiver".to_string()).to_speech(),
        "\"fiver\" br u nt skspr \u{1f494}"
    );
    assert_eq!(
        ErrorKind::VariableNotDeclared("ghost_name".to_string()).to_speech(),
        "Buddy... this is meant to be a bad compiler... how are you making these kinds of mistakes... ghost_name doesn't exist buddy..."
    );
    assert_eq!(ErrorKind::UnexpectedEOF.to_speech(), "Why the hell is there an EOF here");
}

#[test]
fn report_shows_the_line_or_a_reply() {
    let input = "first line\nsecond line\nthird line\n";
    let e = Error::new(ErrorKind::UnexpectedEOF, 2);
    assert_eq!(e.report(input), "Error: Why the hell is there an EOF here\n2 | second line\n");
    let last = Error::new(ErrorKind::UnexpectedEOF, 3);
    assert_eq!(last.report(input), "Error: Why the hell is there an EOF here\n3 | third line\n");
    let past = Error::new(ErrorKind::UnexpectedEOF, 4);
    assert_eq!(
        past.report(input),
        "Error: Why the hell is there an EOF here\n4 | LALALALALA I CAN'T HEAR YOU\n"
    );
    let only = Error::new(ErrorKind::TypeError, 1);
    assert!(only.report("the one line").ends_with("\n1 | the one line\n"));
    assert!(only.report("").ends_with("\n1 | LALALALALA I CAN'T HEAR YOU\n"));
    let none = Error::new(ErrorKind::UnexpectedEOF, 0);
    assert_eq!(
        none.report(input),
        "Error: Why the hell is there an EOF here\n0 | LALALALALA I CAN'T HEAR YOU\n"
    );
    let far = Error::new(ErrorKind::Tabbing, usize::MAX);
    assert!(far.report(input).ends_with(" | LALALALALA I CAN'T HEAR YOU\n"));
    assert_eq!(
        ErrorKind::ExtraLine.report("12 | text"),
        "Error: Why is one of your lines empty? Are you trying to waste space? Do better!\n12 | text\n"
    );
}

#[test]
fn report_strips_the_carriage_return_of_a_line() {
    let e = Error::new(ErrorKind::TypeError, 1);
    let text = e.report("one\r\ntwo\r\n");
    assert!(text.ends_with("\n1 | one\n"));
}
