use ylc::errors::ErrorKind;
use ylc::parser::parse_text;
use ylc::semantic_analysis::analyze;
use ylc::semantic_analysis::variable_resolution::Analyzer;

const NUMBER: &str = "integer_meaning_whole_in_latin_with_exactly_thirty_two_bits";

fn header(ordinal: u32, name: &str, params: &str) -> String {
    format!(
        "the function numbered {ordinal} is {NUMBER} shall be equal to {name} left_bracket {params} right_bracket"
    )
}

fn function(ordinal: u32, name: &str, params: &str, body: &str) -> String {
    format!("{} left_parenthesis\n{body}right_parenthesis\n", header(ordinal, name, params))
}

fn declare(name: &str, value: &str) -> String {
    format!("i am declaring a variable named {name} is {NUMBER} shall be equal to {value} period\n")
}

fn declarations(count: usize) -> String {
    (0..count).map(|i| declare(&format!("number_{i}"), "1")).collect()
}

fn resolve(input: &str) -> Result<(), (ErrorKind, usize)> {
    let program = parse_text(input).expect("a program");
    let mut analyzer = Analyzer::new();
    match analyzer.analyze_program(program) {
        Ok(_) => Ok(()),
        Err(e) => Err((e.kind, e.line)),
    }
}

fn kind_of(input: &str) -> ErrorKind {
    resolve(input).expect_err("resolution should have failed").0
}

#[test]
fn a_function_name_has_at_most_four_characters() {
    assert_eq!(resolve(&function(1, "four", "", "")), Ok(()));
    assert_eq!(resolve(&function(1, "f", "", "")), Ok(()));
    assert_eq!(
        resolve(&function(1, "fives", "", "")),
        Err((ErrorKind::LongFuncName("fives".to_string()), 1))
    );
    assert_eq!(
        kind_of(&function(1, "much_longer", "", "")),
        ErrorKind::LongFuncName("much_longer".to_string())
    );
}

#[test]
fn the_length_of_a_name_is_counted_in_characters() {
    assert_eq!(resolve(&function(1, "\u{e9}\u{e9}\u{e9}\u{e9}", "", "")), Ok(()));
    let body = format!("{}{}", declare("\u{e9}\u{e9}\u{e9}\u{e9}", "1"), declare("another", "1"));
    assert_eq!(
        kind_of(&function(1, "main", "", &body)),
        ErrorKind::ShortVarName("\u{e9}\u{e9}\u{e9}\u{e9}".to_string())
    );
}

#[test]
fn the_first_long_function_name_is_reported_before_any_body() {
    let input = format!(
        "{}{}{}",
        function(1, "ok", "", "return missing_name period\n"),
        function(2, "too_long", "", ""),
        function(3, "longer_still", "", "")
    );
    assert_eq!(resolve(&input), Err((ErrorKind::LongFuncName("too_long".to_string()), 4)));
}

#[test]
fn a_declared_name_has_at_least_seven_characters() {
    let two = |name: &str| format!("{}{}", declare(name, "1"), declare("another", "2"));
    assert_eq!(resolve(&function(1, "main", "", &two("exactly"))), Ok(()));
    assert_eq!(resolve(&function(1, "main", "", &two("much_longer_name"))), Ok(()));
    assert_eq!(
        resolve(&function(1, "main", "", &two("sixsix"))),
        Err((ErrorKind::ShortVarName("sixsix".to_string()), 2))
    );
    assert_eq!(kind_of(&function(1, "main", "", &two("x"))), ErrorKind::ShortVarName("x".to_string()));
}

#[test]
fn a_parameter_may_be_short() {
    assert_eq!(resolve(&function(1, "main", &format!("x is {NUMBER} comma y is {NUMBER}"), "return x plus y period\n")), Ok(()));
}

#[test]
fn a_name_is_declared_once_in_the_whole_program() {
    let twice = format!("{}{}", declare("counter", "1"), declare("counter", "2"));
    assert_eq!(
        resolve(&function(1, "main", "", &twice)),
        Err((ErrorKind::VariableAlreadyDeclared("counter".to_string()), 3))
    );
    let nested = format!(
        "{}left_parenthesis\n{}right_parenthesis\n{}",
        declare("outside", "1"),
        declare("inside_", "2"),
        declare("inside_", "3")
    );
    assert_eq!(
        kind_of(&function(1, "main", "", &nested)),
        ErrorKind::VariableAlreadyDeclared("inside_".to_string())
    );
    let across = format!(
        "{}{}",
        function(1, "one", "", &format!("{}{}", declare("counter", "1"), declare("another", "1"))),
        function(2, "two", "", &format!("{}{}", declare("counter", "1"), declare("different", "1")))
    );
    assert_eq!(kind_of(&across), ErrorKind::VariableAlreadyDeclared("counter".to_string()));
    let parameter = format!(
        "{}{}",
        function(1, "one", &format!("counter is {NUMBER} comma y is {NUMBER}"), ""),
        function(2, "two", "", &format!("{}{}", declare("counter", "1"), declare("different", "1")))
    );
    assert_eq!(kind_of(&parameter), ErrorKind::VariableAlreadyDeclared("counter".to_string()));
}

#[test]
fn the_length_of_a_name_is_held_to_after_its_newness() {
    let input = format!(
        "{}{}",
        function(1, "one", &format!("x is {NUMBER} comma y is {NUMBER}"), ""),
        function(2, "two", "", &declare("x", "1"))
    );
    assert_eq!(kind_of(&input), ErrorKind::VariableAlreadyDeclared("x".to_string()));
}

#[test]
fn parameters_may_share_a_name_across_functions() {
    let params = format!("x is {NUMBER} comma y is {NUMBER}");
    let input = format!("{}{}", function(1, "one", &params, ""), function(2, "two", &params, ""));
    assert_eq!(resolve(&input), Ok(()));
}

#[test]
fn a_name_must_be_bound_to_be_used() {
    assert_eq!(
        resolve(&function(1, "main", "", "return 1 plus unknown period\n")),
        Err((ErrorKind::VariableNotDeclared("unknown".to_string()), 2))
    );
    assert_eq!(
        kind_of(&function(1, "main", "", "unknown shall now be equal to 1 period\n")),
        ErrorKind::VariableNotDeclared("unknown".to_string())
    );
    assert_eq!(
        kind_of(&function(1, "main", "", "return i shall invoke the function named far and it shall take the parameters left_brace right_brace period\n")),
        ErrorKind::VariableNotDeclared("far".to_string())
    );
    assert_eq!(
        kind_of(&function(1, "main", "", "return get the address of unknown period\n")),
        ErrorKind::VariableNotDeclared("unknown".to_string())
    );
    assert_eq!(
        kind_of(&function(1, "main", "", "return what unknown is pointing at period\n")),
        ErrorKind::VariableNotDeclared("unknown".to_string())
    );
    assert_eq!(
        kind_of(&function(1, "main", &format!("x is {NUMBER} comma y is {NUMBER}"), "return x array_start unknown array_end period\n")),
        ErrorKind::VariableNotDeclared("unknown".to_string())
    );
}

#[test]
fn a_name_is_not_bound_in_its_own_declaration() {
    let body = format!("{}{}", declare("counter", "counter"), declare("another", "1"));
    assert_eq!(
        kind_of(&function(1, "main", "", &body)),
        ErrorKind::VariableNotDeclared("counter".to_string())
    );
}

#[test]
fn a_name_bound_in_a_block_stays_bound_after_it() {
    let body = format!(
        "left_parenthesis\n{}{}right_parenthesis\nreturn inside_ plus another period\n",
        declare("inside_", "1"),
        declare("another", "2")
    );
    assert_eq!(resolve(&function(1, "main", "", &body)), Ok(()));
}

#[test]
fn a_name_bound_in_one_function_is_bound_in_the_next() {
    let input = format!(
        "{}{}",
        function(1, "one", "", &format!("{}{}", declare("counter", "1"), declare("another", "1"))),
        function(2, "two", "", "return counter period\n")
    );
    assert_eq!(resolve(&input), Ok(()));
}

#[test]
fn functions_can_be_called_before_they_are_defined() {
    let call = |name: &str| format!(
        "return i shall invoke the function named {name} and it shall take the parameters left_brace right_brace period\n"
    );
    let input = format!(
        "{}{}{}",
        function(1, "one", "", &call("two")),
        function(2, "two", "", &call("one")),
        function(3, "self", "", &call("self"))
    );
    assert_eq!(resolve(&input), Ok(()));
}

#[test]
fn only_a_variable_can_be_assigned_to() {
    let params = format!("x is pointing at {NUMBER} comma y is {NUMBER}");
    assert_eq!(resolve(&function(1, "main", &params, "y shall now be equal to 1 period\n")), Ok(()));
    assert_eq!(
        resolve(&function(1, "main", &params, "\nwhat x is pointing at shall now be equal to 1 period\n")),
        Err((ErrorKind::InvalidAssignmentTarget, 3))
    );
    assert_eq!(
        kind_of(&function(1, "main", &params, "x array_start 0 array_end shall now be equal to 1 period\n")),
        ErrorKind::InvalidAssignmentTarget
    );
    assert_eq!(
        kind_of(&function(1, "main", &params, "1 plus 2 shall now be equal to unknown period\n")),
        ErrorKind::VariableNotDeclared("unknown".to_string())
    );
}

#[test]
fn a_single_variable_is_lonely() {
    assert_eq!(resolve(&function(1, "main", "", "")), Ok(()));
    assert_eq!(
        resolve(&function(1, "main", "", &declarations(1))),
        Err((ErrorKind::LonelyVariable, 1))
    );
    assert_eq!(resolve(&function(1, "main", "", &declarations(2))), Ok(()));
    assert_eq!(
        kind_of(&function(1, "main", &format!("x is {NUMBER}"), "")),
        ErrorKind::LonelyVariable
    );
    assert_eq!(
        kind_of(&format!("{} semicolon", header(1, "main", &format!("x is {NUMBER}")))),
        ErrorKind::LonelyVariable
    );
    assert_eq!(resolve(&function(1, "main", &format!("x is {NUMBER}"), &declarations(1))), Ok(()));
}

#[test]
fn ten_variables_are_a_crowd() {
    assert_eq!(resolve(&function(1, "main", "", &declarations(9))), Ok(()));
    assert_eq!(
        resolve(&function(1, "main", "", &declarations(10))),
        Err((ErrorKind::PackedFunc(10), 1))
    );
    assert_eq!(kind_of(&function(1, "main", "", &declarations(25))), ErrorKind::PackedFunc(25));
    let params = format!("x is {NUMBER} comma y is {NUMBER} comma z is {NUMBER}");
    assert_eq!(resolve(&function(1, "main", &params, &declarations(6))), Ok(()));
    assert_eq!(kind_of(&function(1, "main", &params, &declarations(7))), ErrorKind::PackedFunc(10));
}

#[test]
fn variables_are_counted_for_each_function_and_in_every_block() {
    let first: String = (0..9).map(|i| declare(&format!("first_{i}"), "1")).collect();
    let second: String = (0..9).map(|i| declare(&format!("second_{i}"), "1")).collect();
    let input = format!("{}{}", function(1, "one", "", &first), function(2, "two", "", &second));
    assert_eq!(resolve(&input), Ok(()));
    let nested = format!(
        "{}in the case that 1 do left_parenthesis\n{}right_parenthesis\nor do left_parenthesis\n{}right_parenthesis\n",
        declarations(4),
        (0..3).map(|i| declare(&format!("then_{i}__"), "1")).collect::<String>(),
        (0..3).map(|i| declare(&format!("else_{i}__"), "1")).collect::<String>()
    );
    assert_eq!(kind_of(&function(1, "main", "", &nested)), ErrorKind::PackedFunc(10));
}

#[test]
fn an_error_in_the_body_comes_before_the_count() {
    let body = format!("{}return unknown period\n", declarations(1));
    assert_eq!(
        kind_of(&function(1, "main", "", &body)),
        ErrorKind::VariableNotDeclared("unknown".to_string())
    );
}

#[test]
fn a_resolved_program_is_returned_as_it_is() {
    let input = format!(
        "{}{}",
        function(1, "one", "", &declarations(2)),
        format!("{} semicolon", header(2, "two", ""))
    );
    let program = parse_text(&input).expect("a program");
    let mut analyzer = Analyzer::new();
    let resolved = analyzer.analyze_program(program).expect("a resolved program");
    assert_eq!(resolved.functions.len(), 2);
    assert_eq!(resolved.functions[0].name, "one");
    assert_eq!(resolved.functions[0].body.as_ref().unwrap().items.len(), 2);
    assert!(resolved.functions[1].body.is_none());
}

#[test]
fn analysis_resolves_before_it_checks_types() {
    let params = format!("x is pointing at {NUMBER} comma y is {NUMBER}");
    let both = function(1, "main", &params, "return x plus unknown period\n");
    let program = parse_text(&both).expect("a program");
    assert_eq!(
        analyze(program).err().expect("an error").kind,
        ErrorKind::VariableNotDeclared("unknown".to_string())
    );
    let typed = function(1, "main", &params, "return x plus y period\n");
    let program = parse_text(&typed).expect("a program");
    assert_eq!(analyze(program).err().expect("an error").kind, ErrorKind::TypeError);
    let fine = function(1, "main", &params, "return y plus 1 period\n");
    let program = parse_text(&fine).expect("a program");
    let (program, table) = analyze(program).ok().expect("an analyzed program");
    assert_eq!(program.functions.len(), 1);
    assert!(table.get("x").is_some());
    assert!(table.get("main").is_some());
    assert!(table.get("unknown").is_none());
}
