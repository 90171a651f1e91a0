use ylc::errors::ErrorKind;
use ylc::parser::nodes::{
    BlockItem, Expression, ExpressionKind, Program, StatementKind, Type,
};
use ylc::parser::parse_text;
use ylc::semantic_analysis::typecheck::{STEntry, SymbolTable, TypeChecker};

const I: &str = "integer_meaning_whole_in_latin_with_exactly_thirty_two_bits";

fn pointer(to: Type) -> Type {
    Type::Pointer(Box::new(to))
}

fn function(body: &str) -> String {
    format!(
        "the function numbered 1 is {I} shall be equal to main left_bracket n is {I} comma p is pointing at {I} comma q is pointing at pointing at {I} right_bracket left_parenthesis\n{body}\nright_parenthesis\nthe function numbered 2 is pointing at {I} shall be equal to far left_bracket va is {I} comma vb is pointing at {I} right_bracket semicolon\n"
    )
}

fn check(body: &str) -> Result<(Program, TypeChecker), (ErrorKind, usize)> {
    let program = parse_text(&function(body)).expect("a program");
    let mut checker = TypeChecker::new();
    match checker.typecheck_program(program) {
        Ok(program) => Ok((program, checker)),
        Err(e) => Err((e.kind, e.line)),
    }
}

fn failure(body: &str) -> (ErrorKind, usize) {
    match check(body) {
        Ok(_) => panic!("the check should have failed"),
        Err(e) => e,
    }
}

fn kind_of(body: &str) -> ErrorKind {
    failure(body).0
}

fn type_of(expression: &str) -> Type {
    let (mut program, _) = match check(&format!("return {expression} period")) {
        Ok(checked) => checked,
        Err((kind, _)) => panic!("{kind:?}"),
    };
    let mut items = program.functions.remove(0).body.expect("a body").items;
    match items.remove(0) {
        BlockItem::Statement(statement) => match statement.kind {
            StatementKind::Return(value) => value.ty,
            _ => panic!("no return"),
        },
        BlockItem::Declaration(_) => panic!("a declaration"),
    }
}

fn call(name: &str, args: &str) -> String {
    format!(
        "i shall invoke the function named {name} and it shall take the parameters left_brace {args} right_brace"
    )
}

#[test]
fn numbers_and_variables_have_their_types() {
    assert_eq!(type_of("7"), Type::I32);
    assert_eq!(type_of("n"), Type::I32);
    assert_eq!(type_of("p"), pointer(Type::I32));
    assert_eq!(type_of("q"), pointer(pointer(Type::I32)));
}

#[test]
fn operands_of_one_type_give_that_type() {
    assert_eq!(type_of("n plus 1"), Type::I32);
    assert_eq!(type_of("n times n minus 2 div n mod 3"), Type::I32);
    assert_eq!(type_of("p plus p"), pointer(Type::I32));
}

#[test]
fn operands_of_different_types_are_an_error() {
    assert_eq!(failure("\nreturn n plus p period"), (ErrorKind::TypeError, 3));
    assert_eq!(kind_of("return p minus 1 period"), ErrorKind::TypeError);
    assert_eq!(kind_of("return p times q period"), ErrorKind::TypeError);
    assert_eq!(kind_of("return 1 plus left_brace 2 plus p right_brace period"), ErrorKind::TypeError);
}

#[test]
fn the_test_for_zero_wants_a_number() {
    assert_eq!(type_of("n is zero"), Type::I32);
    assert_eq!(kind_of("return p is zero period"), ErrorKind::TypeError);
}

#[test]
fn assignment_wants_one_type_and_a_place() {
    assert_eq!(type_of("n shall now be equal to 3"), Type::I32);
    assert_eq!(type_of("p shall now be equal to get the address of n"), pointer(Type::I32));
    assert_eq!(type_of("what p is pointing at shall now be equal to n"), Type::I32);
    assert_eq!(type_of("q array_start 0 array_end shall now be equal to p"), pointer(Type::I32));
    assert_eq!(kind_of("n shall now be equal to p period"), ErrorKind::TypeError);
    assert_eq!(kind_of("what p is pointing at shall now be equal to p period"), ErrorKind::TypeError);
    assert_eq!(kind_of("1 shall now be equal to 2 period"), ErrorKind::InvalidAssignmentTarget);
    assert_eq!(kind_of("n plus 1 shall now be equal to 2 period"), ErrorKind::InvalidAssignmentTarget);
    assert_eq!(kind_of("1 shall now be equal to p period"), ErrorKind::TypeError);
}

#[test]
fn addresses_are_taken_of_places() {
    assert_eq!(type_of("get the address of n"), pointer(Type::I32));
    assert_eq!(type_of("get the address of p"), pointer(pointer(Type::I32)));
    assert_eq!(type_of("get the address of what p is pointing at"), pointer(Type::I32));
    assert_eq!(kind_of("return get the address of 5 period"), ErrorKind::TypeError);
    assert_eq!(
        kind_of(&format!("return get the address of {} period", call("far", "n comma p"))),
        ErrorKind::TypeError
    );
}

#[test]
fn only_pointers_are_dereferenced() {
    assert_eq!(type_of("what p is pointing at"), Type::I32);
    assert_eq!(type_of("what q is pointing at"), pointer(Type::I32));
    assert_eq!(type_of("what what q is pointing at is pointing at"), Type::I32);
    assert_eq!(kind_of("return what n is pointing at period"), ErrorKind::TypeError);
    assert_eq!(kind_of("return what 3 is pointing at period"), ErrorKind::TypeError);
}

#[test]
fn subscripts_want_a_pointer_place_and_a_number() {
    assert_eq!(type_of("p array_start n array_end"), Type::I32);
    assert_eq!(type_of("q array_start 1 plus 2 array_end"), pointer(Type::I32));
    assert_eq!(kind_of("return n array_start 0 array_end period"), ErrorKind::TypeError);
    assert_eq!(kind_of("return p array_start p array_end period"), ErrorKind::TypeError);
    assert_eq!(
        kind_of(&format!("return {} array_start 0 array_end period", call("far", "n comma p"))),
        ErrorKind::TypeError
    );
}

#[test]
fn calls_are_held_to_the_signature() {
    assert_eq!(type_of(&call("far", "n comma p")), pointer(Type::I32));
    assert_eq!(type_of(&call("far", "1 plus 2 comma get the address of n")), pointer(Type::I32));
    assert_eq!(type_of(&call("main", "n comma p comma q")), Type::I32);
    assert_eq!(kind_of(&format!("return {} period", call("far", "n"))), ErrorKind::TypeError);
    assert_eq!(kind_of(&format!("return {} period", call("far", ""))), ErrorKind::TypeError);
    assert_eq!(
        kind_of(&format!("return {} period", call("far", "n comma p comma n"))),
        ErrorKind::TypeError
    );
    assert_eq!(kind_of(&format!("return {} period", call("far", "p comma p"))), ErrorKind::TypeError);
    assert_eq!(kind_of(&format!("return {} period", call("far", "n comma n"))), ErrorKind::TypeError);
    assert_eq!(kind_of(&format!("return {} period", call("n", ""))), ErrorKind::TypeError);
}

#[test]
fn an_error_in_an_argument_comes_before_the_signature() {
    assert_eq!(
        kind_of(&format!("return {} period", call("far", "1 shall now be equal to 2 comma n"))),
        ErrorKind::InvalidAssignmentTarget
    );
    assert_eq!(
        kind_of(&format!("return {} period", call("far", "unknown comma p"))),
        ErrorKind::VariableNotDeclared("unknown".to_string())
    );
}

#[test]
fn a_function_is_no_value() {
    assert_eq!(kind_of("return far period"), ErrorKind::TypeError);
    assert_eq!(kind_of("return main plus 1 period"), ErrorKind::TypeError);
}

#[test]
fn a_name_without_a_type_is_not_declared() {
    assert_eq!(
        failure("\n\nreturn unknown period"),
        (ErrorKind::VariableNotDeclared("unknown".to_string()), 4)
    );
    assert_eq!(
        kind_of(&format!("return {} period", call("nowhere", ""))),
        ErrorKind::VariableNotDeclared("nowhere".to_string())
    );
}

#[test]
fn the_stated_type_of_a_declaration_is_not_held_to_its_value() {
    let body = format!(
        "i am declaring a variable named strange is pointing at {I} shall be equal to 5 period\nreturn what strange is pointing at period"
    );
    let (_, checker) = match check(&body) {
        Ok(checked) => checked,
        Err((kind, _)) => panic!("{kind:?}"),
    };
    assert_eq!(checker.symbol_table.get("strange").expect("an entry").ty, pointer(Type::I32));
}

#[test]
fn a_declared_name_is_typed_after_its_value() {
    let body = format!("i am declaring a variable named counter is {I} shall be equal to counter period");
    assert_eq!(kind_of(&body), ErrorKind::VariableNotDeclared("counter".to_string()));
}

#[test]
fn every_part_of_a_statement_is_checked() {
    assert_eq!(kind_of("in the case that p is zero do return 1 period"), ErrorKind::TypeError);
    assert_eq!(kind_of("in the case that n do return n plus p period"), ErrorKind::TypeError);
    assert_eq!(
        kind_of("in the case that n do return 1 period or do return n plus p period"),
        ErrorKind::TypeError
    );
    assert_eq!(
        kind_of("during the period that n plus p is not zero do return 1 period"),
        ErrorKind::TypeError
    );
    assert_eq!(
        kind_of("during the period that n is not zero do left_parenthesis return n plus p period right_parenthesis"),
        ErrorKind::TypeError
    );
    assert_eq!(kind_of("n plus p period"), ErrorKind::TypeError);
    assert!(check("in the case that p do return 1 period or do return 2 period").is_ok());
}

#[test]
fn the_table_holds_functions_parameters_and_variables() {
    let body = format!("i am declaring a variable named counter is {I} shall be equal to n period");
    let (program, checker) = match check(&body) {
        Ok(checked) => checked,
        Err((kind, _)) => panic!("{kind:?}"),
    };
    assert_eq!(program.functions.len(), 2);
    let table = &checker.symbol_table;
    assert_eq!(table.get("counter").unwrap().ty, Type::I32);
    assert_eq!(table.get("n").unwrap().ty, Type::I32);
    assert_eq!(table.get("q").unwrap().ty, pointer(pointer(Type::I32)));
    assert_eq!(table.get("va").unwrap().ty, Type::I32);
    assert_eq!(
        table.get("main").unwrap().ty,
        Type::Function(
            vec![Type::I32, pointer(Type::I32), pointer(pointer(Type::I32))],
            Box::new(Type::I32)
        )
    );
    assert_eq!(
        table.get("far").unwrap().ty,
        Type::Function(vec![Type::I32, pointer(Type::I32)], Box::new(pointer(Type::I32)))
    );
    assert!(table.get("unknown").is_none());
}

#[test]
fn a_table_gives_back_what_was_put_in() {
    let mut table = SymbolTable::new();
    assert!(table.get("name").is_none());
    table.insert_raw("name".to_string(), Type::I32);
    assert_eq!(table.get("name").unwrap().ty, Type::I32);
    table.insert("name".to_string(), STEntry { ty: pointer(Type::I32) });
    assert_eq!(table.get("name").unwrap().ty, pointer(Type::I32));
    table.insert("other".to_string(), STEntry { ty: Type::I32 });
    assert_eq!(table.get("name").unwrap().ty, pointer(Type::I32));
    assert_eq!(table.get("other").unwrap().ty, Type::I32);
    assert!(table.get("").is_none());
}

#[test]
fn types_are_compared_and_copied_whole() {
    let deep = Type::Function(vec![Type::I32, pointer(pointer(Type::I32))], Box::new(pointer(Type::I32)));
    let copy = deep.clone();
    assert!(deep.same(&copy));
    assert_eq!(deep, copy);
    assert!(!deep.same(&Type::Function(vec![Type::I32], Box::new(pointer(Type::I32)))));
    assert!(!deep.same(&Type::Function(
        vec![Type::I32, pointer(Type::I32)],
        Box::new(pointer(Type::I32))
    )));
    assert!(!deep.same(&Type::Function(
        vec![Type::I32, pointer(pointer(Type::I32))],
        Box::new(Type::I32)
    )));
    assert!(!pointer(Type::I32).same(&Type::I32));
    assert!(pointer(Type::I32).same(&pointer(Type::I32)));
    assert!(Type::I32.same(&Type::I32));
}

#[test]
fn a_checked_expression_keeps_its_shape_and_line() {
    let (mut program, _) = match check("\nreturn n plus 1 period") {
        Ok(checked) => checked,
        Err((kind, _)) => panic!("{kind:?}"),
    };
    let mut items = program.functions.remove(0).body.expect("a body").items;
    let value = match items.remove(0) {
        BlockItem::Statement(statement) => match statement.kind {
            StatementKind::Return(value) => value,
            _ => panic!("no return"),
        },
        BlockItem::Declaration(_) => panic!("a declaration"),
    };
    assert_eq!(value.line_started, 3);
    match value.kind {
        ExpressionKind::Binary(_, left, right) => {
            assert_eq!(
                *left,
                Expression {
                    kind: ExpressionKind::Variable("n".to_string()),
                    line_started: 3,
                    ty: Type::I32
                }
            );
            assert_eq!(
                *right,
                Expression { kind: ExpressionKind::Number(1), line_started: 3, ty: Type::I32 }
            );
        }
        _ => panic!("no sum"),
    }
}
