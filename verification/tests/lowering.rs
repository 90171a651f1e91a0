use ylc::errors::ErrorKind;
use ylc::ir::definition::{Binop, Function, Instruction, Program, Val};
use ylc::ir::IRGenerator;
use ylc::llvm_gen::var_collecter::Collector;
use ylc::parser::nodes;
use ylc::parser::nodes::{Expression, ExpressionKind, Type};
use ylc::parser::parse_text;
use ylc::semantic_analysis::typecheck::{SymbolTable, TypeChecker};

const INTEGER: &str = "integer_meaning_whole_in_latin_with_exactly_thirty_two_bits";

fn var(name: &str) -> Val {
    Val::Var(name.to_string())
}

fn tmp(number: u32) -> Val {
    Val::Var(format!(".tmp.{number}"))
}

fn label(number: u32) -> String {
    format!(".tmp.{number}")
}

fn copy(src: Val, dst: Val) -> Instruction {
    Instruction::Copy { src, dst }
}

fn binary(op: Binop, src1: Val, src2: Val, dst: Val) -> Instruction {
    Instruction::Binary { op, src1, src2, dst }
}

fn pointer(to: Type) -> Type {
    Type::Pointer(Box::new(to))
}

fn declare(name: &str, value: &str) -> String {
    format!("i am declaring a variable named {name} is {INTEGER} shall be equal to {value} period\n")
}

fn function(ordinal: u32, name: &str, body: &str) -> String {
    format!(
        "the function numbered {ordinal} is {INTEGER} shall be equal to {name} left_bracket number is {INTEGER} comma pointer is pointing at {INTEGER} right_bracket left_parenthesis\n{body}right_parenthesis\n"
    )
}

fn lowered(input: &str) -> (Program, SymbolTable) {
    let program = parse_text(input).expect("a program");
    let mut checker = TypeChecker::new();
    let program = checker.typecheck_program(program).ok().expect("a typed program");
    let mut generator = IRGenerator::new(checker.symbol_table);
    let program = generator.generate_ir(program).ok().expect("a lowered program");
    (program, generator.into_symbol_table())
}

fn body_of(body: &str) -> Vec<Instruction> {
    let (mut program, _) = lowered(&function(1, "main", body));
    assert_eq!(program.functions.len(), 1);
    program.functions.remove(0).body
}

#[test]
fn two_variables_a_sum_and_a_return() {
    let body = format!(
        "{}{}return second_value period\n",
        declare("first_value", "2"),
        declare("second_value", "first_value plus 3")
    );
    assert_eq!(
        body_of(&body),
        vec![
            copy(Val::Number(2), var("first_value")),
            binary(Binop::Add, var("first_value"), Val::Number(3), tmp(0)),
            copy(tmp(0), var("second_value")),
            Instruction::Return(var("second_value")),
        ]
    );
}

#[test]
fn a_conditional_with_both_branches_and_a_statement_after() {
    let body = format!(
        "{}{}in the case that first_value do first_value shall now be equal to 3 period or do second_value shall now be equal to 4 period\nreturn second_value period\n",
        declare("first_value", "1"),
        declare("second_value", "2")
    );
    let code = body_of(&body);
    assert_eq!(
        code,
        vec![
            copy(Val::Number(1), var("first_value")),
            copy(Val::Number(2), var("second_value")),
            Instruction::JumpIfZero(var("first_value"), label(0)),
            copy(Val::Number(3), var("first_value")),
            Instruction::Jump(label(1)),
            Instruction::Label(label(0)),
            copy(Val::Number(4), var("second_value")),
            Instruction::Label(label(1)),
            Instruction::Return(var("second_value")),
        ]
    );
    let jumps: Vec<&str> = code
        .iter()
        .filter_map(|instruction| match instruction {
            Instruction::JumpIfZero(_, _) => Some("JumpIfZero"),
            Instruction::Jump(_) => Some("Jump"),
            Instruction::Label(_) => Some("Label"),
            Instruction::JumpIfNotZero(_, _) => Some("JumpIfNotZero"),
            _ => None,
        })
        .collect();
    assert_eq!(jumps, vec!["JumpIfZero", "Jump", "Label", "Label"]);
}

#[test]
fn a_conditional_without_an_alternative() {
    assert_eq!(
        body_of("in the case that number is zero do return 1 period\nreturn 2 period\n"),
        vec![
            binary(Binop::Equal, var("number"), Val::Number(0), tmp(0)),
            Instruction::JumpIfZero(tmp(0), label(1)),
            Instruction::Return(Val::Number(1)),
            Instruction::Label(label(1)),
            Instruction::Return(Val::Number(2)),
        ]
    );
}

#[test]
fn a_loop_evaluates_its_condition_at_its_top() {
    assert_eq!(
        body_of("during the period that number minus 1 is not zero do number shall now be equal to number minus 1 period\nreturn number period\n"),
        vec![
            Instruction::Label(label(0)),
            binary(Binop::Sub, var("number"), Val::Number(1), tmp(2)),
            Instruction::JumpIfZero(tmp(2), label(1)),
            binary(Binop::Sub, var("number"), Val::Number(1), tmp(3)),
            copy(tmp(3), var("number")),
            Instruction::Jump(label(0)),
            Instruction::Label(label(1)),
            Instruction::Return(var("number")),
        ]
    );
}

#[test]
fn nested_control_flow_takes_fresh_labels() {
    assert_eq!(
        body_of("during the period that number is not zero do in the case that number do return 1 period or do return 2 period\n"),
        vec![
            Instruction::Label(label(0)),
            Instruction::JumpIfZero(var("number"), label(1)),
            Instruction::JumpIfZero(var("number"), label(2)),
            Instruction::Return(Val::Number(1)),
            Instruction::Jump(label(3)),
            Instruction::Label(label(2)),
            Instruction::Return(Val::Number(2)),
            Instruction::Label(label(3)),
            Instruction::Jump(label(0)),
            Instruction::Label(label(1)),
        ]
    );
}

#[test]
fn operands_are_lowered_left_to_right() {
    assert_eq!(
        body_of("return left_brace number plus 1 right_brace times left_brace number div 2 right_brace mod 3 period\n"),
        vec![
            binary(Binop::Add, var("number"), Val::Number(1), tmp(0)),
            binary(Binop::Div, var("number"), Val::Number(2), tmp(1)),
            binary(Binop::Mul, tmp(0), tmp(1), tmp(2)),
            binary(Binop::Mod, tmp(2), Val::Number(3), tmp(3)),
            Instruction::Return(tmp(3)),
        ]
    );
}

#[test]
fn an_assignment_to_a_variable_is_a_copy() {
    assert_eq!(
        body_of("number shall now be equal to number plus 1 period\n"),
        vec![
            binary(Binop::Add, var("number"), Val::Number(1), tmp(0)),
            copy(tmp(0), var("number")),
        ]
    );
    assert_eq!(
        body_of("return number shall now be equal to 5 period\n"),
        vec![copy(Val::Number(5), var("number")), Instruction::Return(var("number"))]
    );
}

#[test]
fn an_assignment_through_a_pointer_is_a_store() {
    let code = body_of("what pointer is pointing at shall now be equal to number plus 1 period\n");
    assert_eq!(
        code,
        vec![
            binary(Binop::Add, var("number"), Val::Number(1), tmp(0)),
            Instruction::Store(tmp(0), var("pointer")),
        ]
    );
    assert!(!code.iter().any(|instruction| matches!(instruction, Instruction::Copy { .. })));
}

#[test]
fn an_assignment_through_a_subscript_adds_and_stores() {
    let code = body_of("pointer array_start number array_end shall now be equal to 7 period\n");
    assert_eq!(
        code,
        vec![
            Instruction::AddPtr { ptr: var("pointer"), index: var("number"), dst: tmp(0) },
            Instruction::Store(Val::Number(7), tmp(0)),
        ]
    );
    assert!(!code.iter().any(|instruction| matches!(instruction, Instruction::Copy { .. })));
}

#[test]
fn the_value_of_an_assignment_is_lowered_before_its_target() {
    assert_eq!(
        body_of("pointer array_start number plus 1 array_end shall now be equal to number times 2 period\n"),
        vec![
            binary(Binop::Mul, var("number"), Val::Number(2), tmp(0)),
            binary(Binop::Add, var("number"), Val::Number(1), tmp(1)),
            Instruction::AddPtr { ptr: var("pointer"), index: tmp(1), dst: tmp(2) },
            Instruction::Store(tmp(0), tmp(2)),
        ]
    );
}

#[test]
fn pointers_as_values() {
    assert_eq!(
        body_of("return what pointer is pointing at period\n"),
        vec![Instruction::Load(var("pointer"), tmp(0)), Instruction::Return(tmp(0))]
    );
    assert_eq!(
        body_of("pointer shall now be equal to get the address of number period\n"),
        vec![
            Instruction::GetAddress(var("number"), tmp(0)),
            copy(tmp(0), var("pointer")),
        ]
    );
    assert_eq!(
        body_of("return pointer array_start 3 array_end period\n"),
        vec![
            Instruction::AddPtr { ptr: var("pointer"), index: Val::Number(3), dst: tmp(0) },
            Instruction::Load(tmp(0), tmp(1)),
            Instruction::Return(tmp(1)),
        ]
    );
}

#[test]
fn a_call_lowers_its_arguments_then_itself() {
    let call = "i shall invoke the function named main and it shall take the parameters left_brace number plus 1 comma pointer right_brace";
    assert_eq!(
        body_of(&format!("return {call} period\n")),
        vec![
            binary(Binop::Add, var("number"), Val::Number(1), tmp(0)),
            Instruction::FunctionCall("main".to_string(), vec![tmp(0), var("pointer")], tmp(1)),
            Instruction::Return(tmp(1)),
        ]
    );
}

#[test]
fn an_expression_statement_keeps_its_instructions() {
    assert_eq!(
        body_of("number plus 1 period\n7 period\n"),
        vec![binary(Binop::Add, var("number"), Val::Number(1), tmp(0))]
    );
}

#[test]
fn every_temporary_is_typed_in_the_table() {
    let (_, table) = lowered(&function(
        1,
        "main",
        "return pointer array_start number is zero array_end plus what get the address of number is pointing at period\n",
    ));
    assert_eq!(table.get(".tmp.0").unwrap().ty, Type::I32);
    assert_eq!(table.get(".tmp.1").unwrap().ty, pointer(Type::I32));
    assert_eq!(table.get(".tmp.2").unwrap().ty, Type::I32);
    assert_eq!(table.get(".tmp.3").unwrap().ty, pointer(Type::I32));
    assert_eq!(table.get(".tmp.4").unwrap().ty, Type::I32);
    assert_eq!(table.get(".tmp.5").unwrap().ty, Type::I32);
    assert!(table.get(".tmp.6").is_none());
    assert_eq!(table.get("number").unwrap().ty, Type::I32);
}

#[test]
fn labels_are_not_typed() {
    let (_, table) = lowered(&function(1, "main", "in the case that number do return 1 period\nreturn number plus 1 period\n"));
    assert!(table.get(".tmp.0").is_none());
    assert_eq!(table.get(".tmp.1").unwrap().ty, Type::I32);
}

#[test]
fn numbers_go_on_from_function_to_function() {
    let input = format!(
        "{}the function numbered 2 is {INTEGER} shall be equal to skip left_bracket right_bracket semicolon\n{}",
        function(1, "one", "return number plus 1 period\n"),
        function(3, "two", "return number plus 2 period\n")
    );
    let (program, _) = lowered(&input);
    let names: Vec<&str> = program.functions.iter().map(|f| f.name.as_str()).collect();
    assert_eq!(names, vec!["one", "two"]);
    assert_eq!(
        program.functions[1].body,
        vec![
            binary(Binop::Add, var("number"), Val::Number(2), tmp(1)),
            Instruction::Return(tmp(1)),
        ]
    );
    assert_eq!(program.functions[1].return_type, Type::I32);
    assert_eq!(
        program.functions[1].params,
        vec![("number".to_string(), Type::I32), ("pointer".to_string(), pointer(Type::I32))]
    );
}

#[test]
fn temporaries_are_numbered_in_decimal() {
    let mut sum = String::from("number");
    for _ in 0..12 {
        sum.push_str(" plus number");
    }
    let code = body_of(&format!("return {sum} period\n"));
    assert_eq!(code.len(), 13);
    assert_eq!(code[9], binary(Binop::Add, tmp(8), var("number"), tmp(9)));
    assert_eq!(code[10], binary(Binop::Add, tmp(9), var("number"), tmp(10)));
    assert_eq!(code[11], binary(Binop::Add, tmp(10), var("number"), tmp(11)));
    assert_eq!(code[12], Instruction::Return(tmp(11)));
}

#[test]
fn numbering_has_no_end() {
    let mut sum = String::from("number");
    for _ in 0..120 {
        sum.push_str(" plus 1");
    }
    let code = body_of(&format!("return {sum} period\n"));
    assert_eq!(code[99], binary(Binop::Add, tmp(98), Val::Number(1), tmp(99)));
    assert_eq!(code[100], binary(Binop::Add, tmp(99), Val::Number(1), tmp(100)));
    assert_eq!(code[119], binary(Binop::Add, tmp(118), Val::Number(1), tmp(119)));
}

#[test]
fn a_target_that_is_no_place_cannot_be_lowered() {
    let assignment = Expression {
        kind: ExpressionKind::Assign(
            Box::new(Expression { kind: ExpressionKind::Number(1), line_started: 4, ty: Type::I32 }),
            Box::new(Expression { kind: ExpressionKind::Number(2), line_started: 4, ty: Type::I32 }),
        ),
        line_started: 4,
        ty: Type::I32,
    };
    let program = nodes::Program {
        functions: vec![nodes::FunctionDefinition {
            name: "main".to_string(),
            params: vec![],
            return_type: Type::I32,
            body: Some(nodes::Block {
                items: vec![nodes::BlockItem::Statement(nodes::Statement {
                    kind: nodes::StatementKind::Expression(assignment),
                    line_started: 4,
                })],
                line_started: 3,
            }),
            line_started: 3,
        }],
    };
    let mut generator = IRGenerator::new(SymbolTable::new());
    let e = generator.generate_ir(program).err().expect("an error");
    assert_eq!(e.kind, ErrorKind::InvalidAssignmentTarget);
    assert_eq!(e.line, 4);
}

fn names_of(collector: &Collector) -> Vec<(String, Type)> {
    let mut found: Vec<(String, Type)> =
        collector.variables.iter().map(|(name, ty)| (name.clone(), ty.clone())).collect();
    found.sort_by(|a, b| a.0.cmp(&b.0));
    found
}

#[test]
fn storage_is_found_for_each_variable_once() {
    let body = format!(
        "{}pointer shall now be equal to get the address of first_value period\nin the case that number do return first_value plus number plus number period\nreturn what pointer is pointing at period\n",
        declare("first_value", "2")
    );
    let (program, table) = lowered(&function(1, "main", &body));
    let function: &Function = &program.functions[0];
    let mut collector = Collector::new(&table);
    collector.collect_function(function);
    assert_eq!(
        names_of(&collector),
        vec![
            (".tmp.0".to_string(), pointer(Type::I32)),
            (".tmp.2".to_string(), Type::I32),
            (".tmp.3".to_string(), Type::I32),
            (".tmp.4".to_string(), Type::I32),
            ("first_value".to_string(), Type::I32),
            ("number".to_string(), Type::I32),
            ("pointer".to_string(), pointer(Type::I32)),
        ]
    );
    collector.collect_function(function);
    assert_eq!(collector.variables.len(), 7);
}

#[test]
fn the_source_of_an_address_needs_no_storage_of_its_own() {
    let (program, table) = lowered(&function(1, "main", "return get the address of number period\n"));
    let mut collector = Collector::new(&table);
    collector.collect_function(&program.functions[0]);
    assert_eq!(names_of(&collector), vec![(".tmp.0".to_string(), pointer(Type::I32))]);
    let fresh = Collector::new(&table);
    assert!(fresh.variables.is_empty());
}
