use ylc::errors::ErrorKind;
use ylc::parser::nodes::{
    Binop, BlockItem, Expression, ExpressionKind, Program, Statement, StatementKind, Type,
};
use ylc::parser::{parse_text, Parser};

const WHOLE: &str = "integer_meaning_whole_in_latin_with_exactly_thirty_two_bits";

fn program_with(body: &str) -> String {
    format!(
        "the function numbered 1 is {WHOLE} shall be equal to main left_bracket right_bracket left_parenthesis\n{body}\nright_parenthesis\n"
    )
}

fn parsed(input: &str) -> Program {
    parse_text(input).expect("a program")
}

fn items_of(body: &str) -> Vec<BlockItem> {
    let mut program = parsed(&program_with(body));
    program.functions.remove(0).body.expect("a body").items
}

fn only_statement(body: &str) -> Statement {
    let mut items = items_of(body);
    assert_eq!(items.len(), 1);
    match items.remove(0) {
        BlockItem::Statement(statement) => statement,
        BlockItem::Declaration(_) => panic!("a declaration"),
    }
}

fn returned(expression: &str) -> Expression {
    match only_statement(&format!("return {expression} period")).kind {
        StatementKind::Return(value) => value,
        _ => panic!("no return"),
    }
}

fn node(kind: ExpressionKind) -> Expression {
    Expression { kind, line_started: 2, ty: Type::I32 }
}

fn num(n: u64) -> Expression {
    node(ExpressionKind::Number(n))
}

fn var(name: &str) -> Expression {
    node(ExpressionKind::Variable(name.to_string()))
}

fn bin(op: Binop, left: Expression, right: Expression) -> Expression {
    node(ExpressionKind::Binary(op, Box::new(left), Box::new(right)))
}

fn assign(left: Expression, right: Expression) -> Expression {
    node(ExpressionKind::Assign(Box::new(left), Box::new(right)))
}

fn failure(input: &str) -> (ErrorKind, usize) {
    match parse_text(input) {
        Ok(_) => panic!("parsing should have failed"),
        Err(e) => (e.kind, e.line),
    }
}

fn unexpected(expected: &str, found: &str) -> ErrorKind {
    ErrorKind::UnexpectedToken { expected: expected.to_string(), found: found.to_string() }
}

#[test]
fn the_empty_text_is_the_empty_program() {
    assert_eq!(parsed("").functions.len(), 0);
    assert_eq!(parsed("  \n\n ").functions.len(), 0);
}

#[test]
fn a_function_has_name_type_parameters_and_body() {
    let input = format!(
        "the function numbered 1 is pointing at {WHOLE} shall be equal to pick left_bracket first_p is {WHOLE} comma second_p is pointing at pointing at {WHOLE} right_bracket\nleft_parenthesis\nreturn 0 period\nright_parenthesis"
    );
    let program = parsed(&input);
    assert_eq!(program.functions.len(), 1);
    let function = &program.functions[0];
    assert_eq!(function.name, "pick");
    assert_eq!(function.line_started, 1);
    assert_eq!(function.return_type, Type::Pointer(Box::new(Type::I32)));
    assert_eq!(
        function.params,
        vec![
            ("first_p".to_string(), Type::I32),
            (
                "second_p".to_string(),
                Type::Pointer(Box::new(Type::Pointer(Box::new(Type::I32))))
            ),
        ]
    );
    let body = function.body.as_ref().expect("a body");
    assert_eq!(body.line_started, 2);
    assert_eq!(body.items.len(), 1);
}

#[test]
fn a_semicolon_stands_for_a_missing_body() {
    let input = format!(
        "the function numbered 1 is {WHOLE} shall be equal to far left_bracket right_bracket semicolon\nthe function numbered 2 is {WHOLE} shall be equal to near left_bracket right_bracket left_parenthesis right_parenthesis"
    );
    let program = parsed(&input);
    assert_eq!(program.functions.len(), 2);
    assert!(program.functions[0].body.is_none());
    assert_eq!(program.functions[1].body.as_ref().unwrap().items.len(), 0);
    assert_eq!(program.functions[1].line_started, 2);
}

#[test]
fn functions_are_numbered_in_order() {
    let one = format!(
        "the function numbered 1 is {WHOLE} shall be equal to one left_bracket right_bracket semicolon\n"
    );
    let three = format!(
        "the function numbered 3 is {WHOLE} shall be equal to two left_bracket right_bracket semicolon\n"
    );
    let (kind, line) = failure(&format!("{one}{three}"));
    assert_eq!(kind, ErrorKind::WrongfunctionCount { expected: 2, found: 3 });
    assert_eq!(line, 2);
    let (kind, _) = failure(&three);
    assert_eq!(kind, ErrorKind::WrongfunctionCount { expected: 1, found: 3 });
    let (kind, _) = failure(&format!("{one}{one}"));
    assert_eq!(kind, ErrorKind::WrongfunctionCount { expected: 2, found: 1 });
    let zero = one.replace("numbered 1", "numbered 0");
    let (kind, _) = failure(&zero);
    assert_eq!(kind, ErrorKind::WrongfunctionCount { expected: 1, found: 0 });
}

#[test]
fn the_number_is_held_to_before_the_name_is_read() {
    let (kind, line) = failure("the function numbered 2\nis nothing at all");
    assert_eq!(kind, ErrorKind::WrongfunctionCount { expected: 1, found: 2 });
    assert_eq!(line, 2);
}

#[test]
fn multiplication_binds_tighter_than_addition() {
    assert_eq!(
        returned("1 plus 2 times 3"),
        bin(Binop::Add, num(1), bin(Binop::Mul, num(2), num(3)))
    );
    assert_eq!(
        returned("1 times 2 plus 3"),
        bin(Binop::Add, bin(Binop::Mul, num(1), num(2)), num(3))
    );
    assert_eq!(
        returned("8 div 2 mod 3 minus 1"),
        bin(Binop::Sub, bin(Binop::Mod, bin(Binop::Div, num(8), num(2)), num(3)), num(1))
    );
}

#[test]
fn arithmetic_groups_to_the_left() {
    assert_eq!(
        returned("1 minus 2 minus 3"),
        bin(Binop::Sub, bin(Binop::Sub, num(1), num(2)), num(3))
    );
}

#[test]
fn braces_group() {
    assert_eq!(
        returned("left_brace 1 plus 2 right_brace times 3"),
        bin(Binop::Mul, bin(Binop::Add, num(1), num(2)), num(3))
    );
}

#[test]
fn assignment_groups_to_the_right_and_binds_loosest() {
    assert_eq!(
        returned("first shall now be equal to second shall now be equal to 1 plus 2"),
        assign(var("first"), assign(var("second"), bin(Binop::Add, num(1), num(2))))
    );
    assert_eq!(
        returned("1 plus first shall now be equal to 2"),
        assign(bin(Binop::Add, num(1), var("first")), num(2))
    );
}

#[test]
fn the_postfix_forms() {
    assert_eq!(
        returned("first is zero"),
        node(ExpressionKind::IsZero(Box::new(var("first"))))
    );
    assert_eq!(
        returned("first array_start 1 plus 2 array_end"),
        node(ExpressionKind::Subscript(
            Box::new(var("first")),
            Box::new(bin(Binop::Add, num(1), num(2)))
        ))
    );
    assert_eq!(
        returned("1 plus first is zero"),
        bin(Binop::Add, num(1), node(ExpressionKind::IsZero(Box::new(var("first")))))
    );
}

#[test]
fn addresses_and_dereferences() {
    assert_eq!(
        returned("get the address of first"),
        node(ExpressionKind::AddressOf(Box::new(var("first"))))
    );
    assert_eq!(
        returned("what first is pointing at"),
        node(ExpressionKind::Dereference(Box::new(var("first"))))
    );
    assert_eq!(
        returned("what get the address of first is pointing at plus 1"),
        bin(
            Binop::Add,
            node(ExpressionKind::Dereference(Box::new(node(ExpressionKind::AddressOf(
                Box::new(var("first"))
            ))))),
            num(1)
        )
    );
}

#[test]
fn calls_with_and_without_arguments() {
    let call = "i shall invoke the function named";
    let take = "and it shall take the parameters";
    assert_eq!(
        returned(&format!("{call} far {take} left_brace right_brace")),
        node(ExpressionKind::FunctionCall("far".to_string(), vec![]))
    );
    assert_eq!(
        returned(&format!("{call} far {take} left_brace 1 comma first plus 2 comma 3 right_brace")),
        node(ExpressionKind::FunctionCall(
            "far".to_string(),
            vec![num(1), bin(Binop::Add, var("first"), num(2)), num(3)]
        ))
    );
}

#[test]
fn an_expression_starts_on_the_line_of_its_first_token() {
    let value = returned("1 plus\n2\ntimes 3");
    assert_eq!(value.line_started, 2);
    match value.kind {
        ExpressionKind::Binary(Binop::Add, left, right) => {
            assert_eq!(left.line_started, 2);
            assert_eq!(right.line_started, 3);
            match right.kind {
                ExpressionKind::Binary(Binop::Mul, two, three) => {
                    assert_eq!(two.line_started, 3);
                    assert_eq!(three.line_started, 4);
                }
                _ => panic!("no product"),
            }
        }
        _ => panic!("no sum"),
    }
}

#[test]
fn declarations_and_statements_are_told_apart() {
    let body = format!(
        "i am declaring a variable named counter is {WHOLE} shall be equal to 5 period\ni shall invoke the function named far and it shall take the parameters left_brace right_brace period"
    );
    let items = items_of(&body);
    assert_eq!(items.len(), 2);
    match &items[0] {
        BlockItem::Declaration(declaration) => {
            assert_eq!(declaration.name, "counter");
            assert_eq!(declaration.ty, Type::I32);
            assert_eq!(declaration.value, num(5));
            assert_eq!(declaration.line_started, 2);
        }
        BlockItem::Statement(_) => panic!("a statement"),
    }
    match &items[1] {
        BlockItem::Statement(statement) => {
            assert_eq!(statement.line_started, 3);
            assert!(matches!(
                &statement.kind,
                StatementKind::Expression(Expression {
                    kind: ExpressionKind::FunctionCall(_, _),
                    ..
                })
            ));
        }
        BlockItem::Declaration(_) => panic!("a declaration"),
    }
}

#[test]
fn conditionals_with_and_without_an_alternative() {
    match only_statement("in the case that first do return 1 period").kind {
        StatementKind::If(condition, then_branch, else_branch) => {
            assert_eq!(condition, var("first"));
            assert!(matches!(then_branch.kind, StatementKind::Return(_)));
            assert!(else_branch.is_none());
        }
        _ => panic!("no conditional"),
    }
    match only_statement("in the case that first is zero do return 1 period or do left_parenthesis return 2 period return 3 period right_parenthesis").kind {
        StatementKind::If(condition, then_branch, else_branch) => {
            assert_eq!(condition, node(ExpressionKind::IsZero(Box::new(var("first")))));
            assert!(matches!(then_branch.kind, StatementKind::Return(_)));
            match else_branch.expect("an alternative").kind {
                StatementKind::Block(block) => assert_eq!(block.items.len(), 2),
                _ => panic!("no block"),
            }
        }
        _ => panic!("no conditional"),
    }
}

#[test]
fn an_alternative_belongs_to_the_nearest_conditional() {
    match only_statement("in the case that 1 do in the case that 2 do return 3 period or do return 4 period").kind {
        StatementKind::If(_, then_branch, else_branch) => {
            assert!(else_branch.is_none());
            match then_branch.kind {
                StatementKind::If(_, _, inner) => assert!(inner.is_some()),
                _ => panic!("no inner conditional"),
            }
        }
        _ => panic!("no conditional"),
    }
}

#[test]
fn loops() {
    match only_statement("during the period that first is not zero do first shall now be equal to first minus 1 period").kind {
        StatementKind::While(condition, body) => {
            assert_eq!(condition, var("first"));
            match body.kind {
                StatementKind::Expression(value) => assert_eq!(
                    value,
                    assign(var("first"), bin(Binop::Sub, var("first"), num(1)))
                ),
                _ => panic!("no expression"),
            }
        }
        _ => panic!("no loop"),
    }
}

#[test]
fn what_is_missing_is_named() {
    assert_eq!(failure(&program_with("return period")).0, unexpected("a factor", "period"));
    assert_eq!(failure(&program_with("return 1 plus")).0, unexpected("a factor", "right_parenthesis"));
    assert_eq!(
        failure(&program_with("return 1")),
        (unexpected("period", "right_parenthesis"), 3)
    );
    assert_eq!(
        failure("the function numbered 1 is main").0,
        unexpected("a type", "main")
    );
    assert_eq!(
        failure("the function numbered one").0,
        unexpected("a number", "one")
    );
    assert_eq!(
        failure(&format!("the function numbered 1 is {WHOLE} shall be equal to 7")).0,
        unexpected("an identifier", "7")
    );
    assert_eq!(
        failure(&format!("the function numbered 1 is {WHOLE} shall be equal to main left_bracket 3")).0,
        unexpected("an identifier", "3")
    );
    assert_eq!(
        failure(&program_with(&format!("i am declaring a variable named 12 is {WHOLE}"))).0,
        unexpected("an identifier", "12")
    );
    assert_eq!(
        failure(&program_with("return i shall invoke the function named 5")).0,
        unexpected("an identifier", "5")
    );
    assert_eq!(
        failure(&program_with("return first array_start 1 period")).0,
        unexpected("array_end", "period")
    );
    assert_eq!(
        failure("function").0,
        unexpected("the", "function")
    );
}

#[test]
fn the_end_of_the_input_is_named_where_a_token_is_wanted() {
    assert_eq!(failure("the function"), (ErrorKind::UnexpectedEOF, 1));
    assert_eq!(failure(&format!("the function numbered 1 is {WHOLE}\nshall be\n")).0, ErrorKind::UnexpectedEOF);
    assert_eq!(
        failure(&format!("the function numbered 1 is {WHOLE} shall be equal to main left_bracket right_bracket left_parenthesis return 1 period")).0,
        unexpected("a factor", "EOF")
    );
    assert_eq!(failure("the function numbered 1 is").0, unexpected("a type", "EOF"));
}

#[test]
fn an_error_in_a_token_comes_up_when_the_token_is_reached() {
    assert_eq!(failure("# the function"), (ErrorKind::UnexpectedChar('#'), 1));
    assert_eq!(failure("function #").0, unexpected("the", "function"));
    assert_eq!(failure("the\nfunction numbered #"), (ErrorKind::UnexpectedChar('#'), 2));
    assert_eq!(failure(&program_with("return first is #")).0, ErrorKind::UnexpectedChar('#'));
    assert_eq!(failure(&program_with("i #")).0, ErrorKind::UnexpectedChar('#'));
}

#[test]
fn a_parser_starts_with_the_first_function() {
    let input = format!(
        "the function numbered 1 is {WHOLE} shall be equal to one left_bracket right_bracket semicolon"
    );
    let mut parser = Parser::new(&input).expect("a parser");
    let program = parser.parse_program().expect("a program");
    assert_eq!(program.functions.len(), 1);
    assert_eq!(program.functions[0].name, "one");
    assert!(Parser::new("$").is_err());
    assert_eq!(Parser::new("$").err().unwrap().kind, ErrorKind::UnexpectedChar('$'));
}

#[test]
fn a_text_is_read_no_further_than_its_first_error() {
    assert_eq!(
        failure("function 99999999999999999999").0,
        unexpected("the", "function")
    );
    assert_eq!(failure("the @ 99999999999999999999").0, ErrorKind::UnexpectedChar('@'));
}
