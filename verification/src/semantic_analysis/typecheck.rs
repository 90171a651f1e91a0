use crate::errors::{fail, Error, ErrorKind, SpecError, SpecErrorKind};
use crate::parser::nodes::{
    expression_models, function_models, item_models, signature, signature_of, Block,
    BlockItem, Declaration, Expression, ExpressionKind, FunctionDefinition, Program, SpecBlock,
    SpecBlockItem, SpecDeclaration, SpecExpression, SpecExpressionKind, SpecFunctionDefinition,
    SpecProgram, SpecStatement, SpecStatementKind, SpecType, Statement, StatementKind, Type,
};
use vstd::hash_map::StringHashMap;
use vstd::prelude::*;

verus! {

/// What the symbol table records of a name.
#[derive(Debug, Clone)]
pub struct STEntry {
    pub ty: Type,
}

/// The symbol table: the type of every name that has one. Its value is the
/// map from names to types.
pub struct SymbolTable {
    symbols: StringHashMap<STEntry>,
}

impl View for SymbolTable {
    type V = Map<Seq<char>, SpecType>;

    closed spec fn view(&self) -> Map<Seq<char>, SpecType> {
        Map::new(|name: Seq<char>| self.symbols@.contains_key(name), |name: Seq<char>| self.symbols@[name].ty@)
    }
}

impl SymbolTable {
    /// The table that types no name.
    pub fn new() -> (r: Self)
        ensures
            r@ == Map::<Seq<char>, SpecType>::empty(),
    {
        let r = Self { symbols: StringHashMap::new() };
        assert(r@ =~= Map::<Seq<char>, SpecType>::empty());
        r
    }

    /// Gives `name` the type `ty`, whatever type it had.
    pub fn insert_raw(&mut self, name: String, ty: Type)
        ensures
            final(self)@ == old(self)@.insert(name@, ty@),
    {
        self.symbols.insert(name, STEntry { ty });
        assert(self@ =~= old(self)@.insert(name@, ty@));
    }

    /// Gives `name` the type in `entry`, whatever type it had.
    pub fn insert(&mut self, name: String, entry: STEntry)
        ensures
            final(self)@ == old(self)@.insert(name@, entry.ty@),
    {
        self.symbols.insert(name, entry);
        assert(self@ =~= old(self)@.insert(name@, entry.ty@));
    }

    /// Looks `name` up: its entry if it has a type, `None` if it has none.
    pub fn get(&self, name: &str) -> (r: Option<&STEntry>)
        ensures
            match r {
                Some(entry) => self@.contains_key(name@) && entry.ty@ == self@[name@],
                None => !self@.contains_key(name@),
            },
    {
        self.symbols.get(name)
    }
}

/// Whether `ty` is a type that arithmetic works on.
pub open spec fn is_arithmetic(ty: SpecType) -> bool {
    ty is I32
}

/// Whether `expression` denotes a storage location: a variable, a
/// dereference or a subscript.
pub open spec fn is_lvalue(expression: SpecExpression) -> bool {
    expression.kind is Variable || expression.kind is Dereference || expression.kind is Subscript
}

/// `expression` with its kind replaced by `kind` and its type by `ty`.
pub open spec fn typed(expression: SpecExpression, kind: SpecExpressionKind, ty: SpecType) -> SpecExpression {
    SpecExpression { kind, line_started: expression.line_started, ty }
}

/// The type error blamed on `expression`.
pub open spec fn type_error(expression: SpecExpression) -> SpecError {
    fail(SpecErrorKind::TypeError, expression.line_started)
}

/// Whether some argument's type differs from the parameter's type at the
/// same position.
pub open spec fn argument_mismatch(args: Seq<SpecExpression>, params: Seq<SpecType>) -> bool {
    exists|i: int| 0 <= i < args.len() && i < params.len() && #[trigger] args[i].ty != params[i]
}

/// Type checking of an expression under `table`: the expression with every
/// type filled in, or the first violation met.
///
/// Operands are checked left to right before the rule of the expression
/// itself. A name that `table` does not type is reported as not declared.
pub open spec fn check_expression(expression: SpecExpression, table: Map<Seq<char>, SpecType>) -> Result<
    SpecExpression,
    SpecError,
>
    decreases expression, 0nat,
{
    match expression.kind {
        SpecExpressionKind::Number(_) => Ok(expression),
        SpecExpressionKind::Variable(name) => {
            if !table.contains_key(name) {
                Err(fail(SpecErrorKind::VariableNotDeclared(name), expression.line_started))
            } else if table[name] is Function {
                Err(type_error(expression))
            } else {
                Ok(typed(expression, expression.kind, table[name]))
            }
        },
        SpecExpressionKind::Binary(op, left, right) => match check_expression(*left, table) {
            Err(e) => Err(e),
            Ok(l) => match check_expression(*right, table) {
                Err(e) => Err(e),
                Ok(r) => {
                    if l.ty != r.ty {
                        Err(type_error(expression))
                    } else {
                        Ok(
                            typed(
                                expression,
                                SpecExpressionKind::Binary(op, Box::new(l), Box::new(r)),
                                l.ty,
                            ),
                        )
                    }
                },
            },
        },
        SpecExpressionKind::Assign(left, right) => match check_expression(*left, table) {
            Err(e) => Err(e),
            Ok(l) => match check_expression(*right, table) {
                Err(e) => Err(e),
                Ok(r) => {
                    if l.ty != r.ty {
                        Err(type_error(expression))
                    } else if !is_lvalue(l) {
                        Err(
                            fail(
                                SpecErrorKind::InvalidAssignmentTarget,
                                expression.line_started,
                            ),
                        )
                    } else {
                        Ok(
                            typed(
                                expression,
                                SpecExpressionKind::Assign(Box::new(l), Box::new(r)),
                                l.ty,
                            ),
                        )
                    }
                },
            },
        },
        SpecExpressionKind::IsZero(inner) => match check_expression(*inner, table) {
            Err(e) => Err(e),
            Ok(operand) => {
                if !is_arithmetic(operand.ty) {
                    Err(type_error(expression))
                } else {
                    Ok(
                        typed(
                            expression,
                            SpecExpressionKind::IsZero(Box::new(operand)),
                            operand.ty,
                        ),
                    )
                }
            },
        },
        SpecExpressionKind::FunctionCall(name, args) => {
            if !table.contains_key(name) {
                Err(fail(SpecErrorKind::VariableNotDeclared(name), expression.line_started))
            } else {
                match table[name] {
                    SpecType::Function(params, return_type) => {
                        if args.len() != params.len() {
                            Err(type_error(expression))
                        } else {
                            match check_arguments(args, table, args.len()) {
                                Err(e) => Err(e),
                                Ok(checked) => {
                                    if argument_mismatch(checked, params) {
                                        Err(type_error(expression))
                                    } else {
                                        Ok(
                                            typed(
                                                expression,
                                                SpecExpressionKind::FunctionCall(name, checked),
                                                *return_type,
                                            ),
                                        )
                                    }
                                },
                            }
                        }
                    },
                    _ => Err(type_error(expression)),
                }
            }
        },
        SpecExpressionKind::Dereference(inner) => match check_expression(*inner, table) {
            Err(e) => Err(e),
            Ok(pointer) => match pointer.ty {
                SpecType::Pointer(pointee) => Ok(
                    typed(
                        expression,
                        SpecExpressionKind::Dereference(Box::new(pointer)),
                        *pointee,
                    ),
                ),
                _ => Err(type_error(expression)),
            },
        },
        SpecExpressionKind::AddressOf(inner) => {
            if !is_lvalue(*inner) {
                Err(type_error(expression))
            } else {
                match check_expression(*inner, table) {
                    Err(e) => Err(e),
                    Ok(place) => Ok(
                        typed(
                            expression,
                            SpecExpressionKind::AddressOf(Box::new(place)),
                            SpecType::Pointer(Box::new(place.ty)),
                        ),
                    ),
                }
            }
        },
        SpecExpressionKind::Subscript(base, index) => match check_expression(*base, table) {
            Err(e) => Err(e),
            Ok(b) => match check_expression(*index, table) {
                Err(e) => Err(e),
                Ok(i) => {
                    if !is_lvalue(b) {
                        Err(type_error(expression))
                    } else {
                        match b.ty {
                            SpecType::Pointer(pointee) => {
                                if !is_arithmetic(i.ty) {
                                    Err(type_error(expression))
                                } else {
                                    Ok(
                                        typed(
                                            expression,
                                            SpecExpressionKind::Subscript(
                                                Box::new(b),
                                                Box::new(i),
                                            ),
                                            *pointee,
                                        ),
                                    )
                                }
                            },
                            _ => Err(type_error(expression)),
                        }
                    }
                },
            },
        },
    }
}

/// Type checking of the first `count` of `args`, left to right: the checked
/// arguments, or the first violation met.
pub open spec fn check_arguments(args: Seq<SpecExpression>, table: Map<Seq<char>, SpecType>, count: nat) -> Result<
    Seq<SpecExpression>,
    SpecError,
>
    decreases args, count,
{
    if count == 0 || count > args.len() {
        Ok(Seq::empty())
    } else {
        match check_arguments(args, table, (count - 1) as nat) {
            Err(e) => Err(e),
            Ok(checked) => match check_expression(args[count - 1], table) {
                Err(e) => Err(e),
                Ok(arg) => Ok(checked.push(arg)),
            },
        }
    }
}


/// Type checking of a declaration: its value is checked under `table`, then
/// the name gets its stated type. The stated type is not compared with the
/// type of the value.
pub open spec fn check_declaration(declaration: SpecDeclaration, table: Map<Seq<char>, SpecType>) -> Result<
    (SpecDeclaration, Map<Seq<char>, SpecType>),
    SpecError,
> {
    match check_expression(declaration.value, table) {
        Err(e) => Err(e),
        Ok(value) => Ok(
            (
                SpecDeclaration {
                    name: declaration.name,
                    ty: declaration.ty,
                    value,
                    line_started: declaration.line_started,
                },
                table.insert(declaration.name, declaration.ty),
            ),
        ),
    }
}

/// Type checking of a statement under `table`: the checked statement and the
/// table with the names that the statement declares, or the first violation.
pub open spec fn check_statement(statement: SpecStatement, table: Map<Seq<char>, SpecType>) -> Result<
    (SpecStatement, Map<Seq<char>, SpecType>),
    SpecError,
>
    decreases statement, 0nat,
{
    match statement.kind {
        SpecStatementKind::Return(value) => match check_expression(value, table) {
            Err(e) => Err(e),
            Ok(checked) => Ok(
                (
                    SpecStatement {
                        kind: SpecStatementKind::Return(checked),
                        line_started: statement.line_started,
                    },
                    table,
                ),
            ),
        },
        SpecStatementKind::Expression(value) => match check_expression(value, table) {
            Err(e) => Err(e),
            Ok(checked) => Ok(
                (
                    SpecStatement {
                        kind: SpecStatementKind::Expression(checked),
                        line_started: statement.line_started,
                    },
                    table,
                ),
            ),
        },
        SpecStatementKind::Block(block) => match check_block(block, table) {
            Err(e) => Err(e),
            Ok((checked, after)) => Ok(
                (
                    SpecStatement {
                        kind: SpecStatementKind::Block(checked),
                        line_started: statement.line_started,
                    },
                    after,
                ),
            ),
        },
        SpecStatementKind::If(condition, then_branch, else_branch) => match check_expression(
            condition,
            table,
        ) {
            Err(e) => Err(e),
            Ok(checked) => match check_statement(*then_branch, table) {
                Err(e) => Err(e),
                Ok((then_checked, after_then)) => match else_branch {
                    None => Ok(
                        (
                            SpecStatement {
                                kind: SpecStatementKind::If(
                                    checked,
                                    Box::new(then_checked),
                                    None,
                                ),
                                line_started: statement.line_started,
                            },
                            after_then,
                        ),
                    ),
                    Some(branch) => match check_statement(*branch, after_then) {
                        Err(e) => Err(e),
                        Ok((else_checked, after_else)) => Ok(
                            (
                                SpecStatement {
                                    kind: SpecStatementKind::If(
                                        checked,
                                        Box::new(then_checked),
                                        Some(Box::new(else_checked)),
                                    ),
                                    line_started: statement.line_started,
                                },
                                after_else,
                            ),
                        ),
                    },
                },
            },
        },
        SpecStatementKind::While(condition, body) => match check_expression(condition, table) {
            Err(e) => Err(e),
            Ok(checked) => match check_statement(*body, table) {
                Err(e) => Err(e),
                Ok((body_checked, after)) => Ok(
                    (
                        SpecStatement {
                            kind: SpecStatementKind::While(checked, Box::new(body_checked)),
                            line_started: statement.line_started,
                        },
                        after,
                    ),
                ),
            },
        },
    }
}

/// Type checking of a block: its items in order, each under the table that
/// the items before it left.
pub open spec fn check_block(block: SpecBlock, table: Map<Seq<char>, SpecType>) -> Result<
    (SpecBlock, Map<Seq<char>, SpecType>),
    SpecError,
>
    decreases block, 0nat,
{
    match check_items(block.items, table, block.items.len()) {
        Err(e) => Err(e),
        Ok((items, after)) => Ok((SpecBlock { items, line_started: block.line_started }, after)),
    }
}

/// Type checking of the first `count` of `items`, in order.
pub open spec fn check_items(items: Seq<SpecBlockItem>, table: Map<Seq<char>, SpecType>, count: nat) -> Result<
    (Seq<SpecBlockItem>, Map<Seq<char>, SpecType>),
    SpecError,
>
    decreases items, count,
{
    if count == 0 || count > items.len() {
        Ok((Seq::empty(), table))
    } else {
        match check_items(items, table, (count - 1) as nat) {
            Err(e) => Err(e),
            Ok((checked, before)) => match check_item(items[count - 1], before) {
                Err(e) => Err(e),
                Ok((item, after)) => Ok((checked.push(item), after)),
            },
        }
    }
}

/// Type checking of a block item: of the statement or the declaration it is.
pub open spec fn check_item(item: SpecBlockItem, table: Map<Seq<char>, SpecType>) -> Result<
    (SpecBlockItem, Map<Seq<char>, SpecType>),
    SpecError,
>
    decreases item, 0nat,
{
    match item {
        SpecBlockItem::Statement(statement) => match check_statement(statement, table) {
            Err(e) => Err(e),
            Ok((s, after)) => Ok((SpecBlockItem::Statement(s), after)),
        },
        SpecBlockItem::Declaration(declaration) => match check_declaration(declaration, table) {
            Err(e) => Err(e),
            Ok((d, after)) => Ok((SpecBlockItem::Declaration(d), after)),
        },
    }
}

/// `table` after the first `count` of `params` got their types, in order.
pub open spec fn bind_params(
    table: Map<Seq<char>, SpecType>,
    params: Seq<(Seq<char>, SpecType)>,
    count: nat,
) -> Map<Seq<char>, SpecType>
    decreases count,
{
    if count == 0 || count > params.len() {
        table
    } else {
        bind_params(table, params, (count - 1) as nat).insert(
            params[count - 1].0,
            params[count - 1].1,
        )
    }
}

/// Type checking of a function: its parameters get their types, then its
/// body, if it has one, is checked.
pub open spec fn check_function(function: SpecFunctionDefinition, table: Map<Seq<char>, SpecType>) -> Result<
    (SpecFunctionDefinition, Map<Seq<char>, SpecType>),
    SpecError,
> {
    let bound = bind_params(table, function.params, function.params.len());
    match function.body {
        None => Ok((function, bound)),
        Some(body) => match check_block(body, bound) {
            Err(e) => Err(e),
            Ok((checked, after)) => Ok(
                (
                    SpecFunctionDefinition {
                        name: function.name,
                        params: function.params,
                        return_type: function.return_type,
                        body: Some(checked),
                        line_started: function.line_started,
                    },
                    after,
                ),
            ),
        },
    }
}

/// `table` after the first `count` of `functions` got their signatures.
pub open spec fn declare_functions(
    table: Map<Seq<char>, SpecType>,
    functions: Seq<SpecFunctionDefinition>,
    count: nat,
) -> Map<Seq<char>, SpecType>
    decreases count,
{
    if count == 0 || count > functions.len() {
        table
    } else {
        declare_functions(table, functions, (count - 1) as nat).insert(
            functions[count - 1].name,
            signature(functions[count - 1].params, functions[count - 1].return_type),
        )
    }
}

/// Type checking of the first `count` of `functions`, in order.
pub open spec fn check_functions(
    functions: Seq<SpecFunctionDefinition>,
    table: Map<Seq<char>, SpecType>,
    count: nat,
) -> Result<(Seq<SpecFunctionDefinition>, Map<Seq<char>, SpecType>), SpecError>
    decreases count,
{
    if count == 0 || count > functions.len() {
        Ok((Seq::empty(), table))
    } else {
        match check_functions(functions, table, (count - 1) as nat) {
            Err(e) => Err(e),
            Ok((checked, before)) => match check_function(functions[count - 1], before) {
                Err(e) => Err(e),
                Ok((f, after)) => Ok((checked.push(f), after)),
            },
        }
    }
}

/// Type checking of a program, starting from `table`: every function's
/// signature is recorded first, then the functions are checked in order.
pub open spec fn check_program(program: SpecProgram, table: Map<Seq<char>, SpecType>) -> Result<
    (SpecProgram, Map<Seq<char>, SpecType>),
    SpecError,
> {
    let declared = declare_functions(table, program.functions, program.functions.len());
    match check_functions(program.functions, declared, program.functions.len()) {
        Err(e) => Err(e),
        Ok((functions, after)) => Ok((SpecProgram { functions }, after)),
    }
}

/// Once a block item has failed, the items as a whole fail the same way.
pub proof fn lemma_item_failure_stays(
    items: Seq<SpecBlockItem>,
    table: Map<Seq<char>, SpecType>,
    failed: nat,
    count: nat,
)
    requires
        failed <= count <= items.len(),
        check_items(items, table, failed) is Err,
    ensures
        check_items(items, table, count) == check_items(items, table, failed),
    decreases count,
{
    if failed < count {
        lemma_item_failure_stays(items, table, failed, (count - 1) as nat);
    }
}

/// Once a function has failed, the functions as a whole fail the same way.
pub proof fn lemma_function_failure_stays(
    functions: Seq<SpecFunctionDefinition>,
    table: Map<Seq<char>, SpecType>,
    failed: nat,
    count: nat,
)
    requires
        failed <= count <= functions.len(),
        check_functions(functions, table, failed) is Err,
    ensures
        check_functions(functions, table, count) == check_functions(functions, table, failed),
    decreases count,
{
    if failed < count {
        lemma_function_failure_stays(functions, table, failed, (count - 1) as nat);
    }
}

/// Once an argument has failed, the arguments as a whole fail the same way.
pub proof fn lemma_argument_failure_stays(
    args: Seq<SpecExpression>,
    table: Map<Seq<char>, SpecType>,
    failed: nat,
    count: nat,
)
    requires
        failed <= count <= args.len(),
        check_arguments(args, table, failed) is Err,
    ensures
        check_arguments(args, table, count) == check_arguments(args, table, failed),
    decreases count,
{
    if failed < count {
        lemma_argument_failure_stays(args, table, failed, (count - 1) as nat);
    }
}

/// The rule on the operands of an arithmetic operator, once both have been
/// checked: operands of different types fail with `TypeError` on the line
/// of the expression, and operands of one type give that type to the
/// expression.
pub proof fn lemma_binary_operands(expression: SpecExpression, table: Map<Seq<char>, SpecType>)
    requires
        expression.kind is Binary,
        check_expression(*expression.kind->Binary_1, table) is Ok,
        check_expression(*expression.kind->Binary_2, table) is Ok,
    ensures
        ({
            let left = check_expression(*expression.kind->Binary_1, table)->Ok_0;
            let right = check_expression(*expression.kind->Binary_2, table)->Ok_0;
            &&& left.ty != right.ty ==> check_expression(expression, table) == Err::<
                SpecExpression,
                SpecError,
            >(fail(SpecErrorKind::TypeError, expression.line_started))
            &&& left.ty == right.ty ==> (check_expression(expression, table) matches Ok(checked)
                && checked.ty == left.ty)
        }),
{
}

/// A statement that passes the check leaves typed what was typed.
pub proof fn lemma_statement_keeps_names(statement: SpecStatement, table: Map<Seq<char>, SpecType>)
    ensures
        check_statement(statement, table) matches Ok((_, after)) ==> table.dom().subset_of(
            after.dom(),
        ),
    decreases statement, 0nat,
{
    match statement.kind {
        SpecStatementKind::Return(_) => {},
        SpecStatementKind::Expression(_) => {},
        SpecStatementKind::Block(block) => {
            lemma_items_keep_names(block.items, table, block.items.len());
            assert(check_statement(statement, table) is Ok ==> check_block(block, table) is Ok);
        },
        SpecStatementKind::If(_, then_branch, else_branch) => {
            lemma_statement_keeps_names(*then_branch, table);
            if let Ok((_, after)) = check_statement(*then_branch, table) {
                if let Some(branch) = else_branch {
                    lemma_statement_keeps_names(*branch, after);
                }
            }
        },
        SpecStatementKind::While(_, body) => {
            lemma_statement_keeps_names(*body, table);
        },
    }
}

/// Block items that pass the check leave typed what was typed.
pub proof fn lemma_items_keep_names(
    items: Seq<SpecBlockItem>,
    table: Map<Seq<char>, SpecType>,
    count: nat,
)
    ensures
        check_items(items, table, count) matches Ok((_, after)) ==> table.dom().subset_of(
            after.dom(),
        ),
    decreases items, count,
{
    if !(count == 0 || count > items.len()) {
        lemma_items_keep_names(items, table, (count - 1) as nat);
        if let Ok((_, before)) = check_items(items, table, (count - 1) as nat) {
            match items[count - 1] {
                SpecBlockItem::Statement(statement) => {
                    lemma_statement_keeps_names(statement, before);
                    assert(check_item(items[count - 1], before) is Ok ==> check_statement(
                        statement,
                        before,
                    ) is Ok);
                },
                SpecBlockItem::Declaration(declaration) => {
                    assert(check_item(items[count - 1], before) is Ok ==> check_declaration(
                        declaration,
                        before,
                    ) is Ok);
                },
            }
        }
    }
}

/// Parameters that get their types leave typed what was typed, and are typed
/// themselves.
pub proof fn lemma_bound_params(
    table: Map<Seq<char>, SpecType>,
    params: Seq<(Seq<char>, SpecType)>,
    count: nat,
)
    requires
        count <= params.len(),
    ensures
        table.dom().subset_of(bind_params(table, params, count).dom()),
        forall|i: int|
            0 <= i < count ==> bind_params(table, params, count).contains_key(
                (#[trigger] params[i]).0,
            ),
    decreases count,
{
    if count > 0 {
        lemma_bound_params(table, params, (count - 1) as nat);
    }
}

/// Functions whose signatures are recorded leave typed what was typed, and
/// are typed themselves.
pub proof fn lemma_declared_functions(
    table: Map<Seq<char>, SpecType>,
    functions: Seq<SpecFunctionDefinition>,
    count: nat,
)
    requires
        count <= functions.len(),
    ensures
        table.dom().subset_of(declare_functions(table, functions, count).dom()),
        forall|i: int|
            0 <= i < count ==> declare_functions(table, functions, count).contains_key(
                (#[trigger] functions[i]).name,
            ),
    decreases count,
{
    if count > 0 {
        lemma_declared_functions(table, functions, (count - 1) as nat);
    }
}

/// Functions that pass the check leave typed what was typed, and their
/// parameters are typed.
pub proof fn lemma_functions_keep_names(
    functions: Seq<SpecFunctionDefinition>,
    table: Map<Seq<char>, SpecType>,
    count: nat,
)
    requires
        count <= functions.len(),
    ensures
        check_functions(functions, table, count) matches Ok((_, after)) ==> (table.dom().subset_of(
            after.dom(),
        ) && forall|i: int, k: int|
            0 <= i < count && 0 <= k < functions[i].params.len() ==> after.contains_key(
                (#[trigger] functions[i].params[k]).0,
            )),
    decreases count,
{
    if count > 0 {
        lemma_functions_keep_names(functions, table, (count - 1) as nat);
        if let Ok((_, before)) = check_functions(functions, table, (count - 1) as nat) {
            let function = functions[count - 1];
            let bound = bind_params(before, function.params, function.params.len());
            lemma_bound_params(before, function.params, function.params.len());
            if let Some(body) = function.body {
                lemma_items_keep_names(body.items, bound, body.items.len());
            }
        }
    }
}

/// The table after a check that passed: it types every name that was typed
/// before, every function of the program, and every parameter of every
/// function.
pub proof fn lemma_checked_table(program: SpecProgram, table: Map<Seq<char>, SpecType>)
    requires
        check_program(program, table) is Ok,
    ensures
        table.dom().subset_of(check_program(program, table)->Ok_0.1.dom()),
        forall|i: int|
            0 <= i < program.functions.len() ==> check_program(
                program,
                table,
            )->Ok_0.1.contains_key((#[trigger] program.functions[i]).name),
        forall|i: int, k: int|
            0 <= i < program.functions.len() && 0 <= k < program.functions[i].params.len()
                ==> check_program(program, table)->Ok_0.1.contains_key(
                (#[trigger] program.functions[i].params[k]).0,
            ),
{
    let count = program.functions.len();
    let declared = declare_functions(table, program.functions, count);
    lemma_declared_functions(table, program.functions, count);
    lemma_functions_keep_names(program.functions, declared, count);
}

/// The type checker: the symbol table it fills while it checks.
pub struct TypeChecker {
    pub symbol_table: SymbolTable,
}

/// Tests whether `ty` is a type that arithmetic works on.
fn arithmetic(ty: &Type) -> (r: bool)
    ensures
        r == is_arithmetic(ty@),
{
    match ty {
        Type::I32 => true,
        _ => false,
    }
}

/// Tests whether `expression` denotes a storage location.
fn lvalue(expression: &Expression) -> (r: bool)
    ensures
        r == is_lvalue(expression@),
{
    match expression.kind {
        ExpressionKind::Variable(_) => true,
        ExpressionKind::Dereference(_) => true,
        ExpressionKind::Subscript(_, _) => true,
        _ => false,
    }
}

/// Tests whether the arguments have, one by one, the types of the parameters.
fn arguments_match(args: &Vec<Expression>, params: &Vec<Type>) -> (r: bool)
    requires
        args.len() == params.len(),
    ensures
        r == !argument_mismatch(expression_models(args@), crate::parser::nodes::type_models(params@)),
{
    let mut i: usize = 0;
    while i < args.len()
        invariant
            i <= args.len(),
            args.len() == params.len(),
            forall|j: int| 0 <= j < i ==> args@[j]@.ty == params@[j]@,
        decreases args.len() - i,
    {
        if !args[i].ty.same(&params[i]) {
            assert(expression_models(args@)[i as int].ty != crate::parser::nodes::type_models(
                params@,
            )[i as int]);
            return false;
        }
        i += 1;
    }
    true
}

impl TypeChecker {
    /// A type checker with an empty symbol table.
    pub fn new() -> (r: Self)
        ensures
            r.symbol_table@ == Map::<Seq<char>, SpecType>::empty(),
    {
        Self { symbol_table: SymbolTable::new() }
    }

    /// Tests whether `ty` is a type that arithmetic works on.
    fn is_arithmetic(&self, ty: &Type) -> (r: bool)
        ensures
            r == is_arithmetic(ty@),
    {
        arithmetic(ty)
    }

    /// Tests whether `expression` denotes a storage location.
    fn is_lvalue(&self, expression: &Expression) -> (r: bool)
        ensures
            r == is_lvalue(expression@),
    {
        lvalue(expression)
    }

    /// Checks `expression` and fills in its type and the types of its parts.
    #[verifier::loop_isolation(false)]
    #[verifier::rlimit(100)]
    pub fn typecheck_expression(&self, expression: Expression) -> (r: Result<Expression, Error>)
        ensures
            match r {
                Ok(checked) => check_expression(expression@, self.symbol_table@) == Ok::<
                    SpecExpression,
                    SpecError,
                >(checked@),
                Err(e) => check_expression(expression@, self.symbol_table@) == Err::<
                    SpecExpression,
                    SpecError,
                >(e@),
            },
        decreases expression, 0nat,
    {
        let line = expression.line_started;
        let ghost whole = expression@;
        match expression.kind {
            ExpressionKind::Number(n) => Ok(
                Expression { kind: ExpressionKind::Number(n), line_started: line, ty: expression.ty },
            ),
            ExpressionKind::Variable(name) => {
                match self.symbol_table.get(name.as_str()) {
                    None => Err(Error::new(ErrorKind::VariableNotDeclared(name), line)),
                    Some(entry) => {
                        if let Type::Function(_, _) = entry.ty {
                            Err(Error::new(ErrorKind::TypeError, line))
                        } else {
                            let ty = entry.ty.clone();
                            Ok(
                                Expression {
                                    kind: ExpressionKind::Variable(name),
                                    line_started: line,
                                    ty,
                                },
                            )
                        }
                    },
                }
            },
            ExpressionKind::Binary(op, left, right) => {
                let new_left = match self.typecheck_and_convert(*left) {
                    Ok(e) => e,
                    Err(e) => { return Err(e); },
                };
                let new_right = match self.typecheck_and_convert(*right) {
                    Ok(e) => e,
                    Err(e) => { return Err(e); },
                };
                if !new_left.ty.same(&new_right.ty) {
                    return Err(Error::new(ErrorKind::TypeError, line));
                }
                let ty = new_left.ty.clone();
                Ok(
                    Expression {
                        kind: ExpressionKind::Binary(op, Box::new(new_left), Box::new(new_right)),
                        line_started: line,
                        ty,
                    },
                )
            },
            ExpressionKind::FunctionCall(name, args) => {
                let entry = match self.symbol_table.get(name.as_str()) {
                    None => {
                        return Err(Error::new(ErrorKind::VariableNotDeclared(name), line));
                    },
                    Some(entry) => entry,
                };
                let (params, return_type) = match &entry.ty {
                    Type::Function(params, return_type) => (params, return_type),
                    _ => {
                        return Err(Error::new(ErrorKind::TypeError, line));
                    },
                };
                assert(entry.ty@ == SpecType::Function(
                    crate::parser::nodes::type_models(params@),
                    Box::new(return_type@),
                ));
                assert(expression_models(args@).len() == args@.len());
                assert(crate::parser::nodes::type_models(params@).len() == params@.len());
                if args.len() != params.len() {
                    return Err(Error::new(ErrorKind::TypeError, line));
                }
                let ghost given = expression_models(args@);
                let ghost table = self.symbol_table@;
                let mut rest = args;
                let mut new_args: Vec<Expression> = Vec::new();
                assert(expression_models(new_args@) =~= Seq::empty());
                while rest.len() > 0
                    invariant
                        rest@ == args@.skip(new_args@.len() as int),
                        new_args@.len() <= args@.len(),
                        check_arguments(given, table, new_args@.len() as nat) == Ok::<
                            Seq<SpecExpression>,
                            SpecError,
                        >(expression_models(new_args@)),
                    decreases rest.len(),
                {
                    let ghost done = new_args@.len();
                    let ghost before = expression_models(new_args@);
                    let arg = rest.remove(0);
                    assert(arg == args@[done as int]);
                    assert(given[done as int] == arg@);
                    match self.typecheck_and_convert(arg) {
                        Ok(checked) => {
                            new_args.push(checked);
                            assert(expression_models(new_args@) =~= before.push(checked@));
                        },
                        Err(e) => {
                            proof {
                                lemma_argument_failure_stays(
                                    given,
                                    table,
                                    (done + 1) as nat,
                                    given.len(),
                                );
                            }
                            return Err(e);
                        },
                    }
                    assert(rest@ =~= args@.skip(new_args@.len() as int));
                }
                if !arguments_match(&new_args, params) {
                    return Err(Error::new(ErrorKind::TypeError, line));
                }
                let ty = (**return_type).clone();
                Ok(
                    Expression {
                        kind: ExpressionKind::FunctionCall(name, new_args),
                        line_started: line,
                        ty,
                    },
                )
            },
            ExpressionKind::Assign(left, right) => {
                let new_left = match self.typecheck_and_convert(*left) {
                    Ok(e) => e,
                    Err(e) => { return Err(e); },
                };
                let new_right = match self.typecheck_and_convert(*right) {
                    Ok(e) => e,
                    Err(e) => { return Err(e); },
                };
                if !new_left.ty.same(&new_right.ty) {
                    return Err(Error::new(ErrorKind::TypeError, line));
                }
                if !self.is_lvalue(&new_left) {
                    return Err(Error::new(ErrorKind::InvalidAssignmentTarget, line));
                }
                let ty = new_left.ty.clone();
                Ok(
                    Expression {
                        kind: ExpressionKind::Assign(Box::new(new_left), Box::new(new_right)),
                        line_started: line,
                        ty,
                    },
                )
            },
            ExpressionKind::IsZero(inner) => {
                let new_inner = match self.typecheck_and_convert(*inner) {
                    Ok(e) => e,
                    Err(e) => { return Err(e); },
                };
                if !self.is_arithmetic(&new_inner.ty) {
                    return Err(Error::new(ErrorKind::TypeError, line));
                }
                let ty = new_inner.ty.clone();
                Ok(
                    Expression {
                        kind: ExpressionKind::IsZero(Box::new(new_inner)),
                        line_started: line,
                        ty,
                    },
                )
            },
            ExpressionKind::Dereference(inner) => {
                let new_inner = match self.typecheck_and_convert(*inner) {
                    Ok(e) => e,
                    Err(e) => { return Err(e); },
                };
                let ty = match &new_inner.ty {
                    Type::Pointer(pointee) => (**pointee).clone(),
                    _ => {
                        return Err(Error::new(ErrorKind::TypeError, line));
                    },
                };
                Ok(
                    Expression {
                        kind: ExpressionKind::Dereference(Box::new(new_inner)),
                        line_started: line,
                        ty,
                    },
                )
            },
            ExpressionKind::AddressOf(inner) => {
                if !self.is_lvalue(&*inner) {
                    return Err(Error::new(ErrorKind::TypeError, line));
                }
                let new_inner = match self.typecheck_expression(*inner) {
                    Ok(e) => e,
                    Err(e) => { return Err(e); },
                };
                let ty = Type::Pointer(Box::new(new_inner.ty.clone()));
                Ok(
                    Expression {
                        kind: ExpressionKind::AddressOf(Box::new(new_inner)),
                        line_started: line,
                        ty,
                    },
                )
            },
            ExpressionKind::Subscript(array, index) => {
                let new_array = match self.typecheck_expression(*array) {
                    Ok(e) => e,
                    Err(e) => { return Err(e); },
                };
                let new_index = match self.typecheck_and_convert(*index) {
                    Ok(e) => e,
                    Err(e) => { return Err(e); },
                };
                if !self.is_lvalue(&new_array) {
                    return Err(Error::new(ErrorKind::TypeError, line));
                }
                let ty = match &new_array.ty {
                    Type::Pointer(pointee) => {
                        if !self.is_arithmetic(&new_index.ty) {
                            return Err(Error::new(ErrorKind::TypeError, line));
                        }
                        (**pointee).clone()
                    },
                    _ => {
                        return Err(Error::new(ErrorKind::TypeError, line));
                    },
                };
                Ok(
                    Expression {
                        kind: ExpressionKind::Subscript(Box::new(new_array), Box::new(new_index)),
                        line_started: line,
                        ty,
                    },
                )
            },
        }
    }

    /// Checks `expression` where a value is wanted.
    pub fn typecheck_and_convert(&self, expression: Expression) -> (r: Result<Expression, Error>)
        ensures
            match r {
                Ok(checked) => check_expression(expression@, self.symbol_table@) == Ok::<
                    SpecExpression,
                    SpecError,
                >(checked@),
                Err(e) => check_expression(expression@, self.symbol_table@) == Err::<
                    SpecExpression,
                    SpecError,
                >(e@),
            },
        decreases expression, 1nat,
    {
        self.typecheck_expression(expression)
    }

    /// Checks a declaration and records the type of the name it declares.
    pub fn typecheck_declaration(&mut self, declaration: Declaration) -> (r: Result<Declaration, Error>)
        ensures
            match r {
                Ok(checked) => check_declaration(declaration@, old(self).symbol_table@) == Ok::<
                    (SpecDeclaration, Map<Seq<char>, SpecType>),
                    SpecError,
                >((checked@, final(self).symbol_table@)),
                Err(e) => check_declaration(declaration@, old(self).symbol_table@) == Err::<
                    (SpecDeclaration, Map<Seq<char>, SpecType>),
                    SpecError,
                >(e@),
            },
            old(self).symbol_table@.dom().subset_of(final(self).symbol_table@.dom()),
    {
        let new_value = match self.typecheck_and_convert(declaration.value) {
            Ok(e) => e,
            Err(e) => { return Err(e); },
        };
        self.symbol_table.insert(declaration.name.clone(), STEntry { ty: declaration.ty.clone() });
        Ok(
            Declaration {
                name: declaration.name,
                ty: declaration.ty,
                value: new_value,
                line_started: declaration.line_started,
            },
        )
    }

    /// Checks a block item.
    pub fn typecheck_block_item(&mut self, item: BlockItem) -> (r: Result<BlockItem, Error>)
        ensures
            match r {
                Ok(checked) => check_item(item@, old(self).symbol_table@) == Ok::<
                    (SpecBlockItem, Map<Seq<char>, SpecType>),
                    SpecError,
                >((checked@, final(self).symbol_table@)),
                Err(e) => check_item(item@, old(self).symbol_table@) == Err::<
                    (SpecBlockItem, Map<Seq<char>, SpecType>),
                    SpecError,
                >(e@),
            },
            old(self).symbol_table@.dom().subset_of(final(self).symbol_table@.dom()),
        decreases item, 0nat,
    {
        match item {
            BlockItem::Statement(statement) => {
                match self.typecheck_statement(statement) {
                    Ok(s) => Ok(BlockItem::Statement(s)),
                    Err(e) => Err(e),
                }
            },
            BlockItem::Declaration(declaration) => {
                match self.typecheck_declaration(declaration) {
                    Ok(d) => Ok(BlockItem::Declaration(d)),
                    Err(e) => Err(e),
                }
            },
        }
    }

    /// Checks the items of a block in order.
    #[verifier::loop_isolation(false)]
    #[verifier::rlimit(100)]
    pub fn typecheck_block(&mut self, block: Block) -> (r: Result<Block, Error>)
        ensures
            match r {
                Ok(checked) => check_block(block@, old(self).symbol_table@) == Ok::<
                    (SpecBlock, Map<Seq<char>, SpecType>),
                    SpecError,
                >((checked@, final(self).symbol_table@)),
                Err(e) => check_block(block@, old(self).symbol_table@) == Err::<
                    (SpecBlock, Map<Seq<char>, SpecType>),
                    SpecError,
                >(e@),
            },
            old(self).symbol_table@.dom().subset_of(final(self).symbol_table@.dom()),
        decreases block, 0nat,
    {
        let line = block.line_started;
        let ghost given = item_models(block.items@);
        let ghost table = self.symbol_table@;
        let mut rest = block.items;
        let mut new_items: Vec<BlockItem> = Vec::new();
        assert(item_models(new_items@) =~= Seq::empty());
        while rest.len() > 0
            invariant
                rest@ == block.items@.skip(new_items@.len() as int),
                new_items@.len() <= block.items@.len(),
                table.dom().subset_of(self.symbol_table@.dom()),
                check_items(given, table, new_items@.len() as nat) == Ok::<
                    (Seq<SpecBlockItem>, Map<Seq<char>, SpecType>),
                    SpecError,
                >((item_models(new_items@), self.symbol_table@)),
            decreases rest.len(),
        {
            let ghost done = new_items@.len();
            let ghost before = item_models(new_items@);
            let item = rest.remove(0);
            assert(item == block.items@[done as int]);
            assert(given[done as int] == item@);
            match self.typecheck_block_item(item) {
                Ok(checked) => {
                    new_items.push(checked);
                    assert(item_models(new_items@) =~= before.push(checked@));
                },
                Err(e) => {
                    proof {
                        lemma_item_failure_stays(given, table, (done + 1) as nat, given.len());
                    }
                    return Err(e);
                },
            }
            assert(rest@ =~= block.items@.skip(new_items@.len() as int));
        }
        Ok(Block { items: new_items, line_started: line })
    }

    /// Checks a statement and the statements and declarations inside it.
    pub fn typecheck_statement(&mut self, statement: Statement) -> (r: Result<Statement, Error>)
        ensures
            match r {
                Ok(checked) => check_statement(statement@, old(self).symbol_table@) == Ok::<
                    (SpecStatement, Map<Seq<char>, SpecType>),
                    SpecError,
                >((checked@, final(self).symbol_table@)),
                Err(e) => check_statement(statement@, old(self).symbol_table@) == Err::<
                    (SpecStatement, Map<Seq<char>, SpecType>),
                    SpecError,
                >(e@),
            },
            old(self).symbol_table@.dom().subset_of(final(self).symbol_table@.dom()),
        decreases statement, 0nat,
    {
        let line = statement.line_started;
        match statement.kind {
            StatementKind::Return(expression) => {
                let new_expression = match self.typecheck_and_convert(expression) {
                    Ok(e) => e,
                    Err(e) => { return Err(e); },
                };
                Ok(Statement { kind: StatementKind::Return(new_expression), line_started: line })
            },
            StatementKind::Block(block) => {
                let new_block = match self.typecheck_block(block) {
                    Ok(b) => b,
                    Err(e) => { return Err(e); },
                };
                Ok(Statement { kind: StatementKind::Block(new_block), line_started: line })
            },
            StatementKind::Expression(expression) => {
                let new_expression = match self.typecheck_and_convert(expression) {
                    Ok(e) => e,
                    Err(e) => { return Err(e); },
                };
                Ok(
                    Statement {
                        kind: StatementKind::Expression(new_expression),
                        line_started: line,
                    },
                )
            },
            StatementKind::If(condition, then_block, else_block) => {
                let new_condition = match self.typecheck_and_convert(condition) {
                    Ok(e) => e,
                    Err(e) => { return Err(e); },
                };
                let new_then_block = match self.typecheck_statement(*then_block) {
                    Ok(s) => s,
                    Err(e) => { return Err(e); },
                };
                let new_else_block = match else_block {
                    Some(else_block) => match self.typecheck_statement(*else_block) {
                        Ok(s) => Some(Box::new(s)),
                        Err(e) => { return Err(e); },
                    },
                    None => None,
                };
                Ok(
                    Statement {
                        kind: StatementKind::If(
                            new_condition,
                            Box::new(new_then_block),
                            new_else_block,
                        ),
                        line_started: line,
                    },
                )
            },
            StatementKind::While(condition, block) => {
                let new_condition = match self.typecheck_and_convert(condition) {
                    Ok(e) => e,
                    Err(e) => { return Err(e); },
                };
                let new_block = match self.typecheck_statement(*block) {
                    Ok(s) => s,
                    Err(e) => { return Err(e); },
                };
                Ok(
                    Statement {
                        kind: StatementKind::While(new_condition, Box::new(new_block)),
                        line_started: line,
                    },
                )
            },
        }
    }

    /// Records the signature of `function` under its name.
    pub fn preadd_functions(&mut self, function: &FunctionDefinition) -> (r: Result<(), Error>)
        ensures
            r is Ok,
            old(self).symbol_table@.dom().subset_of(final(self).symbol_table@.dom()),
            final(self).symbol_table@ == old(self).symbol_table@.insert(
                function@.name,
                signature(function@.params, function@.return_type),
            ),
    {
        self.symbol_table.insert_raw(
            function.name.clone(),
            signature_of(&function.params, &function.return_type),
        );
        Ok(())
    }

    /// Gives the parameters of `function` their types, then checks its body.
    #[verifier::loop_isolation(false)]
    #[verifier::rlimit(100)]
    pub fn typecheck_function(&mut self, function: FunctionDefinition) -> (r: Result<
        FunctionDefinition,
        Error,
    >)
        ensures
            match r {
                Ok(checked) => check_function(function@, old(self).symbol_table@) == Ok::<
                    (SpecFunctionDefinition, Map<Seq<char>, SpecType>),
                    SpecError,
                >((checked@, final(self).symbol_table@)),
                Err(e) => check_function(function@, old(self).symbol_table@) == Err::<
                    (SpecFunctionDefinition, Map<Seq<char>, SpecType>),
                    SpecError,
                >(e@),
            },
            old(self).symbol_table@.dom().subset_of(final(self).symbol_table@.dom()),
    {
        let ghost table = self.symbol_table@;
        let mut i: usize = 0;
        while i < function.params.len()
            invariant
                i <= function.params.len(),
                table.dom().subset_of(self.symbol_table@.dom()),
                self.symbol_table@ == bind_params(table, function@.params, i as nat),
            decreases function.params.len() - i,
        {
            let name = function.params[i].0.clone();
            let ty = function.params[i].1.clone();
            self.symbol_table.insert(name, STEntry { ty });
            i += 1;
        }
        let new_block = match function.body {
            Some(body) => match self.typecheck_block(body) {
                Ok(b) => Some(b),
                Err(e) => { return Err(e); },
            },
            None => None,
        };
        Ok(
            FunctionDefinition {
                name: function.name,
                params: function.params,
                return_type: function.return_type,
                body: new_block,
                line_started: function.line_started,
            },
        )
    }

    /// Checks `program` and fills in the type of every expression in it.
    ///
    /// The signatures of all functions are recorded before any body is
    /// checked. The symbol table ends as the check left it: after a check
    /// that passed, with every function, parameter and declared variable of
    /// the program. Whether the check passes or fails, no name loses its
    /// place in the table.
    #[verifier::loop_isolation(false)]
    #[verifier::rlimit(100)]
    pub fn typecheck_program(&mut self, program: Program) -> (r: Result<Program, Error>)
        ensures
            match r {
                Ok(checked) => check_program(program@, old(self).symbol_table@) == Ok::<
                    (SpecProgram, Map<Seq<char>, SpecType>),
                    SpecError,
                >((checked@, final(self).symbol_table@)),
                Err(e) => check_program(program@, old(self).symbol_table@) == Err::<
                    (SpecProgram, Map<Seq<char>, SpecType>),
                    SpecError,
                >(e@),
            },
            old(self).symbol_table@.dom().subset_of(final(self).symbol_table@.dom()),
    {
        let ghost given = function_models(program.functions@);
        let ghost table = self.symbol_table@;
        let mut i: usize = 0;
        while i < program.functions.len()
            invariant
                i <= program.functions.len(),
                table.dom().subset_of(self.symbol_table@.dom()),
                self.symbol_table@ == declare_functions(table, given, i as nat),
            decreases program.functions.len() - i,
        {
            let _ = self.preadd_functions(&program.functions[i]);
            i += 1;
        }
        let ghost declared = self.symbol_table@;
        let mut rest = program.functions;
        let mut new_functions: Vec<FunctionDefinition> = Vec::new();
        assert(function_models(new_functions@) =~= Seq::empty());
        while rest.len() > 0
            invariant
                rest@ == program.functions@.skip(new_functions@.len() as int),
                new_functions@.len() <= program.functions@.len(),
                table.dom().subset_of(self.symbol_table@.dom()),
                check_functions(given, declared, new_functions@.len() as nat) == Ok::<
                    (Seq<SpecFunctionDefinition>, Map<Seq<char>, SpecType>),
                    SpecError,
                >((function_models(new_functions@), self.symbol_table@)),
            decreases rest.len(),
        {
            let ghost done = new_functions@.len();
            let ghost before = function_models(new_functions@);
            let function = rest.remove(0);
            assert(function == program.functions@[done as int]);
            assert(given[done as int] == function@);
            match self.typecheck_function(function) {
                Ok(checked) => {
                    new_functions.push(checked);
                    assert(function_models(new_functions@) =~= before.push(checked@));
                },
                Err(e) => {
                    proof {
                        lemma_function_failure_stays(
                            given,
                            declared,
                            (done + 1) as nat,
                            given.len(),
                        );
                    }
                    return Err(e);
                },
            }
            assert(rest@ =~= program.functions@.skip(new_functions@.len() as int));
        }
        Ok(Program { functions: new_functions })
    }
}

} // verus!
