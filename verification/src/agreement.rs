use crate::ir::{
    fresh, lower_arguments, lower_block, lower_declaration, lower_expression, lower_function,
    lower_functions, lower_items, lower_program, lower_statement, Lowering,
};
use crate::parser::nodes::{
    SpecBlock, SpecBlockItem, SpecDeclaration, SpecExpression, SpecExpressionKind,
    SpecFunctionDefinition, SpecProgram, SpecStatement, SpecStatementKind, SpecType,
};
use crate::errors::SpecError;
use crate::semantic_analysis::analysis;
use crate::semantic_analysis::typecheck::{
    bind_params, check_arguments, check_block, check_declaration, check_expression,
    check_function, check_functions, check_item, check_items, check_program, check_statement,
    declare_functions, is_lvalue,
};
use crate::semantic_analysis::variable_resolution::{
    announce_functions, resolve_arguments, resolve_block, resolve_declaration,
    resolve_expression, resolve_function, resolve_functions, resolve_items, resolve_program,
    resolve_statement, Scope,
};
use vstd::prelude::*;

verus! {

/// Checked arguments are as many as were given, and each is the checked
/// form of the argument in its place.
pub proof fn lemma_checked_arguments(
    args: Seq<SpecExpression>,
    table: Map<Seq<char>, SpecType>,
    count: nat,
)
    requires
        count <= args.len(),
        check_arguments(args, table, count) is Ok,
    ensures
        check_arguments(args, table, count)->Ok_0.len() == count,
        forall|i: int|
            0 <= i < count ==> check_expression(#[trigger] args[i], table) == Ok::<
                SpecExpression,
                SpecError,
            >(check_arguments(args, table, count)->Ok_0[i]),
    decreases count,
{
    if count > 0 {
        lemma_checked_arguments(args, table, (count - 1) as nat);
    }
}

/// An expression that has passed the type check can be lowered: the target
/// of every assignment in it is a place.
pub proof fn lemma_checked_expression_lowers(
    expression: SpecExpression,
    table: Map<Seq<char>, SpecType>,
    at: Lowering,
)
    requires
        check_expression(expression, table) is Ok,
    ensures
        lower_expression(check_expression(expression, table)->Ok_0, at) is Ok,
    decreases expression, 0nat,
{
    match expression.kind {
        SpecExpressionKind::Number(_) => {},
        SpecExpressionKind::Variable(_) => {},
        SpecExpressionKind::Binary(_, left, right) => {
            lemma_checked_expression_lowers(*left, table, at);
            let l = check_expression(*left, table)->Ok_0;
            let s1 = lower_expression(l, at)->Ok_0.1;
            lemma_checked_expression_lowers(*right, table, s1);
            assert(lower_expression(check_expression(expression, table)->Ok_0, at) is Ok);
        },
        SpecExpressionKind::Assign(target, value) => {
            let l = check_expression(*target, table)->Ok_0;
            let r = check_expression(*value, table)->Ok_0;
            lemma_checked_expression_lowers(*value, table, at);
            let s1 = lower_expression(r, at)->Ok_0.1;
            assert(is_lvalue(l));
            match target.kind {
                SpecExpressionKind::Dereference(pointer) => {
                    lemma_checked_expression_lowers(*pointer, table, s1);
                },
                SpecExpressionKind::Subscript(base, index) => {
                    lemma_checked_expression_lowers(*base, table, s1);
                    let b = check_expression(*base, table)->Ok_0;
                    let s2 = lower_expression(b, s1)->Ok_0.1;
                    lemma_checked_expression_lowers(*index, table, s2);
                },
                _ => {},
            }
            assert(lower_expression(check_expression(expression, table)->Ok_0, at) is Ok);
        },
        SpecExpressionKind::IsZero(inner) => {
            lemma_checked_expression_lowers(*inner, table, at);
            assert(lower_expression(check_expression(expression, table)->Ok_0, at) is Ok);
        },
        SpecExpressionKind::FunctionCall(_, args) => {
            lemma_checked_arguments(args, table, args.len());
            lemma_checked_arguments_lower(args, table, at, args.len());
            assert(lower_expression(check_expression(expression, table)->Ok_0, at) is Ok);
        },
        SpecExpressionKind::AddressOf(inner) => {
            lemma_checked_expression_lowers(*inner, table, at);
            assert(lower_expression(check_expression(expression, table)->Ok_0, at) is Ok);
        },
        SpecExpressionKind::Dereference(inner) => {
            lemma_checked_expression_lowers(*inner, table, at);
            assert(lower_expression(check_expression(expression, table)->Ok_0, at) is Ok);
        },
        SpecExpressionKind::Subscript(base, index) => {
            lemma_checked_expression_lowers(*base, table, at);
            let b = check_expression(*base, table)->Ok_0;
            let s1 = lower_expression(b, at)->Ok_0.1;
            lemma_checked_expression_lowers(*index, table, s1);
            assert(lower_expression(check_expression(expression, table)->Ok_0, at) is Ok);
        },
    }
}

/// Arguments that have passed the type check can be lowered.
pub proof fn lemma_checked_arguments_lower(
    args: Seq<SpecExpression>,
    table: Map<Seq<char>, SpecType>,
    at: Lowering,
    count: nat,
)
    requires
        count <= args.len(),
        check_arguments(args, table, args.len()) is Ok,
    ensures
        lower_arguments(check_arguments(args, table, args.len())->Ok_0, at, count) is Ok,
    decreases args, count,
{
    let checked = check_arguments(args, table, args.len())->Ok_0;
    lemma_checked_arguments(args, table, args.len());
    if count > 0 {
        lemma_checked_arguments_lower(args, table, at, (count - 1) as nat);
        let s1 = lower_arguments(checked, at, (count - 1) as nat)->Ok_0.1;
        assert(check_expression(args[count - 1], table) is Ok);
        lemma_checked_expression_lowers(args[count - 1], table, s1);
    }
}

/// Checked block items are as many as were given, and each is the checked
/// form of the item in its place, under the table that the items before it
/// left.
pub proof fn lemma_checked_items(
    items: Seq<SpecBlockItem>,
    table: Map<Seq<char>, SpecType>,
    count: nat,
)
    requires
        count <= items.len(),
        check_items(items, table, count) is Ok,
    ensures
        check_items(items, table, count)->Ok_0.0.len() == count,
        forall|i: int|
            0 <= i < count ==> (#[trigger] check_items(items, table, i as nat)) is Ok
                && check_item(items[i], check_items(items, table, i as nat)->Ok_0.1) is Ok
                && check_item(items[i], check_items(items, table, i as nat)->Ok_0.1)->Ok_0.0
                == check_items(items, table, count)->Ok_0.0[i],
    decreases count,
{
    if count > 0 {
        lemma_checked_items(items, table, (count - 1) as nat);
    }
}

/// A statement that has passed the type check can be lowered.
pub proof fn lemma_checked_statement_lowers(
    statement: SpecStatement,
    table: Map<Seq<char>, SpecType>,
    at: Lowering,
)
    requires
        check_statement(statement, table) is Ok,
    ensures
        lower_statement(check_statement(statement, table)->Ok_0.0, at) is Ok,
    decreases statement, 0nat,
{
    match statement.kind {
        SpecStatementKind::Return(value) => {
            lemma_checked_expression_lowers(value, table, at);
        },
        SpecStatementKind::Expression(value) => {
            lemma_checked_expression_lowers(value, table, at);
        },
        SpecStatementKind::Block(block) => {
            lemma_checked_block_lowers(block, table, at);
        },
        SpecStatementKind::If(condition, then_branch, else_branch) => {
            lemma_checked_expression_lowers(condition, table, at);
            let c = check_expression(condition, table)->Ok_0;
            let (cv, s1) = lower_expression(c, at)->Ok_0;
            let entered = s1.labelled().emit(
                crate::ir::definition::SpecInstruction::JumpIfZero(cv, s1.label()),
            );
            lemma_checked_statement_lowers(*then_branch, table, entered);
            let (t, after_then) = check_statement(*then_branch, table)->Ok_0;
            let s2 = lower_statement(t, entered)->Ok_0;
            if let Some(branch) = else_branch {
                let turned = s2.labelled().emit(
                    crate::ir::definition::SpecInstruction::Jump(s2.label()),
                ).emit(crate::ir::definition::SpecInstruction::Label(s1.label()));
                lemma_checked_statement_lowers(*branch, after_then, turned);
            }
        },
        SpecStatementKind::While(condition, body) => {
            let started = at.labelled().labelled().emit(
                crate::ir::definition::SpecInstruction::Label(at.label()),
            );
            lemma_checked_expression_lowers(condition, table, started);
            let c = check_expression(condition, table)->Ok_0;
            let (cv, s1) = lower_expression(c, started)->Ok_0;
            lemma_checked_statement_lowers(
                *body,
                table,
                s1.emit(
                    crate::ir::definition::SpecInstruction::JumpIfZero(
                        cv,
                        at.labelled().label(),
                    ),
                ),
            );
        },
    }
}

/// A block that has passed the type check can be lowered.
pub proof fn lemma_checked_block_lowers(
    block: SpecBlock,
    table: Map<Seq<char>, SpecType>,
    at: Lowering,
)
    requires
        check_block(block, table) is Ok,
    ensures
        lower_block(check_block(block, table)->Ok_0.0, at) is Ok,
    decreases block, 1nat,
{
    lemma_checked_items(block.items, table, block.items.len());
    lemma_checked_items_lower(block.items, table, at, block.items.len());
}

/// Block items that have passed the type check can be lowered.
pub proof fn lemma_checked_items_lower(
    items: Seq<SpecBlockItem>,
    table: Map<Seq<char>, SpecType>,
    at: Lowering,
    count: nat,
)
    requires
        count <= items.len(),
        check_items(items, table, items.len()) is Ok,
    ensures
        lower_items(check_items(items, table, items.len())->Ok_0.0, at, count) is Ok,
    decreases items, count,
{
    let checked = check_items(items, table, items.len())->Ok_0.0;
    lemma_checked_items(items, table, items.len());
    if count > 0 {
        lemma_checked_items_lower(items, table, at, (count - 1) as nat);
        let s1 = lower_items(checked, at, (count - 1) as nat)->Ok_0;
        let before = check_items(items, table, (count - 1) as nat)->Ok_0.1;
        assert(check_item(items[count - 1], before)->Ok_0.0 == checked[count - 1]);
        match items[count - 1] {
            SpecBlockItem::Statement(statement) => {
                lemma_checked_statement_lowers(statement, before, s1);
            },
            SpecBlockItem::Declaration(declaration) => {
                lemma_checked_expression_lowers(declaration.value, before, s1);
            },
        }
    }
}

/// Checked functions are as many as were given, and each is the checked
/// form of the function in its place, under the table that the functions
/// before it left.
pub proof fn lemma_checked_functions(
    functions: Seq<SpecFunctionDefinition>,
    table: Map<Seq<char>, SpecType>,
    count: nat,
)
    requires
        count <= functions.len(),
        check_functions(functions, table, count) is Ok,
    ensures
        check_functions(functions, table, count)->Ok_0.0.len() == count,
        forall|i: int|
            0 <= i < count ==> (#[trigger] check_functions(functions, table, i as nat)) is Ok
                && check_function(
                functions[i],
                check_functions(functions, table, i as nat)->Ok_0.1,
            ) is Ok && check_function(
                functions[i],
                check_functions(functions, table, i as nat)->Ok_0.1,
            )->Ok_0.0 == check_functions(functions, table, count)->Ok_0.0[i],
    decreases count,
{
    if count > 0 {
        lemma_checked_functions(functions, table, (count - 1) as nat);
    }
}

/// Functions that have passed the type check can be lowered.
pub proof fn lemma_checked_functions_lower(
    functions: Seq<SpecFunctionDefinition>,
    table: Map<Seq<char>, SpecType>,
    at: Lowering,
    count: nat,
)
    requires
        count <= functions.len(),
        check_functions(functions, table, functions.len()) is Ok,
    ensures
        lower_functions(
            check_functions(functions, table, functions.len())->Ok_0.0,
            at,
            count,
        ) is Ok,
    decreases count,
{
    let checked = check_functions(functions, table, functions.len())->Ok_0.0;
    lemma_checked_functions(functions, table, functions.len());
    if count > 0 {
        lemma_checked_functions_lower(functions, table, at, (count - 1) as nat);
        let s1 = lower_functions(checked, at, (count - 1) as nat)->Ok_0.1;
        let before = check_functions(functions, table, (count - 1) as nat)->Ok_0.1;
        let function = functions[count - 1];
        assert(check_function(function, before)->Ok_0.0 == checked[count - 1]);
        if let Some(body) = function.body {
            lemma_checked_block_lowers(
                body,
                bind_params(
                    before,
                    function.params,
                    function.params.len(),
                ),
                fresh(s1),
            );
        }
    }
}

/// The stages agree on what a place is: a program that has passed the type
/// check can be lowered, from whatever state, so that lowering fails on no
/// program that the stages before it let through.
pub proof fn lemma_checked_program_lowers(
    program: SpecProgram,
    table: Map<Seq<char>, SpecType>,
    at: Lowering,
)
    requires
        check_program(program, table) is Ok,
    ensures
        lower_program(check_program(program, table)->Ok_0.0, at) is Ok,
{
    let declared = declare_functions(
        table,
        program.functions,
        program.functions.len(),
    );
    lemma_checked_functions(program.functions, declared, program.functions.len());
    lemma_checked_functions_lower(program.functions, declared, at, program.functions.len());
}


/// Whether `outcome` is the failure to find a name declared.
pub open spec fn is_undeclared<T>(outcome: Result<T, SpecError>) -> bool {
    outcome matches Err(e) && e.kind is VariableNotDeclared
}

/// An expression that has been resolved names nothing that the type check
/// misses: under a table that types the bound names, the type check of it
/// does not fail for a name that is not declared.
pub proof fn lemma_resolved_expression_is_typed(
    expression: SpecExpression,
    table: Map<Seq<char>, SpecType>,
)
    requires
        resolve_expression(expression, table.dom()) is Ok,
    ensures
        !is_undeclared(check_expression(expression, table)),
    decreases expression, 0nat,
{
    match expression.kind {
        SpecExpressionKind::Number(_) => {},
        SpecExpressionKind::Variable(_) => {},
        SpecExpressionKind::Binary(_, left, right) => {
            lemma_resolved_expression_is_typed(*left, table);
            lemma_resolved_expression_is_typed(*right, table);
        },
        SpecExpressionKind::Assign(target, value) => {
            lemma_resolved_expression_is_typed(*target, table);
            lemma_resolved_expression_is_typed(*value, table);
        },
        SpecExpressionKind::IsZero(inner) => {
            lemma_resolved_expression_is_typed(*inner, table);
        },
        SpecExpressionKind::FunctionCall(_, args) => {
            lemma_resolved_arguments_are_typed(args, table, args.len());
        },
        SpecExpressionKind::AddressOf(inner) => {
            lemma_resolved_expression_is_typed(*inner, table);
        },
        SpecExpressionKind::Dereference(inner) => {
            lemma_resolved_expression_is_typed(*inner, table);
        },
        SpecExpressionKind::Subscript(base, index) => {
            lemma_resolved_expression_is_typed(*base, table);
            lemma_resolved_expression_is_typed(*index, table);
        },
    }
}

/// Arguments that have been resolved name nothing that the type check
/// misses.
pub proof fn lemma_resolved_arguments_are_typed(
    args: Seq<SpecExpression>,
    table: Map<Seq<char>, SpecType>,
    count: nat,
)
    requires
        count <= args.len(),
        resolve_arguments(args, table.dom(), count) is Ok,
    ensures
        !is_undeclared(check_arguments(args, table, count)),
    decreases args, count,
{
    if count > 0 {
        lemma_resolved_arguments_are_typed(args, table, (count - 1) as nat);
        lemma_resolved_expression_is_typed(args[count - 1], table);
    }
}

/// A statement that has been resolved names nothing that the type check
/// misses, and the type check of it types the names that its resolution
/// binds.
pub proof fn lemma_resolved_statement_is_typed(
    statement: SpecStatement,
    scope: Scope,
    table: Map<Seq<char>, SpecType>,
)
    requires
        resolve_statement(statement, scope) is Ok,
        table.dom() == scope.names.dom(),
    ensures
        !is_undeclared(check_statement(statement, table)),
        check_statement(statement, table) matches Ok((_, after)) ==> after.dom()
            == resolve_statement(statement, scope)->Ok_0.names.dom(),
    decreases statement, 0nat,
{
    match statement.kind {
        SpecStatementKind::Return(value) => {
            lemma_resolved_expression_is_typed(value, table);
        },
        SpecStatementKind::Expression(value) => {
            lemma_resolved_expression_is_typed(value, table);
        },
        SpecStatementKind::Block(block) => {
            lemma_resolved_items_are_typed(block.items, scope, table, block.items.len());
            assert(resolve_statement(statement, scope) == resolve_block(block, scope));
            assert(check_statement(statement, table) is Ok ==> check_block(block, table) is Ok);
        },
        SpecStatementKind::If(condition, then_branch, else_branch) => {
            lemma_resolved_expression_is_typed(condition, table);
            lemma_resolved_statement_is_typed(*then_branch, scope, table);
            if let Some(branch) = else_branch {
                if let Ok((_, after)) = check_statement(*then_branch, table) {
                    lemma_resolved_statement_is_typed(
                        *branch,
                        resolve_statement(*then_branch, scope)->Ok_0,
                        after,
                    );
                }
            }
        },
        SpecStatementKind::While(condition, body) => {
            lemma_resolved_expression_is_typed(condition, table);
            lemma_resolved_statement_is_typed(*body, scope, table);
        },
    }
}

/// Block items that have been resolved name nothing that the type check
/// misses, and the type check of them types the names that their resolution
/// binds.
pub proof fn lemma_resolved_items_are_typed(
    items: Seq<SpecBlockItem>,
    scope: Scope,
    table: Map<Seq<char>, SpecType>,
    count: nat,
)
    requires
        count <= items.len(),
        resolve_items(items, scope, count) is Ok,
        table.dom() == scope.names.dom(),
    ensures
        !is_undeclared(check_items(items, table, count)),
        check_items(items, table, count) matches Ok((_, after)) ==> after.dom() == resolve_items(
            items,
            scope,
            count,
        )->Ok_0.names.dom(),
    decreases items, count,
{
    if count > 0 {
        lemma_resolved_items_are_typed(items, scope, table, (count - 1) as nat);
        if let Ok((_, before)) = check_items(items, table, (count - 1) as nat) {
            let bound = resolve_items(items, scope, (count - 1) as nat)->Ok_0;
            let item = items[count - 1];
            match item {
                SpecBlockItem::Statement(statement) => {
                    lemma_resolved_statement_is_typed(statement, bound, before);
                    assert(check_item(item, before) is Ok == check_statement(
                        statement,
                        before,
                    ) is Ok);
                    assert(is_undeclared(check_item(item, before)) == is_undeclared(
                        check_statement(statement, before),
                    ));
                },
                SpecBlockItem::Declaration(declaration) => {
                    assert(resolve_declaration(declaration, bound) is Ok);
                    lemma_resolved_expression_is_typed(declaration.value, before);
                    assert(before.insert(declaration.name, declaration.ty).dom()
                        =~= bound.names.insert(declaration.name, declaration.ty).dom());
                    assert(is_undeclared(check_item(item, before)) == is_undeclared(
                        check_declaration(declaration, before),
                    ));
                },
            }
            assert(!is_undeclared(check_item(item, before)));
        }
    }
}

/// Parameters are bound under the same names whatever the types of the
/// names bound before.
pub proof fn lemma_params_bind_names(
    first: Map<Seq<char>, SpecType>,
    second: Map<Seq<char>, SpecType>,
    params: Seq<(Seq<char>, SpecType)>,
    count: nat,
)
    requires
        first.dom() == second.dom(),
    ensures
        bind_params(first, params, count).dom() == bind_params(second, params, count).dom(),
    decreases count,
{
    if !(count == 0 || count > params.len()) {
        lemma_params_bind_names(first, second, params, (count - 1) as nat);
        let a = bind_params(first, params, (count - 1) as nat);
        let b = bind_params(second, params, (count - 1) as nat);
        assert(a.insert(params[count - 1].0, params[count - 1].1).dom() =~= b.insert(
            params[count - 1].0,
            params[count - 1].1,
        ).dom());
    }
}

/// Functions that are announced are bound under the names under which the
/// type check records their signatures.
pub proof fn lemma_announced_names(
    functions: Seq<SpecFunctionDefinition>,
    names: Map<Seq<char>, SpecType>,
    table: Map<Seq<char>, SpecType>,
    count: nat,
)
    requires
        count <= functions.len(),
        names.dom() == table.dom(),
        announce_functions(functions, names, count) is Ok,
    ensures
        announce_functions(functions, names, count)->Ok_0.dom() == declare_functions(
            table,
            functions,
            count,
        ).dom(),
    decreases count,
{
    if count > 0 {
        lemma_announced_names(functions, names, table, (count - 1) as nat);
        let a = announce_functions(functions, names, (count - 1) as nat)->Ok_0;
        let b = declare_functions(table, functions, (count - 1) as nat);
        let function = functions[count - 1];
        let ty = crate::parser::nodes::signature(function.params, function.return_type);
        assert(a.insert(function.name, ty).dom() =~= b.insert(function.name, ty).dom());
    }
}

/// Functions that have been resolved name nothing that the type check
/// misses, and the type check of them types the names that their resolution
/// binds.
pub proof fn lemma_resolved_functions_are_typed(
    functions: Seq<SpecFunctionDefinition>,
    names: Map<Seq<char>, SpecType>,
    table: Map<Seq<char>, SpecType>,
    count: nat,
)
    requires
        count <= functions.len(),
        resolve_functions(functions, names, count) is Ok,
        table.dom() == names.dom(),
    ensures
        !is_undeclared(check_functions(functions, table, count)),
        check_functions(functions, table, count) matches Ok((_, after)) ==> after.dom()
            == resolve_functions(functions, names, count)->Ok_0.dom(),
    decreases count,
{
    if count > 0 {
        lemma_resolved_functions_are_typed(functions, names, table, (count - 1) as nat);
        if let Ok((_, before)) = check_functions(functions, table, (count - 1) as nat) {
            let bound = resolve_functions(functions, names, (count - 1) as nat)->Ok_0;
            let function = functions[count - 1];
            let entered = Scope {
                names: bind_params(bound, function.params, function.params.len()),
                count: function.params.len(),
            };
            lemma_params_bind_names(bound, before, function.params, function.params.len());
            if let Some(body) = function.body {
                lemma_resolved_items_are_typed(
                    body.items,
                    entered,
                    bind_params(before, function.params, function.params.len()),
                    body.items.len(),
                );
            }
        }
    }
}

/// The stages agree on what is declared: on a program that has been
/// resolved, the type check, started with the same names, does not fail for
/// a name that is not declared.
pub proof fn lemma_resolved_program_is_typed(
    program: SpecProgram,
    names: Map<Seq<char>, SpecType>,
    table: Map<Seq<char>, SpecType>,
)
    requires
        resolve_program(program, names) is Ok,
        table.dom() == names.dom(),
    ensures
        !is_undeclared(check_program(program, table)),
{
    let count = program.functions.len();
    lemma_announced_names(program.functions, names, table, count);
    lemma_resolved_functions_are_typed(
        program.functions,
        announce_functions(program.functions, names, count)->Ok_0,
        declare_functions(table, program.functions, count),
        count,
    );
}

/// In semantic analysis, a name that is not declared is found by
/// resolution, and the target of an assignment that is no place by
/// resolution or by the type check: the analysis fails for a name that is
/// not declared only as resolution does, and what it lets through can be
/// lowered.
pub proof fn lemma_stages_agree(program: SpecProgram, at: Lowering)
    ensures
        is_undeclared(analysis(program)) ==> is_undeclared(
            resolve_program(program, Map::empty()),
        ),
        analysis(program) matches Ok((typed, _)) ==> lower_program(typed, at) is Ok,
{
    if resolve_program(program, Map::empty()) is Ok {
        lemma_resolved_program_is_typed(program, Map::empty(), Map::empty());
        if check_program(program, Map::empty()) is Ok {
            lemma_checked_program_lowers(program, Map::empty(), at);
        }
    }
}

} // verus!
