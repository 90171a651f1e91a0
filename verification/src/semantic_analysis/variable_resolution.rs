use crate::errors::{fail, Error, ErrorKind, SpecError, SpecErrorKind};
use crate::parser::nodes::{
    expression_models, function_models, item_models, signature, signature_of, Block, BlockItem,
    Declaration, Expression, ExpressionKind, FunctionDefinition, Program, SpecBlock,
    SpecBlockItem, SpecDeclaration, SpecExpression, SpecExpressionKind, SpecFunctionDefinition,
    SpecProgram, SpecStatement, SpecStatementKind, SpecType, Statement, StatementKind, Type,
};
use crate::semantic_analysis::typecheck::bind_params;
use vstd::hash_map::StringHashMap;
use vstd::prelude::*;

verus! {

/// What the resolver records of a name.
#[derive(Debug, Clone)]
pub struct VarMapEntry {
    pub ty: Type,
}

/// The names bound so far, in the one namespace of the whole program, and
/// the number of variables that the function being resolved has bound.
pub struct Scope {
    pub names: Map<Seq<char>, SpecType>,
    pub count: nat,
}

/// The longest name, in characters, that a function may have.
pub const LONGEST_FUNCTION_NAME: usize = 4;

/// The shortest name, in characters, that a declared variable may have.
pub const SHORTEST_VARIABLE_NAME: usize = 7;

/// The number of variables from which on a function is packed.
pub const PACKED: u32 = 10;

/// The count `count` as a 32-bit number holds it: itself, or the largest
/// 32-bit number if it is larger.
pub open spec fn reported(count: nat) -> u32 {
    if count <= u32::MAX {
        count as u32
    } else {
        u32::MAX
    }
}

/// The error of using the name `name`, which is not bound, in `expression`.
pub open spec fn not_declared(name: Seq<char>, expression: SpecExpression) -> SpecError {
    fail(SpecErrorKind::VariableNotDeclared(name), expression.line_started)
}

/// Resolution of an expression under the bound names `names`: nothing, or
/// the first violation met.
///
/// Every variable and every called function must be bound, and the target
/// of an assignment must be a variable. The parts of an expression are
/// resolved left to right, the target of an assignment before its value, and
/// the name of a called function before its arguments.
pub open spec fn resolve_expression(expression: SpecExpression, names: Set<Seq<char>>) -> Result<
    (),
    SpecError,
>
    decreases expression, 0nat,
{
    match expression.kind {
        SpecExpressionKind::Number(_) => Ok(()),
        SpecExpressionKind::Variable(name) => {
            if names.contains(name) {
                Ok(())
            } else {
                Err(not_declared(name, expression))
            }
        },
        SpecExpressionKind::Binary(_, left, right) => match resolve_expression(*left, names) {
            Err(e) => Err(e),
            Ok(_) => resolve_expression(*right, names),
        },
        SpecExpressionKind::Assign(target, value) => match resolve_expression(*target, names) {
            Err(e) => Err(e),
            Ok(_) => match resolve_expression(*value, names) {
                Err(e) => Err(e),
                Ok(_) => {
                    if target.kind is Variable {
                        Ok(())
                    } else {
                        Err(
                            fail(
                                SpecErrorKind::InvalidAssignmentTarget,
                                expression.line_started,
                            ),
                        )
                    }
                },
            },
        },
        SpecExpressionKind::IsZero(inner) => resolve_expression(*inner, names),
        SpecExpressionKind::FunctionCall(name, args) => {
            if names.contains(name) {
                resolve_arguments(args, names, args.len())
            } else {
                Err(not_declared(name, expression))
            }
        },
        SpecExpressionKind::AddressOf(inner) => resolve_expression(*inner, names),
        SpecExpressionKind::Dereference(inner) => resolve_expression(*inner, names),
        SpecExpressionKind::Subscript(base, index) => match resolve_expression(*base, names) {
            Err(e) => Err(e),
            Ok(_) => resolve_expression(*index, names),
        },
    }
}

/// Resolution of the first `count` of `args`, left to right.
pub open spec fn resolve_arguments(args: Seq<SpecExpression>, names: Set<Seq<char>>, count: nat) -> Result<
    (),
    SpecError,
>
    decreases args, count,
{
    if count == 0 || count > args.len() {
        Ok(())
    } else {
        match resolve_arguments(args, names, (count - 1) as nat) {
            Err(e) => Err(e),
            Ok(_) => resolve_expression(args[count - 1], names),
        }
    }
}

/// Resolution of a declaration: the name must be new in the whole program
/// and at least seven characters long; then the value is resolved, without
/// the new name; then the name is bound and counted.
pub open spec fn resolve_declaration(declaration: SpecDeclaration, scope: Scope) -> Result<
    Scope,
    SpecError,
> {
    if scope.names.contains_key(declaration.name) {
        Err(
            fail(
                SpecErrorKind::VariableAlreadyDeclared(declaration.name),
                declaration.line_started,
            ),
        )
    } else if declaration.name.len() < SHORTEST_VARIABLE_NAME {
        Err(fail(SpecErrorKind::ShortVarName(declaration.name), declaration.line_started))
    } else {
        match resolve_expression(declaration.value, scope.names.dom()) {
            Err(e) => Err(e),
            Ok(_) => Ok(
                Scope {
                    names: scope.names.insert(declaration.name, declaration.ty),
                    count: scope.count + 1,
                },
            ),
        }
    }
}

/// Resolution of a statement: the scope after it, or the first violation.
/// No statement opens a scope of its own.
pub open spec fn resolve_statement(statement: SpecStatement, scope: Scope) -> Result<
    Scope,
    SpecError,
>
    decreases statement, 0nat,
{
    match statement.kind {
        SpecStatementKind::Return(value) => match resolve_expression(value, scope.names.dom()) {
            Err(e) => Err(e),
            Ok(_) => Ok(scope),
        },
        SpecStatementKind::Expression(value) => match resolve_expression(
            value,
            scope.names.dom(),
        ) {
            Err(e) => Err(e),
            Ok(_) => Ok(scope),
        },
        SpecStatementKind::Block(block) => resolve_block(block, scope),
        SpecStatementKind::If(condition, then_branch, else_branch) => match resolve_expression(
            condition,
            scope.names.dom(),
        ) {
            Err(e) => Err(e),
            Ok(_) => match resolve_statement(*then_branch, scope) {
                Err(e) => Err(e),
                Ok(after) => match else_branch {
                    None => Ok(after),
                    Some(branch) => resolve_statement(*branch, after),
                },
            },
        },
        SpecStatementKind::While(condition, body) => match resolve_expression(
            condition,
            scope.names.dom(),
        ) {
            Err(e) => Err(e),
            Ok(_) => resolve_statement(*body, scope),
        },
    }
}

/// Resolution of a block: of its items in order.
pub open spec fn resolve_block(block: SpecBlock, scope: Scope) -> Result<Scope, SpecError>
    decreases block, 0nat,
{
    resolve_items(block.items, scope, block.items.len())
}

/// Resolution of the first `count` of `items`, in order.
pub open spec fn resolve_items(items: Seq<SpecBlockItem>, scope: Scope, count: nat) -> Result<
    Scope,
    SpecError,
>
    decreases items, count,
{
    if count == 0 || count > items.len() {
        Ok(scope)
    } else {
        match resolve_items(items, scope, (count - 1) as nat) {
            Err(e) => Err(e),
            Ok(before) => match items[count - 1] {
                SpecBlockItem::Statement(statement) => resolve_statement(statement, before),
                SpecBlockItem::Declaration(declaration) => resolve_declaration(
                    declaration,
                    before,
                ),
            },
        }
    }
}

/// Resolution of a function under the bound names `names`: the names bound
/// after it, or the first violation.
///
/// The parameters are bound and counted, whatever was bound under their
/// names. Then the body, if there is one, is resolved. Then the count of
/// parameters and declared variables must be neither one nor ten or more.
pub open spec fn resolve_function(function: SpecFunctionDefinition, names: Map<Seq<char>, SpecType>) -> Result<
    Map<Seq<char>, SpecType>,
    SpecError,
> {
    let entered = Scope {
        names: bind_params(names, function.params, function.params.len()),
        count: function.params.len(),
    };
    let walked = match function.body {
        None => Ok(entered),
        Some(body) => resolve_block(body, entered),
    };
    match walked {
        Err(e) => Err(e),
        Ok(scope) => {
            if scope.count == 1 {
                Err(fail(SpecErrorKind::LonelyVariable, function.line_started))
            } else if scope.count >= PACKED {
                Err(
                    fail(
                        SpecErrorKind::PackedFunc(reported(scope.count)),
                        function.line_started,
                    ),
                )
            } else {
                Ok(scope.names)
            }
        },
    }
}

/// Resolution of the first `count` of `functions`, in order.
pub open spec fn resolve_functions(
    functions: Seq<SpecFunctionDefinition>,
    names: Map<Seq<char>, SpecType>,
    count: nat,
) -> Result<Map<Seq<char>, SpecType>, SpecError>
    decreases count,
{
    if count == 0 || count > functions.len() {
        Ok(names)
    } else {
        match resolve_functions(functions, names, (count - 1) as nat) {
            Err(e) => Err(e),
            Ok(before) => resolve_function(functions[count - 1], before),
        }
    }
}

/// The first pass over the first `count` of `functions`, in order: each is
/// bound under its name to its signature, and its name must be at most four
/// characters long.
pub open spec fn announce_functions(
    functions: Seq<SpecFunctionDefinition>,
    names: Map<Seq<char>, SpecType>,
    count: nat,
) -> Result<Map<Seq<char>, SpecType>, SpecError>
    decreases count,
{
    if count == 0 || count > functions.len() {
        Ok(names)
    } else {
        match announce_functions(functions, names, (count - 1) as nat) {
            Err(e) => Err(e),
            Ok(before) => {
                let function = functions[count - 1];
                if function.name.len() > LONGEST_FUNCTION_NAME {
                    Err(
                        fail(
                            SpecErrorKind::LongFuncName(function.name),
                            function.line_started,
                        ),
                    )
                } else {
                    Ok(
                        before.insert(
                            function.name,
                            signature(function.params, function.return_type),
                        ),
                    )
                }
            },
        }
    }
}

/// Resolution of a program, starting from the bound names `names`: every
/// function is announced before any function is resolved, so that a
/// function can be called before it is defined.
pub open spec fn resolve_program(program: SpecProgram, names: Map<Seq<char>, SpecType>) -> Result<
    Map<Seq<char>, SpecType>,
    SpecError,
> {
    match announce_functions(program.functions, names, program.functions.len()) {
        Err(e) => Err(e),
        Ok(announced) => resolve_functions(
            program.functions,
            announced,
            program.functions.len(),
        ),
    }
}

/// Once an argument has failed, the arguments as a whole fail the same way.
pub proof fn lemma_argument_failure_stays(
    args: Seq<SpecExpression>,
    names: Set<Seq<char>>,
    failed: nat,
    count: nat,
)
    requires
        failed <= count <= args.len(),
        resolve_arguments(args, names, failed) is Err,
    ensures
        resolve_arguments(args, names, count) == resolve_arguments(args, names, failed),
    decreases count,
{
    if failed < count {
        lemma_argument_failure_stays(args, names, failed, (count - 1) as nat);
    }
}

/// Once a block item has failed, the items as a whole fail the same way.
pub proof fn lemma_item_failure_stays(
    items: Seq<SpecBlockItem>,
    scope: Scope,
    failed: nat,
    count: nat,
)
    requires
        failed <= count <= items.len(),
        resolve_items(items, scope, failed) is Err,
    ensures
        resolve_items(items, scope, count) == resolve_items(items, scope, failed),
    decreases count,
{
    if failed < count {
        lemma_item_failure_stays(items, scope, failed, (count - 1) as nat);
    }
}

/// Once a function has failed, the functions as a whole fail the same way.
pub proof fn lemma_function_failure_stays(
    functions: Seq<SpecFunctionDefinition>,
    names: Map<Seq<char>, SpecType>,
    failed: nat,
    count: nat,
)
    requires
        failed <= count <= functions.len(),
        resolve_functions(functions, names, failed) is Err,
    ensures
        resolve_functions(functions, names, count) == resolve_functions(functions, names, failed),
    decreases count,
{
    if failed < count {
        lemma_function_failure_stays(functions, names, failed, (count - 1) as nat);
    }
}

/// Once a function has failed its announcement, the announcements as a whole
/// fail the same way.
pub proof fn lemma_announcement_failure_stays(
    functions: Seq<SpecFunctionDefinition>,
    names: Map<Seq<char>, SpecType>,
    failed: nat,
    count: nat,
)
    requires
        failed <= count <= functions.len(),
        announce_functions(functions, names, failed) is Err,
    ensures
        announce_functions(functions, names, count) == announce_functions(
            functions,
            names,
            failed,
        ),
    decreases count,
{
    if failed < count {
        lemma_announcement_failure_stays(functions, names, failed, (count - 1) as nat);
    }
}

/// The resolver: the one namespace of the whole program, and the number of
/// variables that the function being resolved has bound, as far as 32 bits
/// count.
pub struct Analyzer {
    pub var_map: StringHashMap<VarMapEntry>,
    pub variables_this_function: u32,
}

impl Analyzer {
    /// The bound names with their types.
    pub open spec fn names(&self) -> Map<Seq<char>, SpecType> {
        Map::new(
            |name: Seq<char>| self.var_map@.contains_key(name),
            |name: Seq<char>| self.var_map@[name].ty@,
        )
    }

    /// Whether this resolver stands in the scope `scope`.
    pub open spec fn stands_in(&self, scope: Scope) -> bool {
        self.names() == scope.names && self.variables_this_function == reported(scope.count)
    }

    /// A resolver with no name bound.
    pub fn new() -> (r: Self)
        ensures
            r.names() == Map::<Seq<char>, SpecType>::empty(),
            r.variables_this_function == 0,
    {
        let r = Self { var_map: StringHashMap::new(), variables_this_function: 0 };
        assert(r.names() =~= Map::<Seq<char>, SpecType>::empty());
        r
    }

    /// Binds `name` to `ty`, whatever it was bound to.
    fn bind(&mut self, name: String, ty: Type)
        ensures
            final(self).names() == old(self).names().insert(name@, ty@),
            final(self).variables_this_function == old(self).variables_this_function,
    {
        self.var_map.insert(name, VarMapEntry { ty });
        assert(self.names() =~= old(self).names().insert(name@, ty@));
    }

    /// Counts one more variable of the function being resolved.
    fn count(&mut self, Ghost(count): Ghost<nat>)
        requires
            old(self).variables_this_function == reported(count),
        ensures
            final(self).var_map == old(self).var_map,
            final(self).variables_this_function == reported(count + 1),
    {
        if self.variables_this_function < u32::MAX {
            self.variables_this_function += 1;
        }
    }

    /// Resolves an expression.
    #[verifier::loop_isolation(false)]
    #[verifier::rlimit(100)]
    pub fn analyze_expression(&self, expression: &Expression) -> (r: Result<(), Error>)
        ensures
            match r {
                Ok(_) => resolve_expression(expression@, self.names().dom()) == Ok::<
                    (),
                    SpecError,
                >(()),
                Err(e) => resolve_expression(expression@, self.names().dom()) == Err::<
                    (),
                    SpecError,
                >(e@),
            },
        decreases expression,
    {
        let line = expression.line_started;
        match &expression.kind {
            ExpressionKind::Number(_) => Ok(()),
            ExpressionKind::Binary(_, left, right) => {
                match self.analyze_expression(left) {
                    Ok(_) => {},
                    Err(e) => { return Err(e); },
                }
                self.analyze_expression(right)
            },
            ExpressionKind::Variable(name) => {
                if !self.var_map.contains_key(name.as_str()) {
                    return Err(Error::new(ErrorKind::VariableNotDeclared(name.clone()), line));
                }
                Ok(())
            },
            ExpressionKind::Assign(left, right) => {
                match self.analyze_expression(left) {
                    Ok(_) => {},
                    Err(e) => { return Err(e); },
                }
                match self.analyze_expression(right) {
                    Ok(_) => {},
                    Err(e) => { return Err(e); },
                }
                assert(left@.kind == left.kind.model());
                match &left.kind {
                    ExpressionKind::Variable(_) => Ok(()),
                    _ => Err(Error::new(ErrorKind::InvalidAssignmentTarget, line)),
                }
            },
            ExpressionKind::IsZero(inner) => self.analyze_expression(inner),
            ExpressionKind::FunctionCall(name, args) => {
                if !self.var_map.contains_key(name.as_str()) {
                    return Err(Error::new(ErrorKind::VariableNotDeclared(name.clone()), line));
                }
                let ghost given = expression_models(args@);
                let mut i: usize = 0;
                while i < args.len()
                    invariant
                        i <= args.len(),
                        resolve_arguments(given, self.names().dom(), i as nat) == Ok::<
                            (),
                            SpecError,
                        >(()),
                    decreases args.len() - i,
                {
                    match self.analyze_expression(&args[i]) {
                        Ok(_) => {},
                        Err(e) => {
                            proof {
                                lemma_argument_failure_stays(
                                    given,
                                    self.names().dom(),
                                    (i + 1) as nat,
                                    given.len(),
                                );
                            }
                            return Err(e);
                        },
                    }
                    i += 1;
                }
                Ok(())
            },
            ExpressionKind::AddressOf(inner) => self.analyze_expression(inner),
            ExpressionKind::Dereference(inner) => self.analyze_expression(inner),
            ExpressionKind::Subscript(base, index) => {
                match self.analyze_expression(base) {
                    Ok(_) => {},
                    Err(e) => { return Err(e); },
                }
                self.analyze_expression(index)
            },
        }
    }

    /// Resolves a declaration and binds the name it declares.
    pub fn analyze_declaration(&mut self, declaration: &Declaration, Ghost(scope): Ghost<Scope>) -> (r:
        Result<(), Error>)
        requires
            old(self).stands_in(scope),
        ensures
            match r {
                Ok(_) => resolve_declaration(declaration@, scope) matches Ok(after)
                    && final(self).stands_in(after),
                Err(e) => resolve_declaration(declaration@, scope) == Err::<Scope, SpecError>(e@)
                    && final(self).names() == old(self).names()
                    && final(self).variables_this_function == old(self).variables_this_function,
            },
            old(self).names().dom().subset_of(final(self).names().dom()),
    {
        if self.var_map.contains_key(declaration.name.as_str()) {
            return Err(
                Error::new(
                    ErrorKind::VariableAlreadyDeclared(declaration.name.clone()),
                    declaration.line_started,
                ),
            );
        }
        if declaration.name.as_str().unicode_len() < SHORTEST_VARIABLE_NAME {
            return Err(
                Error::new(
                    ErrorKind::ShortVarName(declaration.name.clone()),
                    declaration.line_started,
                ),
            );
        }
        match self.analyze_expression(&declaration.value) {
            Ok(_) => {},
            Err(e) => { return Err(e); },
        }
        self.bind(declaration.name.clone(), declaration.ty.clone());
        self.count(Ghost(scope.count));
        Ok(())
    }

    /// Resolves the items of a block in order.
    #[verifier::loop_isolation(false)]
    #[verifier::rlimit(100)]
    pub fn analyze_block(&mut self, block: &Block, Ghost(scope): Ghost<Scope>) -> (r: Result<(), Error>)
        requires
            old(self).stands_in(scope),
        ensures
            match r {
                Ok(_) => resolve_block(block@, scope) matches Ok(after) && final(self).stands_in(
                    after,
                ),
                Err(e) => resolve_block(block@, scope) == Err::<Scope, SpecError>(e@),
            },
            old(self).names().dom().subset_of(final(self).names().dom()),
        decreases block,
    {
        let ghost given = item_models(block.items@);
        let mut i: usize = 0;
        while i < block.items.len()
            invariant
                i <= block.items.len(),
                old(self).names().dom().subset_of(self.names().dom()),
                resolve_items(given, scope, i as nat) matches Ok(here) && self.stands_in(here),
            decreases block.items.len() - i,
        {
            let ghost here = resolve_items(given, scope, i as nat)->Ok_0;
            assert(given[i as int] == block.items@[i as int]@);
            let outcome = match &block.items[i] {
                BlockItem::Statement(statement) => self.analyze_statement(statement, Ghost(here)),
                BlockItem::Declaration(declaration) => self.analyze_declaration(
                    declaration,
                    Ghost(here),
                ),
            };
            match outcome {
                Ok(_) => {},
                Err(e) => {
                    proof {
                        lemma_item_failure_stays(given, scope, (i + 1) as nat, given.len());
                    }
                    return Err(e);
                },
            }
            i += 1;
        }
        Ok(())
    }

    /// Resolves a statement.
    pub fn analyze_statement(&mut self, statement: &Statement, Ghost(scope): Ghost<Scope>) -> (r: Result<
        (),
        Error,
    >)
        requires
            old(self).stands_in(scope),
        ensures
            match r {
                Ok(_) => resolve_statement(statement@, scope) matches Ok(after) && final(self).stands_in(after),
                Err(e) => resolve_statement(statement@, scope) == Err::<Scope, SpecError>(e@),
            },
            old(self).names().dom().subset_of(final(self).names().dom()),
        decreases statement,
    {
        match &statement.kind {
            StatementKind::Return(expression) => self.analyze_expression(expression),
            StatementKind::Block(block) => self.analyze_block(block, Ghost(scope)),
            StatementKind::Expression(expression) => self.analyze_expression(expression),
            StatementKind::If(condition, block, else_block) => {
                match self.analyze_expression(condition) {
                    Ok(_) => {},
                    Err(e) => { return Err(e); },
                }
                match self.analyze_statement(block, Ghost(scope)) {
                    Ok(_) => {},
                    Err(e) => { return Err(e); },
                }
                let ghost after = resolve_statement(block@, scope)->Ok_0;
                match else_block {
                    Some(block) => self.analyze_statement(block, Ghost(after)),
                    None => Ok(()),
                }
            },
            StatementKind::While(condition, block) => {
                match self.analyze_expression(condition) {
                    Ok(_) => {},
                    Err(e) => { return Err(e); },
                }
                self.analyze_statement(block, Ghost(scope))
            },
        }
    }

    /// Announces `function`: binds its name to its signature and holds the
    /// name to its longest length.
    pub fn preanalyze_function(&mut self, function: &FunctionDefinition) -> (r: Result<(), Error>)
        ensures
            match r {
                Ok(_) => function@.name.len() <= LONGEST_FUNCTION_NAME && final(self).names()
                    == old(self).names().insert(
                    function@.name,
                    signature(function@.params, function@.return_type),
                ),
                Err(e) => function@.name.len() > LONGEST_FUNCTION_NAME && e@ == fail(
                    SpecErrorKind::LongFuncName(function@.name),
                    function@.line_started,
                ),
            },
            old(self).names().dom().subset_of(final(self).names().dom()),
    {
        self.bind(function.name.clone(), signature_of(&function.params, &function.return_type));
        if function.name.as_str().unicode_len() > LONGEST_FUNCTION_NAME {
            return Err(
                Error::new(ErrorKind::LongFuncName(function.name.clone()), function.line_started),
            );
        }
        Ok(())
    }

    /// Resolves a function: binds its parameters, resolves its body, and
    /// holds the number of its variables to its bounds.
    #[verifier::loop_isolation(false)]
    #[verifier::rlimit(100)]
    pub fn analyze_function(&mut self, function: &FunctionDefinition) -> (r: Result<(), Error>)
        ensures
            match r {
                Ok(_) => resolve_function(function@, old(self).names()) == Ok::<
                    Map<Seq<char>, SpecType>,
                    SpecError,
                >(final(self).names()),
                Err(e) => resolve_function(function@, old(self).names()) == Err::<
                    Map<Seq<char>, SpecType>,
                    SpecError,
                >(e@),
            },
            old(self).names().dom().subset_of(final(self).names().dom()),
    {
        self.variables_this_function = 0;
        let mut i: usize = 0;
        while i < function.params.len()
            invariant
                i <= function.params.len(),
                old(self).names().dom().subset_of(self.names().dom()),
                self.names() == bind_params(old(self).names(), function@.params, i as nat),
                self.variables_this_function == reported(i as nat),
            decreases function.params.len() - i,
        {
            let name = function.params[i].0.clone();
            let ty = function.params[i].1.clone();
            self.bind(name, ty);
            self.count(Ghost(i as nat));
            i += 1;
        }
        let ghost entered = Scope { names: self.names(), count: function@.params.len() };
        match &function.body {
            Some(body) => {
                match self.analyze_block(body, Ghost(entered)) {
                    Ok(_) => {},
                    Err(e) => { return Err(e); },
                }
            },
            None => {},
        }
        if self.variables_this_function == 1 {
            return Err(Error::new(ErrorKind::LonelyVariable, function.line_started));
        }
        if self.variables_this_function >= PACKED {
            return Err(
                Error::new(
                    ErrorKind::PackedFunc(self.variables_this_function),
                    function.line_started,
                ),
            );
        }
        Ok(())
    }

    /// Resolves `program`: holds it to the rules on names and on the number
    /// of variables, and returns it as it is.
    ///
    /// All functions are announced before any is resolved. The names bound
    /// after a resolution that passed are those of the functions, parameters
    /// and declared variables of the whole program. Whether resolution
    /// passes or fails, no name that was bound is dropped.
    #[verifier::loop_isolation(false)]
    #[verifier::rlimit(100)]
    pub fn analyze_program(&mut self, program: Program) -> (r: Result<Program, Error>)
        ensures
            match r {
                Ok(resolved) => resolved == program && resolve_program(
                    program@,
                    old(self).names(),
                ) == Ok::<Map<Seq<char>, SpecType>, SpecError>(final(self).names()),
                Err(e) => resolve_program(program@, old(self).names()) == Err::<
                    Map<Seq<char>, SpecType>,
                    SpecError,
                >(e@),
            },
            old(self).names().dom().subset_of(final(self).names().dom()),
    {
        let ghost given = function_models(program.functions@);
        let ghost start = self.names();
        let mut i: usize = 0;
        while i < program.functions.len()
            invariant
                i <= program.functions.len(),
                start.dom().subset_of(self.names().dom()),
                announce_functions(given, start, i as nat) == Ok::<
                    Map<Seq<char>, SpecType>,
                    SpecError,
                >(self.names()),
            decreases program.functions.len() - i,
        {
            match self.preanalyze_function(&program.functions[i]) {
                Ok(_) => {},
                Err(e) => {
                    proof {
                        lemma_announcement_failure_stays(
                            given,
                            start,
                            (i + 1) as nat,
                            given.len(),
                        );
                    }
                    return Err(e);
                },
            }
            i += 1;
        }
        let ghost announced = self.names();
        let mut i: usize = 0;
        while i < program.functions.len()
            invariant
                i <= program.functions.len(),
                start.dom().subset_of(self.names().dom()),
                resolve_functions(given, announced, i as nat) == Ok::<
                    Map<Seq<char>, SpecType>,
                    SpecError,
                >(self.names()),
            decreases program.functions.len() - i,
        {
            match self.analyze_function(&program.functions[i]) {
                Ok(_) => {},
                Err(e) => {
                    proof {
                        lemma_function_failure_stays(
                            given,
                            announced,
                            (i + 1) as nat,
                            given.len(),
                        );
                    }
                    return Err(e);
                },
            }
            i += 1;
        }
        Ok(program)
    }
}


/// Every function of a program may have a name of at most four characters:
/// if any has a longer one, resolution fails for the first that has, with
/// the error `LongFuncName` of that name on the line of that function.
pub proof fn lemma_long_function_name(
    program: SpecProgram,
    names: Map<Seq<char>, SpecType>,
    first: int,
)
    requires
        0 <= first < program.functions.len(),
        program.functions[first].name.len() >= 5,
        forall|i: int| 0 <= i < first ==> (#[trigger] program.functions[i]).name.len() <= 4,
    ensures
        resolve_program(program, names) == Err::<Map<Seq<char>, SpecType>, SpecError>(
            fail(
                SpecErrorKind::LongFuncName(program.functions[first].name),
                program.functions[first].line_started,
            ),
        ),
{
    lemma_short_function_names(program.functions, names, first as nat);
    lemma_announcement_failure_stays(
        program.functions,
        names,
        (first + 1) as nat,
        program.functions.len(),
    );
}

/// Functions whose names all have at most four characters are announced
/// without an error.
pub proof fn lemma_short_function_names(
    functions: Seq<SpecFunctionDefinition>,
    names: Map<Seq<char>, SpecType>,
    count: nat,
)
    requires
        count <= functions.len(),
        forall|i: int| 0 <= i < count ==> (#[trigger] functions[i]).name.len() <= 4,
    ensures
        announce_functions(functions, names, count) is Ok,
    decreases count,
{
    if count > 0 {
        lemma_short_function_names(functions, names, (count - 1) as nat);
    }
}

/// The rules on a declared name. A name that is bound already, anywhere in
/// the program, fails with `VariableAlreadyDeclared`. A new name of fewer
/// than seven characters fails with `ShortVarName`. A new name of seven
/// characters or more passes both rules: the declaration then fails only if
/// its value does, and otherwise binds the name and counts it.
pub proof fn lemma_declared_name(declaration: SpecDeclaration, scope: Scope)
    ensures
        scope.names.contains_key(declaration.name) ==> resolve_declaration(declaration, scope)
            == Err::<Scope, SpecError>(
            fail(
                SpecErrorKind::VariableAlreadyDeclared(declaration.name),
                declaration.line_started,
            ),
        ),
        !scope.names.contains_key(declaration.name) && declaration.name.len() < 7
            ==> resolve_declaration(declaration, scope) == Err::<Scope, SpecError>(
            fail(SpecErrorKind::ShortVarName(declaration.name), declaration.line_started),
        ),
        !scope.names.contains_key(declaration.name) && declaration.name.len() >= 7
            ==> resolve_declaration(declaration, scope) == match resolve_expression(
            declaration.value,
            scope.names.dom(),
        ) {
            Err(e) => Err::<Scope, SpecError>(e),
            Ok(_) => Ok(
                Scope {
                    names: scope.names.insert(declaration.name, declaration.ty),
                    count: scope.count + 1,
                },
            ),
        },
{
}

/// A name that is not bound cannot be used: a variable of that name, an
/// assignment to a variable of that name, and a call of a function of that
/// name each fail with `VariableNotDeclared` of the name.
pub proof fn lemma_unbound_name(
    name: Seq<char>,
    line: nat,
    ty: SpecType,
    value: SpecExpression,
    args: Seq<SpecExpression>,
    names: Set<Seq<char>>,
)
    requires
        !names.contains(name),
    ensures
        ({
            let variable = SpecExpression {
                kind: SpecExpressionKind::Variable(name),
                line_started: line,
                ty,
            };
            let assignment = SpecExpression {
                kind: SpecExpressionKind::Assign(Box::new(variable), Box::new(value)),
                line_started: line,
                ty,
            };
            let call = SpecExpression {
                kind: SpecExpressionKind::FunctionCall(name, args),
                line_started: line,
                ty,
            };
            let error = fail(SpecErrorKind::VariableNotDeclared(name), line);
            &&& resolve_expression(variable, names) == Err::<(), SpecError>(error)
            &&& resolve_expression(assignment, names) == Err::<(), SpecError>(error)
            &&& resolve_expression(call, names) == Err::<(), SpecError>(error)
        }),
{
}

/// The number of variables that a statement declares, in itself and in the
/// statements inside it.
pub open spec fn declared_in_statement(statement: SpecStatement) -> nat
    decreases statement, 0nat,
{
    match statement.kind {
        SpecStatementKind::Return(_) => 0,
        SpecStatementKind::Expression(_) => 0,
        SpecStatementKind::Block(block) => declared_in_items(block.items, block.items.len()),
        SpecStatementKind::If(_, then_branch, else_branch) => declared_in_statement(*then_branch)
            + match else_branch {
            None => 0,
            Some(branch) => declared_in_statement(*branch),
        },
        SpecStatementKind::While(_, body) => declared_in_statement(*body),
    }
}

/// The number of variables that the first `count` of `items` declare.
pub open spec fn declared_in_items(items: Seq<SpecBlockItem>, count: nat) -> nat
    decreases items, count,
{
    if count == 0 || count > items.len() {
        0
    } else {
        declared_in_items(items, (count - 1) as nat) + match items[count - 1] {
            SpecBlockItem::Statement(statement) => declared_in_statement(statement),
            SpecBlockItem::Declaration(_) => 1,
        }
    }
}

/// The number of variables of a function: its parameters and the variables
/// that its body declares.
pub open spec fn variables_of(function: SpecFunctionDefinition) -> nat {
    function.params.len() + match function.body {
        None => 0,
        Some(body) => declared_in_items(body.items, body.items.len()),
    }
}

/// A statement that resolves counts the variables it declares, and leaves
/// bound what was bound.
pub proof fn lemma_statement_counts(statement: SpecStatement, scope: Scope)
    ensures
        resolve_statement(statement, scope) matches Ok(after) ==> (after.count == scope.count
            + declared_in_statement(statement) && scope.names.dom().subset_of(
            after.names.dom(),
        )),
    decreases statement, 0nat,
{
    match statement.kind {
        SpecStatementKind::Return(_) => {},
        SpecStatementKind::Expression(_) => {},
        SpecStatementKind::Block(block) => {
            lemma_items_count(block.items, scope, block.items.len());
            assert(resolve_statement(statement, scope) == resolve_block(block, scope));
        },
        SpecStatementKind::If(_, then_branch, else_branch) => {
            lemma_statement_counts(*then_branch, scope);
            if let Ok(after) = resolve_statement(*then_branch, scope) {
                if let Some(branch) = else_branch {
                    lemma_statement_counts(*branch, after);
                }
            }
        },
        SpecStatementKind::While(_, body) => {
            lemma_statement_counts(*body, scope);
        },
    }
}

/// Block items that resolve count the variables they declare, and leave
/// bound what was bound.
pub proof fn lemma_items_count(items: Seq<SpecBlockItem>, scope: Scope, count: nat)
    ensures
        resolve_items(items, scope, count) matches Ok(after) ==> (after.count == scope.count
            + declared_in_items(items, count) && scope.names.dom().subset_of(after.names.dom())),
    decreases items, count,
{
    if !(count == 0 || count > items.len()) {
        lemma_items_count(items, scope, (count - 1) as nat);
        if let Ok(before) = resolve_items(items, scope, (count - 1) as nat) {
            match items[count - 1] {
                SpecBlockItem::Statement(statement) => {
                    lemma_statement_counts(statement, before);
                },
                SpecBlockItem::Declaration(_) => {},
            }
        }
    }
}

/// The rule on the number of variables of a function whose body resolves:
/// with exactly one variable, parameters and declared variables together,
/// it fails with `LonelyVariable`; with ten or more it fails with
/// `PackedFunc` of their number; with none, or with two to nine, it passes.
pub proof fn lemma_variable_count(function: SpecFunctionDefinition, names: Map<Seq<char>, SpecType>)
    requires
        function.body matches Some(body) ==> resolve_block(
            body,
            Scope {
                names: bind_params(names, function.params, function.params.len()),
                count: function.params.len(),
            },
        ) is Ok,
    ensures
        variables_of(function) == 1 ==> resolve_function(function, names) == Err::<
            Map<Seq<char>, SpecType>,
            SpecError,
        >(fail(SpecErrorKind::LonelyVariable, function.line_started)),
        variables_of(function) >= 10 ==> resolve_function(function, names) == Err::<
            Map<Seq<char>, SpecType>,
            SpecError,
        >(
            fail(
                SpecErrorKind::PackedFunc(reported(variables_of(function))),
                function.line_started,
            ),
        ),
        variables_of(function) == 0 || 2 <= variables_of(function) < 10 ==> resolve_function(
            function,
            names,
        ) is Ok,
{
    let entered = Scope {
        names: bind_params(names, function.params, function.params.len()),
        count: function.params.len(),
    };
    if let Some(body) = function.body {
        lemma_items_count(body.items, entered, body.items.len());
    }
}


/// Binding parameters leaves bound what was bound.
pub proof fn lemma_params_keep_names(
    names: Map<Seq<char>, SpecType>,
    params: Seq<(Seq<char>, SpecType)>,
    count: nat,
)
    ensures
        names.dom().subset_of(bind_params(names, params, count).dom()),
    decreases count,
{
    if !(count == 0 || count > params.len()) {
        lemma_params_keep_names(names, params, (count - 1) as nat);
    }
}

/// The namespace is one for the whole program and only grows: what is bound
/// before functions are resolved is bound after them, so that a name bound
/// in one function is bound in every function after it.
pub proof fn lemma_names_stay_bound(
    functions: Seq<SpecFunctionDefinition>,
    names: Map<Seq<char>, SpecType>,
    count: nat,
)
    ensures
        resolve_functions(functions, names, count) matches Ok(after) ==> names.dom().subset_of(
            after.dom(),
        ),
    decreases count,
{
    if !(count == 0 || count > functions.len()) {
        lemma_names_stay_bound(functions, names, (count - 1) as nat);
        if let Ok(before) = resolve_functions(functions, names, (count - 1) as nat) {
            let function = functions[count - 1];
            let entered = Scope {
                names: bind_params(before, function.params, function.params.len()),
                count: function.params.len(),
            };
            lemma_params_keep_names(before, function.params, function.params.len());
            if let Some(body) = function.body {
                lemma_items_count(body.items, entered, body.items.len());
            }
        }
    }
}

/// The namespace is flat: a declaration fails with `VariableAlreadyDeclared`
/// if its name was bound when its block was entered, which is so for every
/// name bound earlier in the program, or has been bound by the items before
/// it in the block, in whatever blocks inside them.
pub proof fn lemma_redeclaration(
    items: Seq<SpecBlockItem>,
    scope: Scope,
    place: nat,
    count: nat,
)
    requires
        place < count <= items.len(),
        resolve_items(items, scope, place) is Ok,
        items[place as int] is Declaration,
        scope.names.contains_key(items[place as int]->Declaration_0.name) || resolve_items(
            items,
            scope,
            place,
        )->Ok_0.names.contains_key(items[place as int]->Declaration_0.name),
    ensures
        resolve_items(items, scope, count) == Err::<Scope, SpecError>(
            fail(
                SpecErrorKind::VariableAlreadyDeclared(items[place as int]->Declaration_0.name),
                items[place as int]->Declaration_0.line_started,
            ),
        ),
{
    lemma_items_count(items, scope, place);
    let name = items[place as int]->Declaration_0.name;
    assert(resolve_items(items, scope, place)->Ok_0.names.dom().contains(name));
    lemma_item_failure_stays(items, scope, place + 1, count);
}

} // verus!
