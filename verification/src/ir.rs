pub mod definition;

use crate::decimal::{decimal, lemma_decimal_injective, Counter};
use crate::errors::{fail, Error, ErrorKind, SpecError, SpecErrorKind};
use crate::ir::definition::{
    function_models, instruction_models, val_models, Binop, Function, Instruction, Program,
    SpecFunction, SpecInstruction, SpecProgram, SpecVal, Val,
};
use crate::parser::nodes;
use crate::parser::nodes::{
    expression_models, item_models, SpecBlock, SpecBlockItem, SpecDeclaration, SpecExpression,
    SpecExpressionKind, SpecFunctionDefinition, SpecStatement, SpecStatementKind, SpecType, Type,
};
use crate::semantic_analysis::typecheck::{STEntry, SymbolTable};
use vstd::prelude::*;
use vstd::string::StringExecFns;

verus! {

/// The name of the temporary or label number `n`.
pub open spec fn temp_name(n: nat) -> Seq<char> {
    ".tmp."@ + decimal(n)
}

/// The IR operation that the source operator `op` lowers to.
pub open spec fn lowered_op(op: nodes::Binop) -> Binop {
    match op {
        nodes::Binop::Add => Binop::Add,
        nodes::Binop::Sub => Binop::Sub,
        nodes::Binop::Mul => Binop::Mul,
        nodes::Binop::Div => Binop::Div,
        nodes::Binop::Mod => Binop::Mod,
    }
}

/// Where a lowering stands: the instructions emitted so far, the number of
/// the next temporary or label, and the symbol table.
pub struct Lowering {
    pub code: Seq<SpecInstruction>,
    pub next: nat,
    pub table: Map<Seq<char>, SpecType>,
}

impl Lowering {
    /// This state after `instruction` was emitted.
    pub open spec fn emit(self, instruction: SpecInstruction) -> Lowering {
        Lowering { code: self.code.push(instruction), next: self.next, table: self.table }
    }

    /// The name of a fresh label.
    pub open spec fn label(self) -> Seq<char> {
        temp_name(self.next)
    }

    /// This state after a fresh label was taken.
    pub open spec fn labelled(self) -> Lowering {
        Lowering { code: self.code, next: self.next + 1, table: self.table }
    }

    /// A fresh temporary.
    pub open spec fn temporary(self) -> SpecVal {
        SpecVal::Var(temp_name(self.next))
    }

    /// This state after a fresh temporary of type `ty` was taken and entered
    /// in the table.
    pub open spec fn typed(self, ty: SpecType) -> Lowering {
        Lowering {
            code: self.code,
            next: self.next + 1,
            table: self.table.insert(temp_name(self.next), ty),
        }
    }
}

/// Lowering of an expression from the state `at`: the operand that holds its
/// value and the state after, or the reason the expression cannot be lowered.
///
/// Every temporary is entered in the table with the type that the expression
/// producing it carries. The right side of an assignment is lowered before
/// its target. A target that is no variable, dereference or subscript is
/// an invalid assignment target.
pub open spec fn lower_expression(expression: SpecExpression, at: Lowering) -> Result<
    (SpecVal, Lowering),
    SpecError,
>
    decreases expression, 0nat,
{
    match expression.kind {
        SpecExpressionKind::Number(n) => Ok((SpecVal::Number(n), at)),
        SpecExpressionKind::Variable(name) => Ok((SpecVal::Var(name), at)),
        SpecExpressionKind::Binary(op, left, right) => match lower_expression(*left, at) {
            Err(e) => Err(e),
            Ok((l, s1)) => match lower_expression(*right, s1) {
                Err(e) => Err(e),
                Ok((r, s2)) => Ok(
                    (
                        s2.temporary(),
                        s2.typed(expression.ty).emit(
                            SpecInstruction::Binary {
                                op: lowered_op(op),
                                src1: l,
                                src2: r,
                                dst: s2.temporary(),
                            },
                        ),
                    ),
                ),
            },
        },
        SpecExpressionKind::Assign(target, value) => match lower_expression(*value, at) {
            Err(e) => Err(e),
            Ok((v, s1)) => match target.kind {
                SpecExpressionKind::Variable(name) => Ok(
                    (
                        SpecVal::Var(name),
                        s1.emit(SpecInstruction::Copy { src: v, dst: SpecVal::Var(name) }),
                    ),
                ),
                SpecExpressionKind::Dereference(pointer) => match lower_expression(*pointer, s1) {
                    Err(e) => Err(e),
                    Ok((address, s2)) => Ok((address, s2.emit(SpecInstruction::Store(v, address)))),
                },
                SpecExpressionKind::Subscript(base, index) => match lower_expression(*base, s1) {
                    Err(e) => Err(e),
                    Ok((b, s2)) => match lower_expression(*index, s2) {
                        Err(e) => Err(e),
                        Ok((i, s3)) => Ok(
                            (
                                s3.temporary(),
                                s3.typed(SpecType::Pointer(Box::new(target.ty))).emit(
                                    SpecInstruction::AddPtr {
                                        ptr: b,
                                        index: i,
                                        dst: s3.temporary(),
                                    },
                                ).emit(SpecInstruction::Store(v, s3.temporary())),
                            ),
                        ),
                    },
                },
                _ => Err(fail(SpecErrorKind::InvalidAssignmentTarget, expression.line_started)),
            },
        },
        SpecExpressionKind::IsZero(inner) => match lower_expression(*inner, at) {
            Err(e) => Err(e),
            Ok((v, s1)) => Ok(
                (
                    s1.temporary(),
                    s1.typed(expression.ty).emit(
                        SpecInstruction::Binary {
                            op: Binop::Equal,
                            src1: v,
                            src2: SpecVal::Number(0),
                            dst: s1.temporary(),
                        },
                    ),
                ),
            ),
        },
        SpecExpressionKind::FunctionCall(name, args) => match lower_arguments(
            args,
            at,
            args.len(),
        ) {
            Err(e) => Err(e),
            Ok((vals, s1)) => Ok(
                (
                    s1.temporary(),
                    s1.typed(expression.ty).emit(
                        SpecInstruction::FunctionCall(name, vals, s1.temporary()),
                    ),
                ),
            ),
        },
        SpecExpressionKind::AddressOf(inner) => match lower_expression(*inner, at) {
            Err(e) => Err(e),
            Ok((v, s1)) => Ok(
                (
                    s1.temporary(),
                    s1.typed(expression.ty).emit(SpecInstruction::GetAddress(v, s1.temporary())),
                ),
            ),
        },
        SpecExpressionKind::Dereference(inner) => match lower_expression(*inner, at) {
            Err(e) => Err(e),
            Ok((v, s1)) => Ok(
                (
                    s1.temporary(),
                    s1.typed(expression.ty).emit(SpecInstruction::Load(v, s1.temporary())),
                ),
            ),
        },
        SpecExpressionKind::Subscript(base, index) => match lower_expression(*base, at) {
            Err(e) => Err(e),
            Ok((b, s1)) => match lower_expression(*index, s1) {
                Err(e) => Err(e),
                Ok((i, s2)) => {
                    let s3 = s2.typed(SpecType::Pointer(Box::new(expression.ty))).emit(
                        SpecInstruction::AddPtr { ptr: b, index: i, dst: s2.temporary() },
                    );
                    Ok(
                        (
                            s3.temporary(),
                            s3.typed(expression.ty).emit(
                                SpecInstruction::Load(s2.temporary(), s3.temporary()),
                            ),
                        ),
                    )
                },
            },
        },
    }
}

/// Lowering of the first `count` of `args`, left to right: their operands
/// and the state after.
pub open spec fn lower_arguments(args: Seq<SpecExpression>, at: Lowering, count: nat) -> Result<
    (Seq<SpecVal>, Lowering),
    SpecError,
>
    decreases args, count,
{
    if count == 0 || count > args.len() {
        Ok((Seq::empty(), at))
    } else {
        match lower_arguments(args, at, (count - 1) as nat) {
            Err(e) => Err(e),
            Ok((vals, s1)) => match lower_expression(args[count - 1], s1) {
                Err(e) => Err(e),
                Ok((v, s2)) => Ok((vals.push(v), s2)),
            },
        }
    }
}

/// Lowering of a declaration: its value is lowered and copied into the
/// declared variable itself.
pub open spec fn lower_declaration(declaration: SpecDeclaration, at: Lowering) -> Result<
    Lowering,
    SpecError,
> {
    match lower_expression(declaration.value, at) {
        Err(e) => Err(e),
        Ok((v, s1)) => Ok(
            s1.emit(SpecInstruction::Copy { src: v, dst: SpecVal::Var(declaration.name) }),
        ),
    }
}

/// Lowering of a statement from the state `at`: the state after.
///
/// A conditional jumps to a fresh label when its condition is zero. Without
/// an alternative that label stands after the first branch. With one, the
/// first branch ends in a jump to a second fresh label, the first label
/// starts the alternative, and the second label stands after it. A loop
/// starts with a fresh label, evaluates its condition there, leaves for a
/// second fresh label when the condition is zero, and jumps back to the first
/// label after its body.
pub open spec fn lower_statement(statement: SpecStatement, at: Lowering) -> Result<
    Lowering,
    SpecError,
>
    decreases statement, 0nat,
{
    match statement.kind {
        SpecStatementKind::Return(value) => match lower_expression(value, at) {
            Err(e) => Err(e),
            Ok((v, s1)) => Ok(s1.emit(SpecInstruction::Return(v))),
        },
        SpecStatementKind::Block(block) => lower_block(block, at),
        SpecStatementKind::Expression(value) => match lower_expression(value, at) {
            Err(e) => Err(e),
            Ok((_, s1)) => Ok(s1),
        },
        SpecStatementKind::If(condition, then_branch, else_branch) => match lower_expression(
            condition,
            at,
        ) {
            Err(e) => Err(e),
            Ok((c, s1)) => {
                let skip = s1.label();
                match lower_statement(
                    *then_branch,
                    s1.labelled().emit(SpecInstruction::JumpIfZero(c, skip)),
                ) {
                    Err(e) => Err(e),
                    Ok(s2) => match else_branch {
                        None => Ok(s2.emit(SpecInstruction::Label(skip))),
                        Some(branch) => {
                            let end = s2.label();
                            match lower_statement(
                                *branch,
                                s2.labelled().emit(SpecInstruction::Jump(end)).emit(
                                    SpecInstruction::Label(skip),
                                ),
                            ) {
                                Err(e) => Err(e),
                                Ok(s3) => Ok(s3.emit(SpecInstruction::Label(end))),
                            }
                        },
                    },
                }
            },
        },
        SpecStatementKind::While(condition, body) => {
            let top = at.label();
            let end = at.labelled().label();
            match lower_expression(
                condition,
                at.labelled().labelled().emit(SpecInstruction::Label(top)),
            ) {
                Err(e) => Err(e),
                Ok((c, s1)) => match lower_statement(
                    *body,
                    s1.emit(SpecInstruction::JumpIfZero(c, end)),
                ) {
                    Err(e) => Err(e),
                    Ok(s2) => Ok(
                        s2.emit(SpecInstruction::Jump(top)).emit(SpecInstruction::Label(end)),
                    ),
                },
            }
        },
    }
}

/// Lowering of a block: of its items in order.
pub open spec fn lower_block(block: SpecBlock, at: Lowering) -> Result<Lowering, SpecError>
    decreases block, 0nat,
{
    lower_items(block.items, at, block.items.len())
}

/// Lowering of the first `count` of `items`, in order.
pub open spec fn lower_items(items: Seq<SpecBlockItem>, at: Lowering, count: nat) -> Result<
    Lowering,
    SpecError,
>
    decreases items, count,
{
    if count == 0 || count > items.len() {
        Ok(at)
    } else {
        match lower_items(items, at, (count - 1) as nat) {
            Err(e) => Err(e),
            Ok(s1) => match items[count - 1] {
                SpecBlockItem::Statement(statement) => lower_statement(statement, s1),
                SpecBlockItem::Declaration(declaration) => lower_declaration(declaration, s1),
            },
        }
    }
}

/// The state that the lowering of a function starts in: no instructions yet.
pub open spec fn fresh(at: Lowering) -> Lowering {
    Lowering { code: Seq::empty(), next: at.next, table: at.table }
}

/// Lowering of a function with a body: the lowered function and the state
/// after, its instructions handed over. A function without a body has no
/// lowering.
pub open spec fn lower_function(function: SpecFunctionDefinition, at: Lowering) -> Result<
    (Option<SpecFunction>, Lowering),
    SpecError,
> {
    match function.body {
        None => Ok((None, fresh(at))),
        Some(body) => match lower_block(body, fresh(at)) {
            Err(e) => Err(e),
            Ok(s1) => Ok(
                (
                    Some(
                        SpecFunction {
                            name: function.name,
                            params: function.params,
                            return_type: function.return_type,
                            body: s1.code,
                        },
                    ),
                    fresh(s1),
                ),
            ),
        },
    }
}

/// Lowering of the first `count` of `functions`, in order: the lowered
/// functions, those without a body left out, and the state after.
pub open spec fn lower_functions(
    functions: Seq<SpecFunctionDefinition>,
    at: Lowering,
    count: nat,
) -> Result<(Seq<SpecFunction>, Lowering), SpecError>
    decreases count,
{
    if count == 0 || count > functions.len() {
        Ok((Seq::empty(), fresh(at)))
    } else {
        match lower_functions(functions, at, (count - 1) as nat) {
            Err(e) => Err(e),
            Ok((lowered, s1)) => match lower_function(functions[count - 1], s1) {
                Err(e) => Err(e),
                Ok((None, s2)) => Ok((lowered, s2)),
                Ok((Some(f), s2)) => Ok((lowered.push(f), s2)),
            },
        }
    }
}

/// Lowering of a program.
pub open spec fn lower_program(program: nodes::SpecProgram, at: Lowering) -> Result<
    (SpecProgram, Lowering),
    SpecError,
> {
    match lower_functions(program.functions, at, program.functions.len()) {
        Err(e) => Err(e),
        Ok((functions, s1)) => Ok((SpecProgram { functions }, s1)),
    }
}


/// Once an argument has failed to lower, the arguments as a whole fail the
/// same way.
pub proof fn lemma_argument_failure_stays(
    args: Seq<SpecExpression>,
    at: Lowering,
    failed: nat,
    count: nat,
)
    requires
        failed <= count <= args.len(),
        lower_arguments(args, at, failed) is Err,
    ensures
        lower_arguments(args, at, count) == lower_arguments(args, at, failed),
    decreases count,
{
    if failed < count {
        lemma_argument_failure_stays(args, at, failed, (count - 1) as nat);
    }
}

/// Once a block item has failed to lower, the items as a whole fail the same
/// way.
pub proof fn lemma_item_failure_stays(
    items: Seq<SpecBlockItem>,
    at: Lowering,
    failed: nat,
    count: nat,
)
    requires
        failed <= count <= items.len(),
        lower_items(items, at, failed) is Err,
    ensures
        lower_items(items, at, count) == lower_items(items, at, failed),
    decreases count,
{
    if failed < count {
        lemma_item_failure_stays(items, at, failed, (count - 1) as nat);
    }
}

/// Once a function has failed to lower, the functions as a whole fail the
/// same way.
pub proof fn lemma_function_failure_stays(
    functions: Seq<SpecFunctionDefinition>,
    at: Lowering,
    failed: nat,
    count: nat,
)
    requires
        failed <= count <= functions.len(),
        lower_functions(functions, at, failed) is Err,
    ensures
        lower_functions(functions, at, count) == lower_functions(functions, at, failed),
    decreases count,
{
    if failed < count {
        lemma_function_failure_stays(functions, at, failed, (count - 1) as nat);
    }
}

/// The generator of the intermediate representation: the counter that
/// numbers temporaries and labels, and the symbol table, in which every
/// temporary is entered.
pub struct IRGenerator {
    pub tmp_counter: Counter,
    pub symbol_table: SymbolTable,
}

impl IRGenerator {
    /// The number of temporaries and labels handed out so far, which is the
    /// number of the next one.
    pub open spec fn temporaries(&self) -> nat {
        self.tmp_counter.value()
    }

    /// The symbol table as a map from names to types.
    pub open spec fn table(&self) -> Map<Seq<char>, SpecType> {
        self.symbol_table@
    }

    /// The state of a lowering by this generator that has emitted `code`.
    pub open spec fn state(&self, code: Seq<Instruction>) -> Lowering {
        Lowering {
            code: instruction_models(code),
            next: self.temporaries(),
            table: self.table(),
        }
    }

    /// A generator that has handed out no temporary yet and enters its
    /// temporaries in `symbol_table`.
    pub fn new(symbol_table: SymbolTable) -> (r: Self)
        ensures
            r.temporaries() == 0,
            r.table() == symbol_table@,
    {
        Self { tmp_counter: Counter::new(), symbol_table }
    }

    /// Gives up the generator for its symbol table.
    pub fn into_symbol_table(self) -> (r: SymbolTable)
        ensures
            r@ == self.table(),
    {
        self.symbol_table
    }

    /// Takes a fresh name, for a label or a temporary.
    pub fn new_tmp(&mut self) -> (name: String)
        ensures
            name@ == temp_name(old(self).temporaries()),
            final(self).temporaries() == old(self).temporaries() + 1,
            final(self).table() == old(self).table(),
    {
        let mut name = String::from_str(".tmp.");
        self.tmp_counter.push_to(&mut name);
        self.tmp_counter.step();
        name
    }

    /// Takes a fresh temporary of type `ty` and enters it in the table.
    pub fn new_tmp_var(&mut self, ty: Type) -> (val: Val)
        ensures
            val@ == SpecVal::Var(temp_name(old(self).temporaries())),
            final(self).temporaries() == old(self).temporaries() + 1,
            final(self).table() == old(self).table().insert(
                temp_name(old(self).temporaries()),
                ty@,
            ),
    {
        let name = self.new_tmp();
        self.symbol_table.insert(name.clone(), STEntry { ty });
        Val::Var(name)
    }
}

/// Appends `instruction` to `body`.
fn emit(body: &mut Vec<Instruction>, instruction: Instruction)
    ensures
        final(body)@ == old(body)@.push(instruction),
        instruction_models(final(body)@) == instruction_models(old(body)@).push(instruction@),
{
    body.push(instruction);
    assert(instruction_models(body@) =~= instruction_models(old(body)@).push(instruction@));
}

/// Lowers the source operator `op`.
fn lower_op(op: nodes::Binop) -> (r: Binop)
    ensures
        r == lowered_op(op),
{
    match op {
        nodes::Binop::Add => Binop::Add,
        nodes::Binop::Sub => Binop::Sub,
        nodes::Binop::Mul => Binop::Mul,
        nodes::Binop::Div => Binop::Div,
        nodes::Binop::Mod => Binop::Mod,
    }
}

impl IRGenerator {
    /// Lowers `expression`, appending its instructions to `body`, and returns
    /// the operand that holds its value.
    #[verifier::loop_isolation(false)]
    #[verifier::rlimit(100)]
    pub fn generate_expression(&mut self, expression: nodes::Expression, body: &mut Vec<Instruction>) -> (r:
        Result<Val, Error>)
        ensures
            match r {
                Ok(v) => lower_expression(expression@, old(self).state(old(body)@)) == Ok::<
                    (SpecVal, Lowering),
                    SpecError,
                >((v@, final(self).state(final(body)@))),
                Err(e) => lower_expression(expression@, old(self).state(old(body)@)) == Err::<
                    (SpecVal, Lowering),
                    SpecError,
                >(e@),
            },
            old(self).table().dom().subset_of(final(self).table().dom()),
            old(self).temporaries() <= final(self).temporaries(),
        decreases expression,
    {
        let line = expression.line_started;
        match expression.kind {
            nodes::ExpressionKind::Number(n) => Ok(Val::Number(n)),
            nodes::ExpressionKind::Variable(name) => Ok(Val::Var(name)),
            nodes::ExpressionKind::Binary(op, left, right) => {
                let left = match self.generate_expression(*left, body) {
                    Ok(v) => v,
                    Err(e) => { return Err(e); },
                };
                let right = match self.generate_expression(*right, body) {
                    Ok(v) => v,
                    Err(e) => { return Err(e); },
                };
                let dst = self.new_tmp_var(expression.ty);
                emit(
                    body,
                    Instruction::Binary { op: lower_op(op), src1: left, src2: right, dst: dst.clone() },
                );
                Ok(dst)
            },
            nodes::ExpressionKind::Assign(left, right) => {
                let right = match self.generate_expression(*right, body) {
                    Ok(v) => v,
                    Err(e) => { return Err(e); },
                };
                let target = *left;
                assert(target@.kind == target.kind.model() && target@.ty == target.ty@);
                match target.kind {
                    nodes::ExpressionKind::Variable(name) => {
                        let var = Val::Var(name);
                        emit(body, Instruction::Copy { src: right, dst: var.clone() });
                        Ok(var)
                    },
                    nodes::ExpressionKind::Dereference(pointer) => {
                        let addr = match self.generate_expression(*pointer, body) {
                            Ok(v) => v,
                            Err(e) => { return Err(e); },
                        };
                        emit(body, Instruction::Store(right, addr.clone()));
                        Ok(addr)
                    },
                    nodes::ExpressionKind::Subscript(base, index) => {
                        let base = match self.generate_expression(*base, body) {
                            Ok(v) => v,
                            Err(e) => { return Err(e); },
                        };
                        let index = match self.generate_expression(*index, body) {
                            Ok(v) => v,
                            Err(e) => { return Err(e); },
                        };
                        let addr = self.new_tmp_var(Type::Pointer(Box::new(target.ty)));
                        emit(body, Instruction::AddPtr { ptr: base, index, dst: addr.clone() });
                        emit(body, Instruction::Store(right, addr.clone()));
                        Ok(addr)
                    },
                    _ => Err(Error::new(ErrorKind::InvalidAssignmentTarget, line)),
                }
            },
            nodes::ExpressionKind::IsZero(inner) => {
                let val = match self.generate_expression(*inner, body) {
                    Ok(v) => v,
                    Err(e) => { return Err(e); },
                };
                let dst = self.new_tmp_var(expression.ty);
                emit(
                    body,
                    Instruction::Binary {
                        op: Binop::Equal,
                        src1: val,
                        src2: Val::Number(0),
                        dst: dst.clone(),
                    },
                );
                Ok(dst)
            },
            nodes::ExpressionKind::FunctionCall(name, args) => {
                let ghost given = expression_models(args@);
                let ghost start = self.state(body@);
                let mut rest = args;
                let mut vals: Vec<Val> = Vec::new();
                assert(val_models(vals@) =~= Seq::empty());
                while rest.len() > 0
                    invariant
                        rest@ == args@.skip(vals@.len() as int),
                        vals@.len() <= args@.len(),
                        start.table.dom().subset_of(self.table().dom()),
                start.next <= self.temporaries(),
                lower_arguments(given, start, vals@.len() as nat) == Ok::<
                            (Seq<SpecVal>, Lowering),
                            SpecError,
                        >((val_models(vals@), self.state(body@))),
                    decreases rest.len(),
                {
                    let ghost done = vals@.len();
                    let ghost before = val_models(vals@);
                    let arg = rest.remove(0);
                    assert(arg == args@[done as int]);
                    assert(given[done as int] == arg@);
                    match self.generate_expression(arg, body) {
                        Ok(v) => {
                            vals.push(v);
                            assert(val_models(vals@) =~= before.push(v@));
                        },
                        Err(e) => {
                            proof {
                                lemma_argument_failure_stays(
                                    given,
                                    start,
                                    (done + 1) as nat,
                                    given.len(),
                                );
                            }
                            return Err(e);
                        },
                    }
                    assert(rest@ =~= args@.skip(vals@.len() as int));
                }
                let dst = self.new_tmp_var(expression.ty);
                emit(body, Instruction::FunctionCall(name, vals, dst.clone()));
                Ok(dst)
            },
            nodes::ExpressionKind::AddressOf(inner) => {
                let val = match self.generate_expression(*inner, body) {
                    Ok(v) => v,
                    Err(e) => { return Err(e); },
                };
                let dst = self.new_tmp_var(expression.ty);
                emit(body, Instruction::GetAddress(val, dst.clone()));
                Ok(dst)
            },
            nodes::ExpressionKind::Dereference(inner) => {
                let val = match self.generate_expression(*inner, body) {
                    Ok(v) => v,
                    Err(e) => { return Err(e); },
                };
                let dst = self.new_tmp_var(expression.ty);
                emit(body, Instruction::Load(val, dst.clone()));
                Ok(dst)
            },
            nodes::ExpressionKind::Subscript(base, index) => {
                let base = match self.generate_expression(*base, body) {
                    Ok(v) => v,
                    Err(e) => { return Err(e); },
                };
                let index = match self.generate_expression(*index, body) {
                    Ok(v) => v,
                    Err(e) => { return Err(e); },
                };
                let addr = self.new_tmp_var(Type::Pointer(Box::new(expression.ty.clone())));
                emit(body, Instruction::AddPtr { ptr: base, index, dst: addr.clone() });
                let dst = self.new_tmp_var(expression.ty);
                emit(body, Instruction::Load(addr, dst.clone()));
                Ok(dst)
            },
        }
    }

    /// Lowers a declaration: its value, then the copy into the variable.
    pub fn generate_declaration(&mut self, declaration: nodes::Declaration, body: &mut Vec<Instruction>) -> (r:
        Result<(), Error>)
        ensures
            match r {
                Ok(_) => lower_declaration(declaration@, old(self).state(old(body)@)) == Ok::<
                    Lowering,
                    SpecError,
                >(final(self).state(final(body)@)),
                Err(e) => lower_declaration(declaration@, old(self).state(old(body)@)) == Err::<
                    Lowering,
                    SpecError,
                >(e@),
            },
            old(self).table().dom().subset_of(final(self).table().dom()),
            old(self).temporaries() <= final(self).temporaries(),
    {
        let val = match self.generate_expression(declaration.value, body) {
            Ok(v) => v,
            Err(e) => { return Err(e); },
        };
        emit(body, Instruction::Copy { src: val, dst: Val::Var(declaration.name) });
        Ok(())
    }

    /// Lowers the items of a block in order.
    #[verifier::loop_isolation(false)]
    #[verifier::rlimit(100)]
    pub fn generate_block(&mut self, block: nodes::Block, body: &mut Vec<Instruction>) -> (r: Result<
        (),
        Error,
    >)
        ensures
            match r {
                Ok(_) => lower_block(block@, old(self).state(old(body)@)) == Ok::<
                    Lowering,
                    SpecError,
                >(final(self).state(final(body)@)),
                Err(e) => lower_block(block@, old(self).state(old(body)@)) == Err::<
                    Lowering,
                    SpecError,
                >(e@),
            },
            old(self).table().dom().subset_of(final(self).table().dom()),
            old(self).temporaries() <= final(self).temporaries(),
        decreases block,
    {
        let ghost given = item_models(block.items@);
        let ghost start = self.state(body@);
        let ghost mut done: nat = 0;
        let mut rest = block.items;
        while rest.len() > 0
            invariant
                rest@ == block.items@.skip(done as int),
                done <= block.items@.len(),
                start.table.dom().subset_of(self.table().dom()),
                start.next <= self.temporaries(),
                lower_items(given, start, done) == Ok::<Lowering, SpecError>(self.state(body@)),
            decreases rest.len(),
        {
            let item = rest.remove(0);
            assert(item == block.items@[done as int]);
            assert(given[done as int] == item@);
            let outcome = match item {
                nodes::BlockItem::Statement(statement) => self.generate_statement(statement, body),
                nodes::BlockItem::Declaration(declaration) => self.generate_declaration(
                    declaration,
                    body,
                ),
            };
            match outcome {
                Ok(_) => {},
                Err(e) => {
                    proof {
                        lemma_item_failure_stays(given, start, (done + 1) as nat, given.len());
                    }
                    return Err(e);
                },
            }
            proof {
                done = done + 1;
            }
            assert(rest@ =~= block.items@.skip(done as int));
        }
        Ok(())
    }

    /// Lowers a statement, appending its instructions to `body`.
    pub fn generate_statement(&mut self, statement: nodes::Statement, body: &mut Vec<Instruction>) -> (r:
        Result<(), Error>)
        ensures
            match r {
                Ok(_) => lower_statement(statement@, old(self).state(old(body)@)) == Ok::<
                    Lowering,
                    SpecError,
                >(final(self).state(final(body)@)),
                Err(e) => lower_statement(statement@, old(self).state(old(body)@)) == Err::<
                    Lowering,
                    SpecError,
                >(e@),
            },
            old(self).table().dom().subset_of(final(self).table().dom()),
            old(self).temporaries() <= final(self).temporaries(),
        decreases statement,
    {
        match statement.kind {
            nodes::StatementKind::Return(expression) => {
                let val = match self.generate_expression(expression, body) {
                    Ok(v) => v,
                    Err(e) => { return Err(e); },
                };
                emit(body, Instruction::Return(val));
            },
            nodes::StatementKind::Block(block) => {
                match self.generate_block(block, body) {
                    Ok(_) => {},
                    Err(e) => { return Err(e); },
                }
            },
            nodes::StatementKind::Expression(expression) => {
                match self.generate_expression(expression, body) {
                    Ok(_) => {},
                    Err(e) => { return Err(e); },
                }
            },
            nodes::StatementKind::If(condition, block, else_block) => {
                let val = match self.generate_expression(condition, body) {
                    Ok(v) => v,
                    Err(e) => { return Err(e); },
                };
                let label = self.new_tmp();
                emit(body, Instruction::JumpIfZero(val, label.clone()));
                match self.generate_statement(*block, body) {
                    Ok(_) => {},
                    Err(e) => { return Err(e); },
                }
                match else_block {
                    None => {
                        emit(body, Instruction::Label(label));
                    },
                    Some(block) => {
                        let end_label = self.new_tmp();
                        emit(body, Instruction::Jump(end_label.clone()));
                        emit(body, Instruction::Label(label));
                        match self.generate_statement(*block, body) {
                            Ok(_) => {},
                            Err(e) => { return Err(e); },
                        }
                        emit(body, Instruction::Label(end_label));
                    },
                }
            },
            nodes::StatementKind::While(condition, block) => {
                let label = self.new_tmp();
                let end_label = self.new_tmp();
                emit(body, Instruction::Label(label.clone()));
                let val = match self.generate_expression(condition, body) {
                    Ok(v) => v,
                    Err(e) => { return Err(e); },
                };
                emit(body, Instruction::JumpIfZero(val, end_label.clone()));
                match self.generate_statement(*block, body) {
                    Ok(_) => {},
                    Err(e) => { return Err(e); },
                }
                emit(body, Instruction::Jump(label));
                emit(body, Instruction::Label(end_label));
            },
        }
        Ok(())
    }

    /// Lowers a function, if it has a body.
    pub fn generate_function(&mut self, function: nodes::FunctionDefinition) -> (r: Result<
        Option<Function>,
        Error,
    >)
        ensures
            match r {
                Ok(lowered) => lower_function(function@, old(self).state(Seq::empty())) == Ok::<
                    (Option<SpecFunction>, Lowering),
                    SpecError,
                >(
                    (
                        match lowered {
                            Some(f) => Some(f@),
                            None => None,
                        },
                        final(self).state(Seq::empty()),
                    ),
                ),
                Err(e) => lower_function(function@, old(self).state(Seq::empty())) == Err::<
                    (Option<SpecFunction>, Lowering),
                    SpecError,
                >(e@),
            },
            old(self).table().dom().subset_of(final(self).table().dom()),
            old(self).temporaries() <= final(self).temporaries(),
    {
        let mut body: Vec<Instruction> = Vec::new();
        assert(instruction_models(body@) =~= Seq::empty());
        assert(instruction_models(Seq::<Instruction>::empty()) =~= Seq::empty());
        let block = match function.body {
            Some(block) => block,
            None => { return Ok(None); },
        };
        match self.generate_block(block, &mut body) {
            Ok(_) => {},
            Err(e) => { return Err(e); },
        }
        Ok(
            Some(
                Function {
                    name: function.name,
                    params: function.params,
                    return_type: function.return_type,
                    body,
                },
            ),
        )
    }

    /// Lowers `program` into three-address instructions, one flat list for
    /// each function that has a body, and enters every temporary it creates
    /// in the symbol table. Whether lowering passes or fails, no name is
    /// dropped from the table and no number is taken twice.
    #[verifier::loop_isolation(false)]
    #[verifier::rlimit(100)]
    pub fn generate_ir(&mut self, program: nodes::Program) -> (r: Result<Program, Error>)
        ensures
            match r {
                Ok(lowered) => lower_program(program@, old(self).state(Seq::empty())) == Ok::<
                    (SpecProgram, Lowering),
                    SpecError,
                >((lowered@, final(self).state(Seq::empty()))),
                Err(e) => lower_program(program@, old(self).state(Seq::empty())) == Err::<
                    (SpecProgram, Lowering),
                    SpecError,
                >(e@),
            },
            old(self).table().dom().subset_of(final(self).table().dom()),
            old(self).temporaries() <= final(self).temporaries(),
    {
        let ghost given = nodes::function_models(program.functions@);
        let ghost start = self.state(Seq::empty());
        let ghost mut done: nat = 0;
        let mut rest = program.functions;
        let mut functions: Vec<Function> = Vec::new();
        assert(function_models(functions@) =~= Seq::empty());
        assert(instruction_models(Seq::<Instruction>::empty()) =~= Seq::empty());
        while rest.len() > 0
            invariant
                rest@ == program.functions@.skip(done as int),
                done <= program.functions@.len(),
                start.table.dom().subset_of(self.table().dom()),
                start.next <= self.temporaries(),
                lower_functions(given, start, done) == Ok::<
                    (Seq<SpecFunction>, Lowering),
                    SpecError,
                >((function_models(functions@), self.state(Seq::empty()))),
            decreases rest.len(),
        {
            let ghost before = function_models(functions@);
            let function = rest.remove(0);
            assert(function == program.functions@[done as int]);
            assert(given[done as int] == function@);
            match self.generate_function(function) {
                Ok(Some(f)) => {
                    functions.push(f);
                    assert(function_models(functions@) =~= before.push(f@));
                },
                Ok(None) => {},
                Err(e) => {
                    proof {
                        lemma_function_failure_stays(given, start, (done + 1) as nat, given.len());
                    }
                    return Err(e);
                },
            }
            proof {
                done = done + 1;
            }
            assert(rest@ =~= program.functions@.skip(done as int));
        }
        Ok(Program { functions })
    }
}


/// Whether the state `after` continues the state `before`: it has all the
/// instructions of `before` in front of its own, has taken no number below
/// the next one of `before`, and types every name that `before` types.
pub open spec fn continues(after: Lowering, before: Lowering) -> bool {
    &&& before.code.len() <= after.code.len()
    &&& after.code.subrange(0, before.code.len() as int) == before.code
    &&& before.next <= after.next
    &&& before.table.dom().subset_of(after.table.dom())
}

/// To continue is transitive.
pub proof fn lemma_continues_on(last: Lowering, middle: Lowering, first: Lowering)
    requires
        continues(last, middle),
        continues(middle, first),
    ensures
        continues(last, first),
{
    assert(last.code.subrange(0, first.code.len() as int) =~= middle.code.subrange(
        0,
        first.code.len() as int,
    ));
}

/// To emit an instruction, to take a label and to take a temporary each
/// continue the state they start from.
pub proof fn lemma_steps_continue(at: Lowering, instruction: SpecInstruction, ty: SpecType)
    ensures
        continues(at, at),
        continues(at.emit(instruction), at),
        continues(at.labelled(), at),
        continues(at.typed(ty), at),
        continues(at.typed(ty).emit(instruction), at),
{
    assert(at.code.subrange(0, at.code.len() as int) =~= at.code);
    assert(at.code.push(instruction).subrange(0, at.code.len() as int) =~= at.code);
}

/// The lowering of an expression continues the state it starts from: it
/// only adds instructions, and only takes fresh numbers.
pub proof fn lemma_expression_continues(expression: SpecExpression, at: Lowering)
    ensures
        lower_expression(expression, at) matches Ok((_, after)) ==> continues(after, at),
    decreases expression, 0nat,
{
    let ty = expression.ty;
    match expression.kind {
        SpecExpressionKind::Number(_) => {
            lemma_steps_continue(at, arbitrary(), ty);
        },
        SpecExpressionKind::Variable(_) => {
            lemma_steps_continue(at, arbitrary(), ty);
        },
        SpecExpressionKind::Binary(op, left, right) => {
            lemma_expression_continues(*left, at);
            if let Ok((l, s1)) = lower_expression(*left, at) {
                lemma_expression_continues(*right, s1);
                if let Ok((r, s2)) = lower_expression(*right, s1) {
                    let instruction = SpecInstruction::Binary {
                        op: lowered_op(op),
                        src1: l,
                        src2: r,
                        dst: s2.temporary(),
                    };
                    lemma_steps_continue(s2, instruction, ty);
                    lemma_continues_on(s2, s1, at);
                    lemma_continues_on(s2.typed(ty).emit(instruction), s2, at);
                }
            }
        },
        SpecExpressionKind::Assign(target, value) => {
            lemma_expression_continues(*value, at);
            if let Ok((v, s1)) = lower_expression(*value, at) {
                match target.kind {
                    SpecExpressionKind::Variable(name) => {
                        let instruction = SpecInstruction::Copy { src: v, dst: SpecVal::Var(name) };
                        lemma_steps_continue(s1, instruction, ty);
                        lemma_continues_on(s1.emit(instruction), s1, at);
                    },
                    SpecExpressionKind::Dereference(pointer) => {
                        lemma_expression_continues(*pointer, s1);
                        if let Ok((address, s2)) = lower_expression(*pointer, s1) {
                            let instruction = SpecInstruction::Store(v, address);
                            lemma_steps_continue(s2, instruction, ty);
                            lemma_continues_on(s2, s1, at);
                            lemma_continues_on(s2.emit(instruction), s2, at);
                        }
                    },
                    SpecExpressionKind::Subscript(base, index) => {
                        lemma_expression_continues(*base, s1);
                        if let Ok((b, s2)) = lower_expression(*base, s1) {
                            lemma_expression_continues(*index, s2);
                            if let Ok((i, s3)) = lower_expression(*index, s2) {
                                let pointer = SpecType::Pointer(Box::new(target.ty));
                                let add = SpecInstruction::AddPtr {
                                    ptr: b,
                                    index: i,
                                    dst: s3.temporary(),
                                };
                                let store = SpecInstruction::Store(v, s3.temporary());
                                lemma_steps_continue(s3, add, pointer);
                                lemma_steps_continue(s3.typed(pointer).emit(add), store, ty);
                                lemma_continues_on(s2, s1, at);
                                lemma_continues_on(s3, s2, at);
                                lemma_continues_on(s3.typed(pointer).emit(add), s3, at);
                                lemma_continues_on(
                                    s3.typed(pointer).emit(add).emit(store),
                                    s3.typed(pointer).emit(add),
                                    at,
                                );
                            }
                        }
                    },
                    _ => {},
                }
            }
        },
        SpecExpressionKind::IsZero(inner) => {
            lemma_expression_continues(*inner, at);
            if let Ok((v, s1)) = lower_expression(*inner, at) {
                let instruction = SpecInstruction::Binary {
                    op: Binop::Equal,
                    src1: v,
                    src2: SpecVal::Number(0),
                    dst: s1.temporary(),
                };
                lemma_steps_continue(s1, instruction, ty);
                lemma_continues_on(s1.typed(ty).emit(instruction), s1, at);
            }
        },
        SpecExpressionKind::FunctionCall(name, args) => {
            lemma_arguments_continue(args, at, args.len());
            if let Ok((vals, s1)) = lower_arguments(args, at, args.len()) {
                let instruction = SpecInstruction::FunctionCall(name, vals, s1.temporary());
                lemma_steps_continue(s1, instruction, ty);
                lemma_continues_on(s1.typed(ty).emit(instruction), s1, at);
            }
        },
        SpecExpressionKind::AddressOf(inner) => {
            lemma_expression_continues(*inner, at);
            if let Ok((v, s1)) = lower_expression(*inner, at) {
                let instruction = SpecInstruction::GetAddress(v, s1.temporary());
                lemma_steps_continue(s1, instruction, ty);
                lemma_continues_on(s1.typed(ty).emit(instruction), s1, at);
            }
        },
        SpecExpressionKind::Dereference(inner) => {
            lemma_expression_continues(*inner, at);
            if let Ok((v, s1)) = lower_expression(*inner, at) {
                let instruction = SpecInstruction::Load(v, s1.temporary());
                lemma_steps_continue(s1, instruction, ty);
                lemma_continues_on(s1.typed(ty).emit(instruction), s1, at);
            }
        },
        SpecExpressionKind::Subscript(base, index) => {
            lemma_expression_continues(*base, at);
            if let Ok((b, s1)) = lower_expression(*base, at) {
                lemma_expression_continues(*index, s1);
                if let Ok((i, s2)) = lower_expression(*index, s1) {
                    let pointer = SpecType::Pointer(Box::new(ty));
                    let add = SpecInstruction::AddPtr { ptr: b, index: i, dst: s2.temporary() };
                    let s3 = s2.typed(pointer).emit(add);
                    let load = SpecInstruction::Load(s2.temporary(), s3.temporary());
                    lemma_steps_continue(s2, add, pointer);
                    lemma_steps_continue(s3, load, ty);
                    lemma_continues_on(s2, s1, at);
                    lemma_continues_on(s3, s2, at);
                    lemma_continues_on(s3.typed(ty).emit(load), s3, at);
                }
            }
        },
    }
}

/// The lowering of arguments continues the state it starts from.
pub proof fn lemma_arguments_continue(args: Seq<SpecExpression>, at: Lowering, count: nat)
    ensures
        lower_arguments(args, at, count) matches Ok((_, after)) ==> continues(after, at),
    decreases args, count,
{
    if count == 0 || count > args.len() {
        lemma_steps_continue(at, arbitrary(), arbitrary());
    } else {
        lemma_arguments_continue(args, at, (count - 1) as nat);
        if let Ok((vals, s1)) = lower_arguments(args, at, (count - 1) as nat) {
            lemma_expression_continues(args[count - 1], s1);
            if let Ok((v, s2)) = lower_expression(args[count - 1], s1) {
                lemma_continues_on(s2, s1, at);
            }
        }
    }
}

/// The lowering of a statement continues the state it starts from.
pub proof fn lemma_statement_continues(statement: SpecStatement, at: Lowering)
    ensures
        lower_statement(statement, at) matches Ok(after) ==> continues(after, at),
    decreases statement, 0nat,
{
    match statement.kind {
        SpecStatementKind::Return(value) => {
            lemma_expression_continues(value, at);
            if let Ok((v, s1)) = lower_expression(value, at) {
                lemma_steps_continue(s1, SpecInstruction::Return(v), arbitrary());
                lemma_continues_on(s1.emit(SpecInstruction::Return(v)), s1, at);
            }
            assert(lower_statement(statement, at) matches Ok(after) ==> continues(after, at));
        },
        SpecStatementKind::Block(block) => {
            lemma_items_continue(block.items, at, block.items.len());
            assert(lower_statement(statement, at) == lower_block(block, at));
            assert(lower_statement(statement, at) matches Ok(after) ==> continues(after, at));
        },
        SpecStatementKind::Expression(value) => {
            lemma_expression_continues(value, at);
            assert(lower_statement(statement, at) matches Ok(after) ==> continues(after, at));
        },
        SpecStatementKind::If(condition, then_branch, else_branch) => {
            lemma_expression_continues(condition, at);
            if let Ok((c, s1)) = lower_expression(condition, at) {
                let skip = s1.label();
                let jump = SpecInstruction::JumpIfZero(c, skip);
                let entered = s1.labelled().emit(jump);
                lemma_steps_continue(s1, jump, arbitrary());
                lemma_steps_continue(s1.labelled(), jump, arbitrary());
                lemma_continues_on(entered, s1.labelled(), s1);
                lemma_continues_on(entered, s1, at);
                lemma_statement_continues(*then_branch, entered);
                if let Ok(s2) = lower_statement(*then_branch, entered) {
                    lemma_continues_on(s2, entered, at);
                    match else_branch {
                        None => {
                            lemma_steps_continue(s2, SpecInstruction::Label(skip), arbitrary());
                            lemma_continues_on(s2.emit(SpecInstruction::Label(skip)), s2, at);
                        },
                        Some(branch) => {
                            let end = s2.label();
                            let over = s2.labelled().emit(SpecInstruction::Jump(end));
                            let turned = over.emit(SpecInstruction::Label(skip));
                            lemma_steps_continue(s2, SpecInstruction::Jump(end), arbitrary());
                            lemma_steps_continue(
                                s2.labelled(),
                                SpecInstruction::Jump(end),
                                arbitrary(),
                            );
                            lemma_steps_continue(over, SpecInstruction::Label(skip), arbitrary());
                            lemma_continues_on(over, s2.labelled(), s2);
                            lemma_continues_on(turned, over, s2);
                            lemma_continues_on(turned, s2, at);
                            lemma_statement_continues(*branch, turned);
                            if let Ok(s3) = lower_statement(*branch, turned) {
                                lemma_continues_on(s3, turned, at);
                                lemma_steps_continue(s3, SpecInstruction::Label(end), arbitrary());
                                lemma_continues_on(s3.emit(SpecInstruction::Label(end)), s3, at);
                            }
                        },
                    }
                }
            }
        },
        SpecStatementKind::While(condition, body) => {
            let top = at.label();
            let end = at.labelled().label();
            let started = at.labelled().labelled().emit(SpecInstruction::Label(top));
            lemma_steps_continue(at, SpecInstruction::Label(top), arbitrary());
            lemma_steps_continue(at.labelled(), SpecInstruction::Label(top), arbitrary());
            lemma_steps_continue(
                at.labelled().labelled(),
                SpecInstruction::Label(top),
                arbitrary(),
            );
            lemma_continues_on(at.labelled().labelled(), at.labelled(), at);
            lemma_continues_on(started, at.labelled().labelled(), at);
            lemma_expression_continues(condition, started);
            if let Ok((c, s1)) = lower_expression(condition, started) {
                lemma_continues_on(s1, started, at);
                let jump = SpecInstruction::JumpIfZero(c, end);
                lemma_steps_continue(s1, jump, arbitrary());
                lemma_continues_on(s1.emit(jump), s1, at);
                lemma_statement_continues(*body, s1.emit(jump));
                if let Ok(s2) = lower_statement(*body, s1.emit(jump)) {
                    lemma_continues_on(s2, s1.emit(jump), at);
                    let back = s2.emit(SpecInstruction::Jump(top));
                    lemma_steps_continue(s2, SpecInstruction::Jump(top), arbitrary());
                    lemma_steps_continue(back, SpecInstruction::Label(end), arbitrary());
                    lemma_continues_on(back, s2, at);
                    lemma_continues_on(back.emit(SpecInstruction::Label(end)), back, at);
                }
            }
        },
    }
}

/// The lowering of block items continues the state it starts from.
pub proof fn lemma_items_continue(items: Seq<SpecBlockItem>, at: Lowering, count: nat)
    ensures
        lower_items(items, at, count) matches Ok(after) ==> continues(after, at),
    decreases items, count,
{
    if count == 0 || count > items.len() {
        lemma_steps_continue(at, arbitrary(), arbitrary());
    } else {
        lemma_items_continue(items, at, (count - 1) as nat);
        if let Ok(s1) = lower_items(items, at, (count - 1) as nat) {
            match items[count - 1] {
                SpecBlockItem::Statement(statement) => {
                    lemma_statement_continues(statement, s1);
                    if let Ok(s2) = lower_statement(statement, s1) {
                        lemma_continues_on(s2, s1, at);
                    }
                },
                SpecBlockItem::Declaration(declaration) => {
                    lemma_expression_continues(declaration.value, s1);
                    if let Ok((v, s2)) = lower_expression(declaration.value, s1) {
                        let copy = SpecInstruction::Copy {
                            src: v,
                            dst: SpecVal::Var(declaration.name),
                        };
                        lemma_steps_continue(s2, copy, arbitrary());
                        lemma_continues_on(s2, s1, at);
                        lemma_continues_on(s2.emit(copy), s2, at);
                    }
                },
            }
        }
    }
}


/// Two temporaries or labels with different numbers have different names.
pub proof fn lemma_names_differ(a: nat, b: nat)
    requires
        a != b,
    ensures
        temp_name(a) != temp_name(b),
{
    if temp_name(a) == temp_name(b) {
        let prefix = ".tmp."@;
        assert(decimal(a) =~= temp_name(a).subrange(
            prefix.len() as int,
            temp_name(a).len() as int,
        ));
        assert(decimal(b) =~= temp_name(b).subrange(
            prefix.len() as int,
            temp_name(b).len() as int,
        ));
        lemma_decimal_injective(a, b);
    }
}

/// An assignment lowers its value first and then, after what its target
/// needs, adds exactly these instructions: to a variable, one `Copy` into
/// the variable; through a dereference, whose pointer is lowered after the
/// value, one `Store` at the pointer; through a subscript, whose base and
/// index are lowered after the value, one `AddPtr` into a fresh temporary of
/// pointer type and one `Store` at that temporary. So a variable is
/// assigned by a `Copy` and never a `Store`, and a dereference or subscript
/// by a `Store` and never a `Copy`.
pub proof fn lemma_assignment_lowering(assignment: SpecExpression, at: Lowering)
    requires
        assignment.kind is Assign,
        lower_expression(assignment, at) is Ok,
    ensures
        ({
            let target = *assignment.kind->Assign_0;
            let value = *assignment.kind->Assign_1;
            let after = lower_expression(assignment, at)->Ok_0.1;
            &&& lower_expression(value, at) matches Ok((v, s1))
            &&& match target.kind {
                SpecExpressionKind::Variable(name) => after == s1.emit(
                    SpecInstruction::Copy { src: v, dst: SpecVal::Var(name) },
                ),
                SpecExpressionKind::Dereference(pointer) => lower_expression(
                    *pointer,
                    s1,
                ) matches Ok((address, s2)) && after == s2.emit(
                    SpecInstruction::Store(v, address),
                ),
                SpecExpressionKind::Subscript(base, index) => lower_expression(
                    *base,
                    s1,
                ) matches Ok((b, s2)) && lower_expression(*index, s2) matches Ok((i, s3))
                    && after.code == s3.code.push(
                    SpecInstruction::AddPtr { ptr: b, index: i, dst: s3.temporary() },
                ).push(SpecInstruction::Store(v, s3.temporary())),
                _ => false,
            }
        }),
{
}

/// The layout of a lowered conditional without an alternative: after the
/// instructions of the condition stands the jump that is taken when the
/// condition is zero, then the instructions of the branch, and last the
/// label that the jump goes to.
pub proof fn lemma_conditional_layout(
    condition: SpecExpression,
    then_branch: SpecStatement,
    line: nat,
    at: Lowering,
)
    requires
        lower_statement(
            SpecStatement {
                kind: SpecStatementKind::If(condition, Box::new(then_branch), None),
                line_started: line,
            },
            at,
        ) is Ok,
    ensures
        ({
            let whole = lower_statement(
                SpecStatement {
                    kind: SpecStatementKind::If(condition, Box::new(then_branch), None),
                    line_started: line,
                },
                at,
            )->Ok_0;
            let (c, s1) = lower_expression(condition, at)->Ok_0;
            let skip = s1.label();
            let s2 = lower_statement(
                then_branch,
                s1.labelled().emit(SpecInstruction::JumpIfZero(c, skip)),
            )->Ok_0;
            &&& at.code.len() <= s1.code.len() < s2.code.len()
            &&& whole.code.len() == s2.code.len() + 1
            &&& whole.code.subrange(0, s1.code.len() as int) == s1.code
            &&& whole.code[s1.code.len() as int] == SpecInstruction::JumpIfZero(c, skip)
            &&& whole.code.subrange(0, s2.code.len() as int) == s2.code
            &&& whole.code[s2.code.len() as int] == SpecInstruction::Label(skip)
        }),
{
    let (c, s1) = lower_expression(condition, at)->Ok_0;
    let skip = s1.label();
    let jump = SpecInstruction::JumpIfZero(c, skip);
    let entered = s1.labelled().emit(jump);
    let s2 = lower_statement(then_branch, entered)->Ok_0;
    let whole = s2.emit(SpecInstruction::Label(skip));
    lemma_expression_continues(condition, at);
    lemma_statement_continues(then_branch, entered);
    assert(s2.code.subrange(0, entered.code.len() as int)[s1.code.len() as int] == jump);
    assert(whole.code.subrange(0, s2.code.len() as int) =~= s2.code);
    assert(whole.code.subrange(0, s1.code.len() as int) =~= s2.code.subrange(
        0,
        entered.code.len() as int,
    ).subrange(0, s1.code.len() as int));
    assert(entered.code.subrange(0, s1.code.len() as int) =~= s1.code);
}

/// The layout of a lowered conditional with an alternative: after the
/// instructions of the condition stands the jump that is taken when the
/// condition is zero; then the instructions of the first branch, which end
/// in a jump to the end label; then the label that the first jump goes to,
/// and after it the instructions of the alternative; and last the end
/// label, which differs from the other label. So the first branch is entered
/// only past the first jump, the alternative only through it, and both end
/// at the end label.
pub proof fn lemma_alternative_layout(
    condition: SpecExpression,
    then_branch: SpecStatement,
    else_branch: SpecStatement,
    line: nat,
    at: Lowering,
)
    requires
        lower_statement(
            SpecStatement {
                kind: SpecStatementKind::If(
                    condition,
                    Box::new(then_branch),
                    Some(Box::new(else_branch)),
                ),
                line_started: line,
            },
            at,
        ) is Ok,
    ensures
        ({
            let whole = lower_statement(
                SpecStatement {
                    kind: SpecStatementKind::If(
                        condition,
                        Box::new(then_branch),
                        Some(Box::new(else_branch)),
                    ),
                    line_started: line,
                },
                at,
            )->Ok_0;
            let (c, s1) = lower_expression(condition, at)->Ok_0;
            let skip = s1.label();
            let s2 = lower_statement(
                then_branch,
                s1.labelled().emit(SpecInstruction::JumpIfZero(c, skip)),
            )->Ok_0;
            let end = s2.label();
            let s3 = lower_statement(
                else_branch,
                s2.labelled().emit(SpecInstruction::Jump(end)).emit(SpecInstruction::Label(skip)),
            )->Ok_0;
            &&& skip != end
            &&& at.code.len() <= s1.code.len() < s2.code.len()
            &&& s2.code.len() + 2 <= s3.code.len()
            &&& whole.code.len() == s3.code.len() + 1
            &&& whole.code.subrange(0, s1.code.len() as int) == s1.code
            &&& whole.code[s1.code.len() as int] == SpecInstruction::JumpIfZero(c, skip)
            &&& whole.code.subrange(0, s2.code.len() as int) == s2.code
            &&& whole.code[s2.code.len() as int] == SpecInstruction::Jump(end)
            &&& whole.code[s2.code.len() as int + 1] == SpecInstruction::Label(skip)
            &&& whole.code.subrange(0, s3.code.len() as int) == s3.code
            &&& whole.code[s3.code.len() as int] == SpecInstruction::Label(end)
        }),
{
    let (c, s1) = lower_expression(condition, at)->Ok_0;
    let skip = s1.label();
    let jump = SpecInstruction::JumpIfZero(c, skip);
    let entered = s1.labelled().emit(jump);
    let s2 = lower_statement(then_branch, entered)->Ok_0;
    let end = s2.label();
    let over = s2.labelled().emit(SpecInstruction::Jump(end));
    let turned = over.emit(SpecInstruction::Label(skip));
    let s3 = lower_statement(else_branch, turned)->Ok_0;
    let whole = s3.emit(SpecInstruction::Label(end));
    lemma_expression_continues(condition, at);
    lemma_statement_continues(then_branch, entered);
    lemma_statement_continues(else_branch, turned);
    lemma_names_differ(s1.next, s2.next);
    assert(s2.code.subrange(0, entered.code.len() as int)[s1.code.len() as int] == jump);
    assert(s3.code.subrange(0, turned.code.len() as int)[s2.code.len() as int]
        == SpecInstruction::Jump(end));
    assert(s3.code.subrange(0, turned.code.len() as int)[s2.code.len() as int + 1]
        == SpecInstruction::Label(skip));
    assert(s3.code.subrange(0, turned.code.len() as int)[s1.code.len() as int] == jump);
    assert(whole.code.subrange(0, s3.code.len() as int) =~= s3.code);
    assert(turned.code.subrange(0, s2.code.len() as int) =~= s2.code);
    assert(whole.code.subrange(0, s2.code.len() as int) =~= s3.code.subrange(
        0,
        turned.code.len() as int,
    ).subrange(0, s2.code.len() as int));
    assert(entered.code.subrange(0, s1.code.len() as int) =~= s1.code);
    assert(whole.code.subrange(0, s1.code.len() as int) =~= s2.code.subrange(
        0,
        entered.code.len() as int,
    ).subrange(0, s1.code.len() as int));
}

/// The layout of a lowered loop: first the label of its top; then the
/// instructions of the condition, so that the condition is evaluated
/// whenever the top is reached, before the first turn as before every other;
/// then the jump to the end label that is taken when the condition is zero,
/// so that the body is not entered then; then the instructions of the body;
/// then the jump back to the top; and last the end label, which differs from
/// the label of the top.
pub proof fn lemma_loop_layout(
    condition: SpecExpression,
    body: SpecStatement,
    line: nat,
    at: Lowering,
)
    requires
        lower_statement(
            SpecStatement {
                kind: SpecStatementKind::While(condition, Box::new(body)),
                line_started: line,
            },
            at,
        ) is Ok,
    ensures
        ({
            let whole = lower_statement(
                SpecStatement {
                    kind: SpecStatementKind::While(condition, Box::new(body)),
                    line_started: line,
                },
                at,
            )->Ok_0;
            let top = at.label();
            let end = at.labelled().label();
            let (c, s1) = lower_expression(
                condition,
                at.labelled().labelled().emit(SpecInstruction::Label(top)),
            )->Ok_0;
            let s2 = lower_statement(body, s1.emit(SpecInstruction::JumpIfZero(c, end)))->Ok_0;
            &&& top != end
            &&& at.code.len() < s1.code.len() < s2.code.len()
            &&& whole.code.len() == s2.code.len() + 2
            &&& whole.code.subrange(0, at.code.len() as int) == at.code
            &&& whole.code[at.code.len() as int] == SpecInstruction::Label(top)
            &&& whole.code.subrange(0, s1.code.len() as int) == s1.code
            &&& whole.code[s1.code.len() as int] == SpecInstruction::JumpIfZero(c, end)
            &&& whole.code.subrange(0, s2.code.len() as int) == s2.code
            &&& whole.code[s2.code.len() as int] == SpecInstruction::Jump(top)
            &&& whole.code[s2.code.len() as int + 1] == SpecInstruction::Label(end)
        }),
{
    let top = at.label();
    let end = at.labelled().label();
    let started = at.labelled().labelled().emit(SpecInstruction::Label(top));
    let (c, s1) = lower_expression(condition, started)->Ok_0;
    let jump = SpecInstruction::JumpIfZero(c, end);
    let s2 = lower_statement(body, s1.emit(jump))->Ok_0;
    let whole = s2.emit(SpecInstruction::Jump(top)).emit(SpecInstruction::Label(end));
    lemma_expression_continues(condition, started);
    lemma_statement_continues(body, s1.emit(jump));
    lemma_names_differ(at.next, at.next + 1);
    assert(s1.code.subrange(0, started.code.len() as int)[at.code.len() as int]
        == SpecInstruction::Label(top));
    assert(s2.code.subrange(0, s1.emit(jump).code.len() as int)[s1.code.len() as int] == jump);
    assert(s2.code.subrange(0, s1.emit(jump).code.len() as int)[at.code.len() as int]
        == SpecInstruction::Label(top));
    assert(whole.code.subrange(0, s2.code.len() as int) =~= s2.code);
    assert(s1.emit(jump).code.subrange(0, s1.code.len() as int) =~= s1.code);
    assert(whole.code.subrange(0, s1.code.len() as int) =~= s2.code.subrange(
        0,
        s1.emit(jump).code.len() as int,
    ).subrange(0, s1.code.len() as int));
    assert(started.code.subrange(0, at.code.len() as int) =~= at.code);
    assert(whole.code.subrange(0, at.code.len() as int) =~= s1.code.subrange(
        0,
        started.code.len() as int,
    ).subrange(0, at.code.len() as int));
}

} // verus!
