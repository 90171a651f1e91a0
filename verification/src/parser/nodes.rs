use vstd::prelude::*;

verus! {

/// The type of a value or of a declared name. `Function` is the type of a
/// declared function, never of a value.
#[derive(Debug, PartialEq, Eq, Hash)]
pub enum Type {
    I32,
    Pointer(Box<Type>),
    Function(Vec<Type>, Box<Type>),
}

/// The mathematical value of a [`Type`].
pub enum SpecType {
    I32,
    Pointer(Box<SpecType>),
    Function(Seq<SpecType>, Box<SpecType>),
}

impl Type {
    /// The mathematical value of this type.
    pub open spec fn model(&self) -> SpecType
        decreases self,
    {
        match self {
            Type::I32 => SpecType::I32,
            Type::Pointer(inner) => SpecType::Pointer(Box::new(inner.model())),
            Type::Function(params, ret) => SpecType::Function(
                type_models(params@),
                Box::new(ret.model()),
            ),
        }
    }
}

/// The mathematical values of a list of types, in order.
pub open spec fn type_models(types: Seq<Type>) -> Seq<SpecType>
    decreases types,
{
    Seq::new(
        types.len(),
        |i: int|
            if 0 <= i < types.len() {
                types[i].model()
            } else {
                SpecType::I32
            },
    )
}

impl View for Type {
    type V = SpecType;

    open spec fn view(&self) -> SpecType {
        self.model()
    }
}

impl Clone for Type {
    #[verifier::loop_isolation(false)]
    #[verifier::rlimit(100)]
    fn clone(&self) -> (r: Self)
        ensures
            r@ == self@,
        decreases self,
    {
        match self {
            Type::I32 => Type::I32,
            Type::Pointer(inner) => Type::Pointer(Box::new((**inner).clone())),
            Type::Function(params, ret) => {
                let mut copied: Vec<Type> = Vec::new();
                let mut i: usize = 0;
                while i < params.len()
                    invariant
                        i <= params.len(),
                        copied@.len() == i,
                        forall|j: int| 0 <= j < i ==> copied@[j]@ == params@[j]@,
                    decreases params.len() - i,
                {
                    copied.push(params[i].clone());
                    i += 1;
                }
                assert(type_models(copied@) =~= type_models(params@));
                Type::Function(copied, Box::new((**ret).clone()))
            },
        }
    }
}

impl Type {
    /// Tests whether two types are the same type.
    #[verifier::loop_isolation(false)]
    #[verifier::rlimit(100)]
    pub fn same(&self, other: &Type) -> (r: bool)
        ensures
            r == (self@ == other@),
        decreases self,
    {
        match (self, other) {
            (Type::I32, Type::I32) => true,
            (Type::Pointer(a), Type::Pointer(b)) => a.same(b),
            (Type::Function(ps, r), Type::Function(qs, s)) => {
                if ps.len() != qs.len() {
                    assert(type_models(ps@).len() != type_models(qs@).len());
                    return false;
                }
                let mut i: usize = 0;
                while i < ps.len()
                    invariant
                        i <= ps.len(),
                        ps.len() == qs.len(),
                        forall|j: int| 0 <= j < i ==> ps@[j]@ == qs@[j]@,
                    decreases ps.len() - i,
                {
                    if !ps[i].same(&qs[i]) {
                        assert(type_models(ps@)[i as int] != type_models(qs@)[i as int]);
                        return false;
                    }
                    i += 1;
                }
                assert(type_models(ps@) =~= type_models(qs@));
                r.same(s)
            },
            _ => false,
        }
    }
}


/// A binary arithmetic operator of the source language.
#[derive(Debug, Clone, Copy, PartialEq, Eq)]
pub enum Binop {
    Add,
    Sub,
    Mul,
    Div,
    Mod,
}

/// An expression, with the line it starts on and its type. The type is a
/// placeholder (`I32`) until the type checker fills it in.
#[derive(Debug, PartialEq)]
pub struct Expression {
    pub kind: ExpressionKind,
    pub line_started: usize,
    pub ty: Type,
}

#[derive(Debug, PartialEq)]
pub enum ExpressionKind {
    Number(u64),
    Binary(Binop, Box<Expression>, Box<Expression>),
    Variable(String),
    Assign(Box<Expression>, Box<Expression>),
    IsZero(Box<Expression>),
    FunctionCall(String, Vec<Expression>),
    AddressOf(Box<Expression>),
    Dereference(Box<Expression>),
    Subscript(Box<Expression>, Box<Expression>),
}

/// The mathematical value of an [`Expression`].
pub struct SpecExpression {
    pub kind: SpecExpressionKind,
    pub line_started: nat,
    pub ty: SpecType,
}

pub enum SpecExpressionKind {
    Number(u64),
    Binary(Binop, Box<SpecExpression>, Box<SpecExpression>),
    Variable(Seq<char>),
    Assign(Box<SpecExpression>, Box<SpecExpression>),
    IsZero(Box<SpecExpression>),
    FunctionCall(Seq<char>, Seq<SpecExpression>),
    AddressOf(Box<SpecExpression>),
    Dereference(Box<SpecExpression>),
    Subscript(Box<SpecExpression>, Box<SpecExpression>),
}

impl Expression {
    /// The mathematical value of this expression.
    pub open spec fn model(&self) -> SpecExpression
        decreases self,
    {
        SpecExpression {
            kind: self.kind.model(),
            line_started: self.line_started as nat,
            ty: self.ty@,
        }
    }
}

impl ExpressionKind {
    pub open spec fn model(&self) -> SpecExpressionKind
        decreases self,
    {
        match self {
            ExpressionKind::Number(n) => SpecExpressionKind::Number(*n),
            ExpressionKind::Binary(op, left, right) => SpecExpressionKind::Binary(
                *op,
                Box::new(left.model()),
                Box::new(right.model()),
            ),
            ExpressionKind::Variable(name) => SpecExpressionKind::Variable(name@),
            ExpressionKind::Assign(left, right) => SpecExpressionKind::Assign(
                Box::new(left.model()),
                Box::new(right.model()),
            ),
            ExpressionKind::IsZero(inner) => SpecExpressionKind::IsZero(Box::new(inner.model())),
            ExpressionKind::FunctionCall(name, args) => SpecExpressionKind::FunctionCall(
                name@,
                expression_models(args@),
            ),
            ExpressionKind::AddressOf(inner) => SpecExpressionKind::AddressOf(
                Box::new(inner.model()),
            ),
            ExpressionKind::Dereference(inner) => SpecExpressionKind::Dereference(
                Box::new(inner.model()),
            ),
            ExpressionKind::Subscript(base, index) => SpecExpressionKind::Subscript(
                Box::new(base.model()),
                Box::new(index.model()),
            ),
        }
    }
}

/// The mathematical values of a list of expressions, in order.
pub open spec fn expression_models(expressions: Seq<Expression>) -> Seq<SpecExpression>
    decreases expressions,
{
    Seq::new(
        expressions.len(),
        |i: int|
            if 0 <= i < expressions.len() {
                expressions[i].model()
            } else {
                arbitrary()
            },
    )
}

impl View for Expression {
    type V = SpecExpression;

    open spec fn view(&self) -> SpecExpression {
        self.model()
    }
}

/// A declaration of a variable with its stated type and its initial value.
#[derive(Debug)]
pub struct Declaration {
    pub name: String,
    pub ty: Type,
    pub value: Expression,
    pub line_started: usize,
}

/// The mathematical value of a [`Declaration`].
pub struct SpecDeclaration {
    pub name: Seq<char>,
    pub ty: SpecType,
    pub value: SpecExpression,
    pub line_started: nat,
}

impl View for Declaration {
    type V = SpecDeclaration;

    open spec fn view(&self) -> SpecDeclaration {
        SpecDeclaration {
            name: self.name@,
            ty: self.ty@,
            value: self.value@,
            line_started: self.line_started as nat,
        }
    }
}

/// A statement, with the line it starts on.
#[derive(Debug)]
pub struct Statement {
    pub kind: StatementKind,
    pub line_started: usize,
}

#[derive(Debug)]
pub enum StatementKind {
    Return(Expression),
    Block(Block),
    Expression(Expression),
    If(Expression, Box<Statement>, Option<Box<Statement>>),
    While(Expression, Box<Statement>),
}

/// A sequence of declarations and statements between block delimiters.
#[derive(Debug)]
pub struct Block {
    pub items: Vec<BlockItem>,
    pub line_started: usize,
}

#[derive(Debug)]
pub enum BlockItem {
    Statement(Statement),
    Declaration(Declaration),
}

/// The mathematical value of a [`Statement`].
pub struct SpecStatement {
    pub kind: SpecStatementKind,
    pub line_started: nat,
}

pub enum SpecStatementKind {
    Return(SpecExpression),
    Block(SpecBlock),
    Expression(SpecExpression),
    If(SpecExpression, Box<SpecStatement>, Option<Box<SpecStatement>>),
    While(SpecExpression, Box<SpecStatement>),
}

/// The mathematical value of a [`Block`].
pub struct SpecBlock {
    pub items: Seq<SpecBlockItem>,
    pub line_started: nat,
}

pub enum SpecBlockItem {
    Statement(SpecStatement),
    Declaration(SpecDeclaration),
}

impl Statement {
    /// The mathematical value of this statement.
    pub open spec fn model(&self) -> SpecStatement
        decreases self,
    {
        SpecStatement { kind: self.kind.model(), line_started: self.line_started as nat }
    }
}

impl StatementKind {
    pub open spec fn model(&self) -> SpecStatementKind
        decreases self,
    {
        match self {
            StatementKind::Return(value) => SpecStatementKind::Return(value@),
            StatementKind::Block(block) => SpecStatementKind::Block(block.model()),
            StatementKind::Expression(value) => SpecStatementKind::Expression(value@),
            StatementKind::If(condition, then_branch, else_branch) => SpecStatementKind::If(
                condition@,
                Box::new(then_branch.model()),
                match else_branch {
                    Some(branch) => Some(Box::new(branch.model())),
                    None => None,
                },
            ),
            StatementKind::While(condition, body) => SpecStatementKind::While(
                condition@,
                Box::new(body.model()),
            ),
        }
    }
}

impl Block {
    /// The mathematical value of this block.
    pub open spec fn model(&self) -> SpecBlock
        decreases self,
    {
        SpecBlock { items: item_models(self.items@), line_started: self.line_started as nat }
    }
}

impl BlockItem {
    pub open spec fn model(&self) -> SpecBlockItem
        decreases self,
    {
        match self {
            BlockItem::Statement(statement) => SpecBlockItem::Statement(statement.model()),
            BlockItem::Declaration(declaration) => SpecBlockItem::Declaration(declaration@),
        }
    }
}

/// The mathematical values of a list of block items, in order.
pub open spec fn item_models(items: Seq<BlockItem>) -> Seq<SpecBlockItem>
    decreases items,
{
    Seq::new(
        items.len(),
        |i: int|
            if 0 <= i < items.len() {
                items[i].model()
            } else {
                arbitrary()
            },
    )
}

impl View for Statement {
    type V = SpecStatement;

    open spec fn view(&self) -> SpecStatement {
        self.model()
    }
}

impl View for Block {
    type V = SpecBlock;

    open spec fn view(&self) -> SpecBlock {
        self.model()
    }
}

impl View for BlockItem {
    type V = SpecBlockItem;

    open spec fn view(&self) -> SpecBlockItem {
        self.model()
    }
}

/// A function: its name, its parameters in order, its return type and, unless
/// it is only declared, its body.
#[derive(Debug)]
pub struct FunctionDefinition {
    pub name: String,
    pub params: Vec<(String, Type)>,
    pub return_type: Type,
    pub body: Option<Block>,
    pub line_started: usize,
}

/// The mathematical value of a [`FunctionDefinition`].
pub struct SpecFunctionDefinition {
    pub name: Seq<char>,
    pub params: Seq<(Seq<char>, SpecType)>,
    pub return_type: SpecType,
    pub body: Option<SpecBlock>,
    pub line_started: nat,
}

/// The mathematical values of a list of named, typed parameters.
pub open spec fn param_models(params: Seq<(String, Type)>) -> Seq<(Seq<char>, SpecType)> {
    Seq::new(params.len(), |i: int| (params[i].0@, params[i].1@))
}

impl View for FunctionDefinition {
    type V = SpecFunctionDefinition;

    open spec fn view(&self) -> SpecFunctionDefinition {
        SpecFunctionDefinition {
            name: self.name@,
            params: param_models(self.params@),
            return_type: self.return_type@,
            body: match self.body {
                Some(block) => Some(block@),
                None => None,
            },
            line_started: self.line_started as nat,
        }
    }
}

/// A whole program: its functions in source order.
#[derive(Debug)]
pub struct Program {
    pub functions: Vec<FunctionDefinition>,
}

/// The mathematical value of a [`Program`].
pub struct SpecProgram {
    pub functions: Seq<SpecFunctionDefinition>,
}

/// The mathematical values of a list of functions, in order.
pub open spec fn function_models(functions: Seq<FunctionDefinition>) -> Seq<
    SpecFunctionDefinition,
> {
    Seq::new(functions.len(), |i: int| functions[i]@)
}

impl View for Program {
    type V = SpecProgram;

    open spec fn view(&self) -> SpecProgram {
        SpecProgram { functions: function_models(self.functions@) }
    }
}

/// The function type that a definition with these parameters and this return
/// type declares.
pub open spec fn signature(params: Seq<(Seq<char>, SpecType)>, return_type: SpecType) -> SpecType {
    SpecType::Function(Seq::new(params.len(), |i: int| params[i].1), Box::new(return_type))
}

/// Builds the function type that a definition with these parameters and
/// this return type declares.
pub fn signature_of(params: &Vec<(String, Type)>, return_type: &Type) -> (r: Type)
    ensures
        r@ == signature(param_models(params@), return_type@),
{
    let mut types: Vec<Type> = Vec::new();
    let mut i: usize = 0;
    while i < params.len()
        invariant
            i <= params.len(),
            types@.len() == i,
            forall|j: int| 0 <= j < i ==> types@[j]@ == params@[j].1@,
        decreases params.len() - i,
    {
        types.push(params[i].1.clone());
        i += 1;
    }
    let r = Type::Function(types, Box::new(return_type.clone()));
    assert(type_models(types@) =~= Seq::new(
        param_models(params@).len(),
        |i: int| param_models(params@)[i].1,
    ));
    r
}

} // verus!
