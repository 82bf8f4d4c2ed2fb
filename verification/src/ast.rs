//! The abstract syntax tree the parser builds: a translation unit of
//! function definitions and declarations, C-style declarators, statements
//! and the full expression grammar. Identifier references are indices into
//! the identifier table produced by the scanner; the tree owns its children
//! and never shares nodes.

use vstd::prelude::*;
use crate::token::FloatConst;

verus! {

/// A whole source file: its external declarations in order.
#[derive(Debug)]
pub struct TranslationUnit {
    pub external_declarations: Vec<ExternalDeclaration>,
}

#[derive(Debug)]
pub enum ExternalDeclaration {
    FunctionDeclaration(FunctionDefinition),
    Declaration(Declaration),
}

#[derive(Debug)]
pub struct FunctionDefinition {
    pub declaration_specifier: DeclarationSpecifier,
    pub declarator: Declarator,
    pub compound_statement: CompoundStatement,
}

#[derive(Debug)]
pub struct Declaration {
    pub declaration_specifier: DeclarationSpecifier,
    pub init_declarator_list: InitDeclaratorList,
}

#[derive(Debug)]
pub struct InitDeclaratorList(pub Vec<InitDeclarator>);

#[derive(Debug)]
pub enum DeclarationSpecifier {
    TypeSpecifier(TypeSpecifier),
}

#[derive(Debug, PartialEq, Eq, Structural, Clone, Copy)]
pub enum TypeSpecifier {
    Void,
    Int,
    Double,
}

#[derive(Debug)]
pub struct InitDeclarator {
    pub declarator: Declarator,
    pub initializer: Option<Initializer>,
}

#[derive(Debug)]
pub struct Declarator {
    pub pointer: Pointer,
    pub direct: DirectDeclarator,
}

/// The number of leading `*` of a declarator.
#[derive(Debug, PartialEq, Eq, Structural, Clone, Copy)]
pub struct Pointer(pub usize);

#[derive(Debug)]
pub struct DirectDeclarator {
    pub simple_declarator: SimpleDirectDeclarator,
    pub modifiers: Vec<DirectDeclaratorModifier>,
}

#[derive(Debug)]
pub enum DirectDeclaratorModifier {
    Array(usize),
    Function(Vec<ParameterDeclaration>),
}

#[derive(Debug)]
pub enum SimpleDirectDeclarator {
    Identifier(usize),
    Declarator(Box<Declarator>),
}

#[derive(Debug)]
pub struct ParameterDeclaration {
    pub specifier: DeclarationSpecifier,
    pub declarator: Declarator,
}

#[derive(Debug)]
pub enum Initializer {
    Expression(Expression),
    List(Vec<Initializer>),
}

#[derive(Debug)]
pub enum Statement {
    Compound(CompoundStatement),
    Expression(Option<Expression>),
    Selection(SelectionStatement),
    Iteration(IterationStatement),
    Jump(JumpStatement),
}

#[derive(Debug)]
pub struct CompoundStatement(pub Vec<BlockItem>);

#[derive(Debug)]
pub enum BlockItem {
    Declaration(Declaration),
    Statement(Statement),
}

#[derive(Debug)]
pub struct SelectionStatement {
    pub condition: Expression,
    pub consequent: Box<Statement>,
    pub alternative: Option<Box<Statement>>,
}

#[derive(Debug)]
pub enum IterationStatement {
    While(WhileStatement),
    Do(DoStatement),
    For(ForStatement),
}

#[derive(Debug)]
pub struct WhileStatement {
    pub condition: Expression,
    pub body: Box<Statement>,
}

#[derive(Debug)]
pub struct DoStatement {
    pub body: Box<Statement>,
    pub condition: Expression,
}

#[derive(Debug)]
pub struct ForStatement {
    pub initialization: ForInitialization,
    pub condition: Option<Expression>,
    pub update: Option<Expression>,
    pub body: Box<Statement>,
}

#[derive(Debug)]
pub enum ForInitialization {
    Expression(Option<Expression>),
    Declaration(Declaration),
}

#[derive(Debug)]
pub enum JumpStatement {
    Continue,
    Break,
    Return(Option<Expression>),
}

#[derive(Debug)]
pub enum Expression {
    Assignment(AssignmentExpression),
    Binary(BinaryExpression),
    Unary(UnaryExpression),
    Postfix(PostfixExpression),
    Atom(AtomExpression),
}

#[derive(Debug)]
pub struct AssignmentExpression {
    pub left: Box<Expression>,
    pub right: Box<Expression>,
}

#[derive(Debug)]
pub struct BinaryExpression {
    pub operator: BinaryOperator,
    pub left: Box<Expression>,
    pub right: Box<Expression>,
}

#[derive(Debug, PartialEq, Eq, Structural, Clone, Copy)]
pub enum BinaryOperator {
    Add,
    Minus,
    Multiply,
    DivideBy,
    LogicalAnd,
    LogicalOr,
    And,
    Or,
    Lt,
    Gt,
    Le,
    Ge,
    Eq,
    Neq,
    /// The sequencing comma operator, the lowest precedence tier.
    Comma,
}

#[derive(Debug)]
pub struct UnaryExpression {
    pub operator: UnaryOperator,
    pub operand: Box<Expression>,
}

#[derive(Debug, PartialEq, Eq, Structural, Clone, Copy)]
pub enum UnaryOperator {
    Positive,
    Negative,
    Address,
    Indirection,
    LogicalNot,
    Not,
}

#[derive(Debug)]
pub struct PostfixExpression {
    pub operand: Box<Expression>,
    pub postfix: PostfixExpressionPostfix,
}

#[derive(Debug)]
pub enum PostfixExpressionPostfix {
    Subscript(Box<Expression>),
    Call(Vec<Expression>),
}

#[derive(Debug)]
pub enum AtomExpression {
    Identifier(usize),
    Integer(u32),
    /// A floating literal in the scanner's exact decimal form.
    Floating(FloatConst),
}

} // verus!
