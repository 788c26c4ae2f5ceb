//! Expressions and types of the source, as plain values: what the
//! expression formatter reads of a parsed unit.
use vstd::prelude::*;
use crate::model::{Comment, CommentedElement, IdentifierPath};

verus! {

/// Where a reference-typed value lives.
#[derive(Debug, Clone, Copy, PartialEq, Eq)]
pub enum StorageLocation {
    Memory,
    Storage,
    Calldata,
}

/// Function and variable visibility.
#[derive(Debug, Clone, Copy, PartialEq, Eq)]
pub enum Visibility {
    Public,
    Private,
    Internal,
    External,
}

/// Function state mutability.
#[derive(Debug, Clone, Copy, PartialEq, Eq)]
pub enum Mutability {
    Pure,
    View,
    Constant,
    Payable,
}

/// A typed parameter: type, data location and name.
#[derive(Debug, PartialEq)]
pub struct TypedParameter {
    /// The type expression.
    pub ty: Expression,
    /// The data location, if written.
    pub storage: Option<StorageLocation>,
    /// The name, if any.
    pub name: Option<String>,
}

/// An attribute of a function type.
#[derive(Debug, PartialEq)]
pub enum FunctionAttribute {
    Visibility(Visibility),
    Mutability(Mutability),
    Virtual,
    Immutable,
    /// `override`, with the contracts it names.
    Override(Vec<IdentifierPath>),
    /// A base constructor or modifier invocation, with its arguments if given.
    BaseOrModifier(IdentifierPath, Option<Vec<Expression>>),
    /// An attribute the parser could not read.
    Error,
}

/// An elementary or composite type.
#[derive(Debug, PartialEq)]
pub enum SolType {
    Address,
    AddressPayable,
    Payable,
    Bool,
    String,
    /// `intN`, with its width in bits.
    Int(u16),
    /// `uintN`, with its width in bits.
    Uint(u16),
    /// `bytesN`, with its width in bytes.
    Bytes(u8),
    Rational,
    /// `bytes`
    DynamicBytes,
    /// `mapping(key name => value name)`
    Mapping { key: Box<Expression>, key_name: Option<String>, value: Box<Expression>, value_name: Option<String> },
    /// `function (params) attributes outputs (outputs)`; a `None` entry is a
    /// parameter the parser could not read.
    Function { params: Vec<Option<TypedParameter>>, attributes: Vec<FunctionAttribute>, outputs: Vec<Option<TypedParameter>> },
}

/// An operator with one operand.
#[derive(Debug, Clone, Copy, PartialEq, Eq)]
pub enum UnaryOp {
    PreIncrement,
    PostIncrement,
    PreDecrement,
    PostDecrement,
    Not,
    BitwiseNot,
    UnaryPlus,
    Negate,
    New,
    Delete,
}

/// An operator with two operands.
#[derive(Debug, Clone, Copy, PartialEq, Eq)]
pub enum BinaryOp {
    Power,
    Multiply,
    Divide,
    Modulo,
    Add,
    Subtract,
    ShiftLeft,
    ShiftRight,
    Less,
    More,
    LessEqual,
    MoreEqual,
    Equal,
    NotEqual,
    BitwiseAnd,
    BitwiseXor,
    BitwiseOr,
    And,
    Or,
    Assign,
    AssignOr,
    AssignAnd,
    AssignXor,
    AssignShiftLeft,
    AssignShiftRight,
    AssignAdd,
    AssignSubtract,
    AssignMultiply,
    AssignDivide,
    AssignModulo,
}

/// A named argument `name: value`.
#[derive(Debug, PartialEq)]
pub struct NamedArgument {
    pub name: String,
    pub expr: Expression,
}

/// An expression.
#[derive(Debug, PartialEq)]
pub enum Expression {
    /// A type used as an expression.
    Type(SolType),
    /// A name.
    Variable(String),
    BoolLiteral(bool),
    /// A decimal number: digits, exponent part and unit as the parser split
    /// them, and the literal as written in the source when that is at hand.
    NumberLiteral { number: String, exponent: String, unit: Option<String>, source: Option<String> },
    /// A rational number: integer part, fractional part and exponent part.
    RationalNumberLiteral { integer: String, fraction: String, exponent: String },
    HexNumberLiteral(String),
    /// Adjacent string literals, each without its quotes.
    StringLiteral(Vec<String>),
    /// Adjacent hex literals, each without `hex` and quotes.
    HexLiteral(Vec<String>),
    AddressLiteral(String),
    ArrayLiteral(Vec<Expression>),
    /// A parenthesised list, as in tuple declarations; `None` is an empty slot.
    List(Vec<Option<TypedParameter>>),
    /// `array[index]`, or `array[]` without index.
    ArraySubscript(Box<Expression>, Option<Box<Expression>>),
    /// `array[start:end]`
    ArraySlice(Box<Expression>, Option<Box<Expression>>, Option<Box<Expression>>),
    /// `base.member`
    MemberAccess(Box<Expression>, String),
    /// `callee(args)`
    FunctionCall(Box<Expression>, Vec<Expression>),
    /// `callee({name: value, ...})`
    NamedFunctionCall(Box<Expression>, Vec<NamedArgument>),
    /// `callee{name: value, ...}`: the call options, or `None` when the block
    /// holds anything but options.
    FunctionCallBlock(Box<Expression>, Option<Vec<NamedArgument>>),
    Unary(UnaryOp, Box<Expression>),
    Binary(BinaryOp, Box<Expression>, Box<Expression>),
    /// `condition ? if_true : if_false`
    ConditionalOperator(Box<Expression>, Box<Expression>, Box<Expression>),
    /// `(inner)`
    Parenthesis(Box<Expression>),
}

/// A Yul identifier with its optional type.
#[derive(Debug, PartialEq)]
pub struct YulTypedIdentifier {
    pub name: String,
    pub ty: Option<String>,
}

/// A Yul function call.
#[derive(Debug, PartialEq)]
pub struct YulFunctionCall {
    pub id: String,
    pub arguments: Vec<YulExpression>,
}

/// A Yul expression; literals hold their text without quotes.
#[derive(Debug, PartialEq)]
pub enum YulExpression {
    BoolLiteral(bool),
    NumberLiteral(String),
    StringLiteral(String),
    HexNumberLiteral(String),
    HexStringLiteral(String),
    Variable(String),
    FunctionCall(YulFunctionCall),
    /// `expr.suffix`
    SuffixAccess(Box<YulExpression>, String),
}

/// A block of Yul statements.
#[derive(Debug, PartialEq)]
pub struct YulBlock {
    pub statements: Vec<YulStatement>,
}

/// A `case` or the `default` of a Yul switch.
#[derive(Debug, PartialEq)]
pub enum YulSwitchOption {
    Case(YulExpression, YulBlock),
    Default(YulBlock),
}

/// A Yul switch.
#[derive(Debug, PartialEq)]
pub struct YulSwitch {
    pub condition: YulExpression,
    pub cases: Vec<YulSwitchOption>,
    pub default: Option<YulSwitchOption>,
}

/// A Yul for loop.
#[derive(Debug, PartialEq)]
pub struct YulFor {
    pub init_block: YulBlock,
    pub condition: YulExpression,
    pub post_block: YulBlock,
    pub execution_block: YulBlock,
}

/// A Yul function definition.
#[derive(Debug, PartialEq)]
pub struct YulFunctionDefinition {
    pub id: String,
    pub params: Vec<YulTypedIdentifier>,
    pub outputs: Vec<YulTypedIdentifier>,
    pub body: YulBlock,
}

/// A Yul statement.
#[derive(Debug, PartialEq)]
pub enum YulStatement {
    /// `a, b := value`
    Assign(Vec<YulExpression>, YulExpression),
    /// `let a, b := value`
    VariableDeclaration(Vec<YulTypedIdentifier>, Option<YulExpression>),
    FunctionCall(YulFunctionCall),
    If(YulExpression, YulBlock),
    For(Box<YulFor>),
    Switch(YulSwitch),
    Leave,
    Break,
    Continue,
    Block(YulBlock),
    FunctionDefinition(Box<YulFunctionDefinition>),
    /// A statement the parser could not read.
    Error,
}

/// A local variable declaration: type, data location and name.
#[derive(Debug, PartialEq)]
pub struct VariableDeclaration {
    pub ty: Expression,
    pub storage: Option<StorageLocation>,
    pub name: Option<String>,
}

/// A `catch` clause of a `try` statement.
#[derive(Debug, PartialEq)]
pub enum CatchClause {
    /// `catch (param) { ... }`, the parameter optional.
    Simple(Option<TypedParameter>, Statement),
    /// `catch Name(param) { ... }`
    Named(String, TypedParameter, Statement),
}

/// A statement.
#[derive(Debug, PartialEq)]
pub enum Statement {
    Block(Vec<Statement>),
    /// `assembly "dialect" ("flag", ...) { ... }`; dialect and flags without
    /// their quotes.
    Assembly { dialect: Option<String>, flags: Option<Vec<String>>, block: YulBlock },
    /// Call options `{name: value, ...}`.
    Args(Vec<NamedArgument>),
    If(Expression, Box<Statement>, Option<Box<Statement>>),
    While(Expression, Box<Statement>),
    Expression(Expression),
    VariableDefinition(VariableDeclaration, Option<Expression>),
    /// `for (init; condition; update) body`
    For(Option<Box<Statement>>, Option<Expression>, Option<Expression>, Option<Box<Statement>>),
    DoWhile(Box<Statement>, Expression),
    Continue,
    Break,
    Return(Option<Expression>),
    Revert(Option<IdentifierPath>, Vec<Expression>),
    RevertNamedArgs(Option<IdentifierPath>, Vec<NamedArgument>),
    Emit(Expression),
    /// `try expression returns (params) { ... } catch ...`: the call, the
    /// return parameters and the catch clauses (the success block is not
    /// part of the layout).
    Try(Expression, Vec<Option<TypedParameter>>, Vec<CatchClause>),
    /// A statement the parser could not read.
    Error,
}

/// A statement with the comments around it; a block, or an `if` whose
/// then-part is a block, also holds its statements with their comments.
#[derive(Debug, PartialEq)]
pub struct CommentedStatement {
    pub statement: Statement,
    pub leading_comments: Vec<Comment>,
    pub trailing_comments: Vec<Comment>,
    pub nested_statements: Option<Vec<CommentedStatement>>,
}

/// The kind of a function definition.
#[derive(Debug, Clone, Copy, PartialEq, Eq)]
pub enum FunctionTy {
    Constructor,
    Function,
    Fallback,
    Receive,
    Modifier,
}

/// The header of a function definition and whether it has a body.
#[derive(Debug, PartialEq)]
pub struct FunctionDefinition {
    pub ty: FunctionTy,
    pub name: Option<String>,
    /// The parameters; `None` is one the parser could not read.
    pub params: Vec<Option<TypedParameter>>,
    pub attributes: Vec<FunctionAttribute>,
    /// The return parameters.
    pub outputs: Vec<Option<TypedParameter>>,
    pub has_body: bool,
}

/// A function definition with its comments and the statements of its body.
pub struct CollectedFunction {
    pub definition: CommentedElement<FunctionDefinition>,
    pub body_statements: Vec<CommentedStatement>,
}

/// How a binary operator is spelled in Solidity source.
pub open spec fn binary_token(op: BinaryOp) -> Seq<char> {
    match op {
        BinaryOp::Power => "**"@,
        BinaryOp::Multiply => "*"@,
        BinaryOp::Divide => "/"@,
        BinaryOp::Modulo => "%"@,
        BinaryOp::Add => "+"@,
        BinaryOp::Subtract => "-"@,
        BinaryOp::ShiftLeft => "<<"@,
        BinaryOp::ShiftRight => ">>"@,
        BinaryOp::Less => "<"@,
        BinaryOp::More => ">"@,
        BinaryOp::LessEqual => "<="@,
        BinaryOp::MoreEqual => ">="@,
        BinaryOp::Equal => "=="@,
        BinaryOp::NotEqual => "!="@,
        BinaryOp::BitwiseAnd => "&"@,
        BinaryOp::BitwiseXor => "^"@,
        BinaryOp::BitwiseOr => "|"@,
        BinaryOp::And => "&&"@,
        BinaryOp::Or => "||"@,
        BinaryOp::Assign => "="@,
        BinaryOp::AssignOr => "|="@,
        BinaryOp::AssignAnd => "&="@,
        BinaryOp::AssignXor => "^="@,
        BinaryOp::AssignShiftLeft => "<<="@,
        BinaryOp::AssignShiftRight => ">>="@,
        BinaryOp::AssignAdd => "+="@,
        BinaryOp::AssignSubtract => "-="@,
        BinaryOp::AssignMultiply => "*="@,
        BinaryOp::AssignDivide => "/="@,
        BinaryOp::AssignModulo => "%="@,
    }
}

/// The keyword of a data location in Solidity source.
pub open spec fn storage_keyword(s: StorageLocation) -> Seq<char> {
    match s {
        StorageLocation::Memory => "memory"@,
        StorageLocation::Storage => "storage"@,
        StorageLocation::Calldata => "calldata"@,
    }
}

/// The keyword of a visibility in Solidity source.
pub open spec fn visibility_keyword(v: Visibility) -> Seq<char> {
    match v {
        Visibility::Public => "public"@,
        Visibility::Private => "private"@,
        Visibility::Internal => "internal"@,
        Visibility::External => "external"@,
    }
}

/// Whether values of a type live in a data location (memory, storage or
/// calldata): strings, dynamic byte arrays, arrays and user-defined types
/// named by an identifier.
pub open spec fn is_reference_type(ty: Expression) -> bool {
    ||| ty == Expression::Type(SolType::String)
    ||| ty == Expression::Type(SolType::DynamicBytes)
    ||| ty is ArraySubscript
    ||| ty is Variable
}

/// The keyword a jump statement is written with: `continue` or `break`.
pub open spec fn jump_keyword(s: Statement) -> Option<Seq<char>> {
    match s {
        Statement::Continue => Some("continue"@),
        Statement::Break => Some("break"@),
        _ => None,
    }
}

/// Reads an operator back from its spelling.
pub open spec fn binary_op_of(t: Seq<char>) -> Option<BinaryOp> {
    if t == "**"@ { Some(BinaryOp::Power) }
    else if t == "*"@ { Some(BinaryOp::Multiply) }
    else if t == "/"@ { Some(BinaryOp::Divide) }
    else if t == "%"@ { Some(BinaryOp::Modulo) }
    else if t == "+"@ { Some(BinaryOp::Add) }
    else if t == "-"@ { Some(BinaryOp::Subtract) }
    else if t == "<<"@ { Some(BinaryOp::ShiftLeft) }
    else if t == ">>"@ { Some(BinaryOp::ShiftRight) }
    else if t == "<"@ { Some(BinaryOp::Less) }
    else if t == ">"@ { Some(BinaryOp::More) }
    else if t == "<="@ { Some(BinaryOp::LessEqual) }
    else if t == ">="@ { Some(BinaryOp::MoreEqual) }
    else if t == "=="@ { Some(BinaryOp::Equal) }
    else if t == "!="@ { Some(BinaryOp::NotEqual) }
    else if t == "&"@ { Some(BinaryOp::BitwiseAnd) }
    else if t == "^"@ { Some(BinaryOp::BitwiseXor) }
    else if t == "|"@ { Some(BinaryOp::BitwiseOr) }
    else if t == "&&"@ { Some(BinaryOp::And) }
    else if t == "||"@ { Some(BinaryOp::Or) }
    else if t == "="@ { Some(BinaryOp::Assign) }
    else if t == "|="@ { Some(BinaryOp::AssignOr) }
    else if t == "&="@ { Some(BinaryOp::AssignAnd) }
    else if t == "^="@ { Some(BinaryOp::AssignXor) }
    else if t == "<<="@ { Some(BinaryOp::AssignShiftLeft) }
    else if t == ">>="@ { Some(BinaryOp::AssignShiftRight) }
    else if t == "+="@ { Some(BinaryOp::AssignAdd) }
    else if t == "-="@ { Some(BinaryOp::AssignSubtract) }
    else if t == "*="@ { Some(BinaryOp::AssignMultiply) }
    else if t == "/="@ { Some(BinaryOp::AssignDivide) }
    else if t == "%="@ { Some(BinaryOp::AssignModulo) }
    else { None }
}

/// Each operator's spelling reads back as that operator, so distinct
/// operators are spelled differently.
pub proof fn law_binary_tokens_distinct(a: BinaryOp, b: BinaryOp)
    ensures
        binary_op_of(binary_token(a)) == Some(a),
        a != b ==> binary_token(a) != binary_token(b),
{
    lemma_binary_token_reads_back(a);
    lemma_binary_token_reads_back(b);
}

/// An operator's spelling reads back as the operator.
proof fn lemma_binary_token_reads_back(a: BinaryOp)
    ensures
        binary_op_of(binary_token(a)) == Some(a),
{
    match a {
        BinaryOp::Power => lemma_token_0(),
        BinaryOp::Multiply => lemma_token_1(),
        BinaryOp::Divide => lemma_token_2(),
        BinaryOp::Modulo => lemma_token_3(),
        BinaryOp::Add => lemma_token_4(),
        BinaryOp::Subtract => lemma_token_5(),
        BinaryOp::ShiftLeft => lemma_token_6(),
        BinaryOp::ShiftRight => lemma_token_7(),
        BinaryOp::Less => lemma_token_8(),
        BinaryOp::More => lemma_token_9(),
        BinaryOp::LessEqual => lemma_token_10(),
        BinaryOp::MoreEqual => lemma_token_11(),
        BinaryOp::Equal => lemma_token_12(),
        BinaryOp::NotEqual => lemma_token_13(),
        BinaryOp::BitwiseAnd => lemma_token_14(),
        BinaryOp::BitwiseXor => lemma_token_15(),
        BinaryOp::BitwiseOr => lemma_token_16(),
        BinaryOp::And => lemma_token_17(),
        BinaryOp::Or => lemma_token_18(),
        BinaryOp::Assign => lemma_token_19(),
        BinaryOp::AssignOr => lemma_token_20(),
        BinaryOp::AssignAnd => lemma_token_21(),
        BinaryOp::AssignXor => lemma_token_22(),
        BinaryOp::AssignShiftLeft => lemma_token_23(),
        BinaryOp::AssignShiftRight => lemma_token_24(),
        BinaryOp::AssignAdd => lemma_token_25(),
        BinaryOp::AssignSubtract => lemma_token_26(),
        BinaryOp::AssignMultiply => lemma_token_27(),
        BinaryOp::AssignDivide => lemma_token_28(),
        BinaryOp::AssignModulo => lemma_token_29(),
    }
}

/// The spelling of `Power` reads back as `Power`.
proof fn lemma_token_0()
    ensures
        binary_op_of(binary_token(BinaryOp::Power)) == Some(BinaryOp::Power),
{
    reveal_strlit("**");
}

/// The spelling of `Multiply` reads back as `Multiply`.
proof fn lemma_token_1()
    ensures
        binary_op_of(binary_token(BinaryOp::Multiply)) == Some(BinaryOp::Multiply),
{
    reveal_strlit("**");
    reveal_strlit("*");
    assert("*"@.len() != "**"@.len());
    assert("*"@ != "**"@);
}

/// The spelling of `Divide` reads back as `Divide`.
proof fn lemma_token_2()
    ensures
        binary_op_of(binary_token(BinaryOp::Divide)) == Some(BinaryOp::Divide),
{
    reveal_strlit("**");
    reveal_strlit("*");
    reveal_strlit("/");
    assert("/"@.len() != "**"@.len());
    assert("/"@ != "**"@);
    assert("/"@[0] != "*"@[0]);
    assert("/"@ != "*"@);
}

/// The spelling of `Modulo` reads back as `Modulo`.
proof fn lemma_token_3()
    ensures
        binary_op_of(binary_token(BinaryOp::Modulo)) == Some(BinaryOp::Modulo),
{
    reveal_strlit("**");
    reveal_strlit("*");
    reveal_strlit("/");
    reveal_strlit("%");
    assert("%"@.len() != "**"@.len());
    assert("%"@ != "**"@);
    assert("%"@[0] != "*"@[0]);
    assert("%"@ != "*"@);
    assert("%"@[0] != "/"@[0]);
    assert("%"@ != "/"@);
}

/// The spelling of `Add` reads back as `Add`.
proof fn lemma_token_4()
    ensures
        binary_op_of(binary_token(BinaryOp::Add)) == Some(BinaryOp::Add),
{
    reveal_strlit("**");
    reveal_strlit("*");
    reveal_strlit("/");
    reveal_strlit("%");
    reveal_strlit("+");
    assert("+"@.len() != "**"@.len());
    assert("+"@ != "**"@);
    assert("+"@[0] != "*"@[0]);
    assert("+"@ != "*"@);
    assert("+"@[0] != "/"@[0]);
    assert("+"@ != "/"@);
    assert("+"@[0] != "%"@[0]);
    assert("+"@ != "%"@);
}

/// The spelling of `Subtract` reads back as `Subtract`.
proof fn lemma_token_5()
    ensures
        binary_op_of(binary_token(BinaryOp::Subtract)) == Some(BinaryOp::Subtract),
{
    reveal_strlit("**");
    reveal_strlit("*");
    reveal_strlit("/");
    reveal_strlit("%");
    reveal_strlit("+");
    reveal_strlit("-");
    assert("-"@.len() != "**"@.len());
    assert("-"@ != "**"@);
    assert("-"@[0] != "*"@[0]);
    assert("-"@ != "*"@);
    assert("-"@[0] != "/"@[0]);
    assert("-"@ != "/"@);
    assert("-"@[0] != "%"@[0]);
    assert("-"@ != "%"@);
    assert("-"@[0] != "+"@[0]);
    assert("-"@ != "+"@);
}

/// The spelling of `ShiftLeft` reads back as `ShiftLeft`.
proof fn lemma_token_6()
    ensures
        binary_op_of(binary_token(BinaryOp::ShiftLeft)) == Some(BinaryOp::ShiftLeft),
{
    reveal_strlit("**");
    reveal_strlit("*");
    reveal_strlit("/");
    reveal_strlit("%");
    reveal_strlit("+");
    reveal_strlit("-");
    reveal_strlit("<<");
    assert("<<"@[0] != "**"@[0]);
    assert("<<"@ != "**"@);
    assert("<<"@.len() != "*"@.len());
    assert("<<"@ != "*"@);
    assert("<<"@.len() != "/"@.len());
    assert("<<"@ != "/"@);
    assert("<<"@.len() != "%"@.len());
    assert("<<"@ != "%"@);
    assert("<<"@.len() != "+"@.len());
    assert("<<"@ != "+"@);
    assert("<<"@.len() != "-"@.len());
    assert("<<"@ != "-"@);
}

/// The spelling of `ShiftRight` reads back as `ShiftRight`.
proof fn lemma_token_7()
    ensures
        binary_op_of(binary_token(BinaryOp::ShiftRight)) == Some(BinaryOp::ShiftRight),
{
    reveal_strlit("**");
    reveal_strlit("*");
    reveal_strlit("/");
    reveal_strlit("%");
    reveal_strlit("+");
    reveal_strlit("-");
    reveal_strlit("<<");
    reveal_strlit(">>");
    assert(">>"@[0] != "**"@[0]);
    assert(">>"@ != "**"@);
    assert(">>"@.len() != "*"@.len());
    assert(">>"@ != "*"@);
    assert(">>"@.len() != "/"@.len());
    assert(">>"@ != "/"@);
    assert(">>"@.len() != "%"@.len());
    assert(">>"@ != "%"@);
    assert(">>"@.len() != "+"@.len());
    assert(">>"@ != "+"@);
    assert(">>"@.len() != "-"@.len());
    assert(">>"@ != "-"@);
    assert(">>"@[0] != "<<"@[0]);
    assert(">>"@ != "<<"@);
}

/// The spelling of `Less` reads back as `Less`.
proof fn lemma_token_8()
    ensures
        binary_op_of(binary_token(BinaryOp::Less)) == Some(BinaryOp::Less),
{
    reveal_strlit("**");
    reveal_strlit("*");
    reveal_strlit("/");
    reveal_strlit("%");
    reveal_strlit("+");
    reveal_strlit("-");
    reveal_strlit("<<");
    reveal_strlit(">>");
    reveal_strlit("<");
    assert("<"@.len() != "**"@.len());
    assert("<"@ != "**"@);
    assert("<"@[0] != "*"@[0]);
    assert("<"@ != "*"@);
    assert("<"@[0] != "/"@[0]);
    assert("<"@ != "/"@);
    assert("<"@[0] != "%"@[0]);
    assert("<"@ != "%"@);
    assert("<"@[0] != "+"@[0]);
    assert("<"@ != "+"@);
    assert("<"@[0] != "-"@[0]);
    assert("<"@ != "-"@);
    assert("<"@.len() != "<<"@.len());
    assert("<"@ != "<<"@);
    assert("<"@.len() != ">>"@.len());
    assert("<"@ != ">>"@);
}

/// The spelling of `More` reads back as `More`.
proof fn lemma_token_9()
    ensures
        binary_op_of(binary_token(BinaryOp::More)) == Some(BinaryOp::More),
{
    reveal_strlit("**");
    reveal_strlit("*");
    reveal_strlit("/");
    reveal_strlit("%");
    reveal_strlit("+");
    reveal_strlit("-");
    reveal_strlit("<<");
    reveal_strlit(">>");
    reveal_strlit("<");
    reveal_strlit(">");
    assert(">"@.len() != "**"@.len());
    assert(">"@ != "**"@);
    assert(">"@[0] != "*"@[0]);
    assert(">"@ != "*"@);
    assert(">"@[0] != "/"@[0]);
    assert(">"@ != "/"@);
    assert(">"@[0] != "%"@[0]);
    assert(">"@ != "%"@);
    assert(">"@[0] != "+"@[0]);
    assert(">"@ != "+"@);
    assert(">"@[0] != "-"@[0]);
    assert(">"@ != "-"@);
    assert(">"@.len() != "<<"@.len());
    assert(">"@ != "<<"@);
    assert(">"@.len() != ">>"@.len());
    assert(">"@ != ">>"@);
    assert(">"@[0] != "<"@[0]);
    assert(">"@ != "<"@);
}

/// The spelling of `LessEqual` reads back as `LessEqual`.
proof fn lemma_token_10()
    ensures
        binary_op_of(binary_token(BinaryOp::LessEqual)) == Some(BinaryOp::LessEqual),
{
    reveal_strlit("**");
    reveal_strlit("*");
    reveal_strlit("/");
    reveal_strlit("%");
    reveal_strlit("+");
    reveal_strlit("-");
    reveal_strlit("<<");
    reveal_strlit(">>");
    reveal_strlit("<");
    reveal_strlit(">");
    reveal_strlit("<=");
    assert("<="@[0] != "**"@[0]);
    assert("<="@ != "**"@);
    assert("<="@.len() != "*"@.len());
    assert("<="@ != "*"@);
    assert("<="@.len() != "/"@.len());
    assert("<="@ != "/"@);
    assert("<="@.len() != "%"@.len());
    assert("<="@ != "%"@);
    assert("<="@.len() != "+"@.len());
    assert("<="@ != "+"@);
    assert("<="@.len() != "-"@.len());
    assert("<="@ != "-"@);
    assert("<="@[1] != "<<"@[1]);
    assert("<="@ != "<<"@);
    assert("<="@[0] != ">>"@[0]);
    assert("<="@ != ">>"@);
    assert("<="@.len() != "<"@.len());
    assert("<="@ != "<"@);
    assert("<="@.len() != ">"@.len());
    assert("<="@ != ">"@);
}

/// The spelling of `MoreEqual` reads back as `MoreEqual`.
proof fn lemma_token_11()
    ensures
        binary_op_of(binary_token(BinaryOp::MoreEqual)) == Some(BinaryOp::MoreEqual),
{
    reveal_strlit("**");
    reveal_strlit("*");
    reveal_strlit("/");
    reveal_strlit("%");
    reveal_strlit("+");
    reveal_strlit("-");
    reveal_strlit("<<");
    reveal_strlit(">>");
    reveal_strlit("<");
    reveal_strlit(">");
    reveal_strlit("<=");
    reveal_strlit(">=");
    assert(">="@[0] != "**"@[0]);
    assert(">="@ != "**"@);
    assert(">="@.len() != "*"@.len());
    assert(">="@ != "*"@);
    assert(">="@.len() != "/"@.len());
    assert(">="@ != "/"@);
    assert(">="@.len() != "%"@.len());
    assert(">="@ != "%"@);
    assert(">="@.len() != "+"@.len());
    assert(">="@ != "+"@);
    assert(">="@.len() != "-"@.len());
    assert(">="@ != "-"@);
    assert(">="@[0] != "<<"@[0]);
    assert(">="@ != "<<"@);
    assert(">="@[1] != ">>"@[1]);
    assert(">="@ != ">>"@);
    assert(">="@.len() != "<"@.len());
    assert(">="@ != "<"@);
    assert(">="@.len() != ">"@.len());
    assert(">="@ != ">"@);
    assert(">="@[0] != "<="@[0]);
    assert(">="@ != "<="@);
}

/// The spelling of `Equal` reads back as `Equal`.
proof fn lemma_token_12()
    ensures
        binary_op_of(binary_token(BinaryOp::Equal)) == Some(BinaryOp::Equal),
{
    reveal_strlit("**");
    reveal_strlit("*");
    reveal_strlit("/");
    reveal_strlit("%");
    reveal_strlit("+");
    reveal_strlit("-");
    reveal_strlit("<<");
    reveal_strlit(">>");
    reveal_strlit("<");
    reveal_strlit(">");
    reveal_strlit("<=");
    reveal_strlit(">=");
    reveal_strlit("==");
    assert("=="@[0] != "**"@[0]);
    assert("=="@ != "**"@);
    assert("=="@.len() != "*"@.len());
    assert("=="@ != "*"@);
    assert("=="@.len() != "/"@.len());
    assert("=="@ != "/"@);
    assert("=="@.len() != "%"@.len());
    assert("=="@ != "%"@);
    assert("=="@.len() != "+"@.len());
    assert("=="@ != "+"@);
    assert("=="@.len() != "-"@.len());
    assert("=="@ != "-"@);
    assert("=="@[0] != "<<"@[0]);
    assert("=="@ != "<<"@);
    assert("=="@[0] != ">>"@[0]);
    assert("=="@ != ">>"@);
    assert("=="@.len() != "<"@.len());
    assert("=="@ != "<"@);
    assert("=="@.len() != ">"@.len());
    assert("=="@ != ">"@);
    assert("=="@[0] != "<="@[0]);
    assert("=="@ != "<="@);
    assert("=="@[0] != ">="@[0]);
    assert("=="@ != ">="@);
}

/// The spelling of `NotEqual` reads back as `NotEqual`.
proof fn lemma_token_13()
    ensures
        binary_op_of(binary_token(BinaryOp::NotEqual)) == Some(BinaryOp::NotEqual),
{
    reveal_strlit("**");
    reveal_strlit("*");
    reveal_strlit("/");
    reveal_strlit("%");
    reveal_strlit("+");
    reveal_strlit("-");
    reveal_strlit("<<");
    reveal_strlit(">>");
    reveal_strlit("<");
    reveal_strlit(">");
    reveal_strlit("<=");
    reveal_strlit(">=");
    reveal_strlit("==");
    reveal_strlit("!=");
    assert("!="@[0] != "**"@[0]);
    assert("!="@ != "**"@);
    assert("!="@.len() != "*"@.len());
    assert("!="@ != "*"@);
    assert("!="@.len() != "/"@.len());
    assert("!="@ != "/"@);
    assert("!="@.len() != "%"@.len());
    assert("!="@ != "%"@);
    assert("!="@.len() != "+"@.len());
    assert("!="@ != "+"@);
    assert("!="@.len() != "-"@.len());
    assert("!="@ != "-"@);
    assert("!="@[0] != "<<"@[0]);
    assert("!="@ != "<<"@);
    assert("!="@[0] != ">>"@[0]);
    assert("!="@ != ">>"@);
    assert("!="@.len() != "<"@.len());
    assert("!="@ != "<"@);
    assert("!="@.len() != ">"@.len());
    assert("!="@ != ">"@);
    assert("!="@[0] != "<="@[0]);
    assert("!="@ != "<="@);
    assert("!="@[0] != ">="@[0]);
    assert("!="@ != ">="@);
    assert("!="@[0] != "=="@[0]);
    assert("!="@ != "=="@);
}

/// The spelling of `BitwiseAnd` reads back as `BitwiseAnd`.
proof fn lemma_token_14()
    ensures
        binary_op_of(binary_token(BinaryOp::BitwiseAnd)) == Some(BinaryOp::BitwiseAnd),
{
    reveal_strlit("**");
    reveal_strlit("*");
    reveal_strlit("/");
    reveal_strlit("%");
    reveal_strlit("+");
    reveal_strlit("-");
    reveal_strlit("<<");
    reveal_strlit(">>");
    reveal_strlit("<");
    reveal_strlit(">");
    reveal_strlit("<=");
    reveal_strlit(">=");
    reveal_strlit("==");
    reveal_strlit("!=");
    reveal_strlit("&");
    assert("&"@.len() != "**"@.len());
    assert("&"@ != "**"@);
    assert("&"@[0] != "*"@[0]);
    assert("&"@ != "*"@);
    assert("&"@[0] != "/"@[0]);
    assert("&"@ != "/"@);
    assert("&"@[0] != "%"@[0]);
    assert("&"@ != "%"@);
    assert("&"@[0] != "+"@[0]);
    assert("&"@ != "+"@);
    assert("&"@[0] != "-"@[0]);
    assert("&"@ != "-"@);
    assert("&"@.len() != "<<"@.len());
    assert("&"@ != "<<"@);
    assert("&"@.len() != ">>"@.len());
    assert("&"@ != ">>"@);
    assert("&"@[0] != "<"@[0]);
    assert("&"@ != "<"@);
    assert("&"@[0] != ">"@[0]);
    assert("&"@ != ">"@);
    assert("&"@.len() != "<="@.len());
    assert("&"@ != "<="@);
    assert("&"@.len() != ">="@.len());
    assert("&"@ != ">="@);
    assert("&"@.len() != "=="@.len());
    assert("&"@ != "=="@);
    assert("&"@.len() != "!="@.len());
    assert("&"@ != "!="@);
}

/// The spelling of `BitwiseXor` reads back as `BitwiseXor`.
proof fn lemma_token_15()
    ensures
        binary_op_of(binary_token(BinaryOp::BitwiseXor)) == Some(BinaryOp::BitwiseXor),
{
    reveal_strlit("**");
    reveal_strlit("*");
    reveal_strlit("/");
    reveal_strlit("%");
    reveal_strlit("+");
    reveal_strlit("-");
    reveal_strlit("<<");
    reveal_strlit(">>");
    reveal_strlit("<");
    reveal_strlit(">");
    reveal_strlit("<=");
    reveal_strlit(">=");
    reveal_strlit("==");
    reveal_strlit("!=");
    reveal_strlit("&");
    reveal_strlit("^");
    assert("^"@.len() != "**"@.len());
    assert("^"@ != "**"@);
    assert("^"@[0] != "*"@[0]);
    assert("^"@ != "*"@);
    assert("^"@[0] != "/"@[0]);
    assert("^"@ != "/"@);
    assert("^"@[0] != "%"@[0]);
    assert("^"@ != "%"@);
    assert("^"@[0] != "+"@[0]);
    assert("^"@ != "+"@);
    assert("^"@[0] != "-"@[0]);
    assert("^"@ != "-"@);
    assert("^"@.len() != "<<"@.len());
    assert("^"@ != "<<"@);
    assert("^"@.len() != ">>"@.len());
    assert("^"@ != ">>"@);
    assert("^"@[0] != "<"@[0]);
    assert("^"@ != "<"@);
    assert("^"@[0] != ">"@[0]);
    assert("^"@ != ">"@);
    assert("^"@.len() != "<="@.len());
    assert("^"@ != "<="@);
    assert("^"@.len() != ">="@.len());
    assert("^"@ != ">="@);
    assert("^"@.len() != "=="@.len());
    assert("^"@ != "=="@);
    assert("^"@.len() != "!="@.len());
    assert("^"@ != "!="@);
    assert("^"@[0] != "&"@[0]);
    assert("^"@ != "&"@);
}

/// The spelling of `BitwiseOr` reads back as `BitwiseOr`.
proof fn lemma_token_16()
    ensures
        binary_op_of(binary_token(BinaryOp::BitwiseOr)) == Some(BinaryOp::BitwiseOr),
{
    reveal_strlit("**");
    reveal_strlit("*");
    reveal_strlit("/");
    reveal_strlit("%");
    reveal_strlit("+");
    reveal_strlit("-");
    reveal_strlit("<<");
    reveal_strlit(">>");
    reveal_strlit("<");
    reveal_strlit(">");
    reveal_strlit("<=");
    reveal_strlit(">=");
    reveal_strlit("==");
    reveal_strlit("!=");
    reveal_strlit("&");
    reveal_strlit("^");
    reveal_strlit("|");
    assert("|"@.len() != "**"@.len());
    assert("|"@ != "**"@);
    assert("|"@[0] != "*"@[0]);
    assert("|"@ != "*"@);
    assert("|"@[0] != "/"@[0]);
    assert("|"@ != "/"@);
    assert("|"@[0] != "%"@[0]);
    assert("|"@ != "%"@);
    assert("|"@[0] != "+"@[0]);
    assert("|"@ != "+"@);
    assert("|"@[0] != "-"@[0]);
    assert("|"@ != "-"@);
    assert("|"@.len() != "<<"@.len());
    assert("|"@ != "<<"@);
    assert("|"@.len() != ">>"@.len());
    assert("|"@ != ">>"@);
    assert("|"@[0] != "<"@[0]);
    assert("|"@ != "<"@);
    assert("|"@[0] != ">"@[0]);
    assert("|"@ != ">"@);
    assert("|"@.len() != "<="@.len());
    assert("|"@ != "<="@);
    assert("|"@.len() != ">="@.len());
    assert("|"@ != ">="@);
    assert("|"@.len() != "=="@.len());
    assert("|"@ != "=="@);
    assert("|"@.len() != "!="@.len());
    assert("|"@ != "!="@);
    assert("|"@[0] != "&"@[0]);
    assert("|"@ != "&"@);
    assert("|"@[0] != "^"@[0]);
    assert("|"@ != "^"@);
}

/// The spelling of `And` reads back as `And`.
proof fn lemma_token_17()
    ensures
        binary_op_of(binary_token(BinaryOp::And)) == Some(BinaryOp::And),
{
    reveal_strlit("**");
    reveal_strlit("*");
    reveal_strlit("/");
    reveal_strlit("%");
    reveal_strlit("+");
    reveal_strlit("-");
    reveal_strlit("<<");
    reveal_strlit(">>");
    reveal_strlit("<");
    reveal_strlit(">");
    reveal_strlit("<=");
    reveal_strlit(">=");
    reveal_strlit("==");
    reveal_strlit("!=");
    reveal_strlit("&");
    reveal_strlit("^");
    reveal_strlit("|");
    reveal_strlit("&&");
    assert("&&"@[0] != "**"@[0]);
    assert("&&"@ != "**"@);
    assert("&&"@.len() != "*"@.len());
    assert("&&"@ != "*"@);
    assert("&&"@.len() != "/"@.len());
    assert("&&"@ != "/"@);
    assert("&&"@.len() != "%"@.len());
    assert("&&"@ != "%"@);
    assert("&&"@.len() != "+"@.len());
    assert("&&"@ != "+"@);
    assert("&&"@.len() != "-"@.len());
    assert("&&"@ != "-"@);
    assert("&&"@[0] != "<<"@[0]);
    assert("&&"@ != "<<"@);
    assert("&&"@[0] != ">>"@[0]);
    assert("&&"@ != ">>"@);
    assert("&&"@.len() != "<"@.len());
    assert("&&"@ != "<"@);
    assert("&&"@.len() != ">"@.len());
    assert("&&"@ != ">"@);
    assert("&&"@[0] != "<="@[0]);
    assert("&&"@ != "<="@);
    assert("&&"@[0] != ">="@[0]);
    assert("&&"@ != ">="@);
    assert("&&"@[0] != "=="@[0]);
    assert("&&"@ != "=="@);
    assert("&&"@[0] != "!="@[0]);
    assert("&&"@ != "!="@);
    assert("&&"@.len() != "&"@.len());
    assert("&&"@ != "&"@);
    assert("&&"@.len() != "^"@.len());
    assert("&&"@ != "^"@);
    assert("&&"@.len() != "|"@.len());
    assert("&&"@ != "|"@);
}

/// The spelling of `Or` reads back as `Or`.
proof fn lemma_token_18()
    ensures
        binary_op_of(binary_token(BinaryOp::Or)) == Some(BinaryOp::Or),
{
    reveal_strlit("**");
    reveal_strlit("*");
    reveal_strlit("/");
    reveal_strlit("%");
    reveal_strlit("+");
    reveal_strlit("-");
    reveal_strlit("<<");
    reveal_strlit(">>");
    reveal_strlit("<");
    reveal_strlit(">");
    reveal_strlit("<=");
    reveal_strlit(">=");
    reveal_strlit("==");
    reveal_strlit("!=");
    reveal_strlit("&");
    reveal_strlit("^");
    reveal_strlit("|");
    reveal_strlit("&&");
    reveal_strlit("||");
    assert("||"@[0] != "**"@[0]);
    assert("||"@ != "**"@);
    assert("||"@.len() != "*"@.len());
    assert("||"@ != "*"@);
    assert("||"@.len() != "/"@.len());
    assert("||"@ != "/"@);
    assert("||"@.len() != "%"@.len());
    assert("||"@ != "%"@);
    assert("||"@.len() != "+"@.len());
    assert("||"@ != "+"@);
    assert("||"@.len() != "-"@.len());
    assert("||"@ != "-"@);
    assert("||"@[0] != "<<"@[0]);
    assert("||"@ != "<<"@);
    assert("||"@[0] != ">>"@[0]);
    assert("||"@ != ">>"@);
    assert("||"@.len() != "<"@.len());
    assert("||"@ != "<"@);
    assert("||"@.len() != ">"@.len());
    assert("||"@ != ">"@);
    assert("||"@[0] != "<="@[0]);
    assert("||"@ != "<="@);
    assert("||"@[0] != ">="@[0]);
    assert("||"@ != ">="@);
    assert("||"@[0] != "=="@[0]);
    assert("||"@ != "=="@);
    assert("||"@[0] != "!="@[0]);
    assert("||"@ != "!="@);
    assert("||"@.len() != "&"@.len());
    assert("||"@ != "&"@);
    assert("||"@.len() != "^"@.len());
    assert("||"@ != "^"@);
    assert("||"@.len() != "|"@.len());
    assert("||"@ != "|"@);
    assert("||"@[0] != "&&"@[0]);
    assert("||"@ != "&&"@);
}

/// The spelling of `Assign` reads back as `Assign`.
proof fn lemma_token_19()
    ensures
        binary_op_of(binary_token(BinaryOp::Assign)) == Some(BinaryOp::Assign),
{
    reveal_strlit("**");
    reveal_strlit("*");
    reveal_strlit("/");
    reveal_strlit("%");
    reveal_strlit("+");
    reveal_strlit("-");
    reveal_strlit("<<");
    reveal_strlit(">>");
    reveal_strlit("<");
    reveal_strlit(">");
    reveal_strlit("<=");
    reveal_strlit(">=");
    reveal_strlit("==");
    reveal_strlit("!=");
    reveal_strlit("&");
    reveal_strlit("^");
    reveal_strlit("|");
    reveal_strlit("&&");
    reveal_strlit("||");
    reveal_strlit("=");
    assert("="@.len() != "**"@.len());
    assert("="@ != "**"@);
    assert("="@[0] != "*"@[0]);
    assert("="@ != "*"@);
    assert("="@[0] != "/"@[0]);
    assert("="@ != "/"@);
    assert("="@[0] != "%"@[0]);
    assert("="@ != "%"@);
    assert("="@[0] != "+"@[0]);
    assert("="@ != "+"@);
    assert("="@[0] != "-"@[0]);
    assert("="@ != "-"@);
    assert("="@.len() != "<<"@.len());
    assert("="@ != "<<"@);
    assert("="@.len() != ">>"@.len());
    assert("="@ != ">>"@);
    assert("="@[0] != "<"@[0]);
    assert("="@ != "<"@);
    assert("="@[0] != ">"@[0]);
    assert("="@ != ">"@);
    assert("="@.len() != "<="@.len());
    assert("="@ != "<="@);
    assert("="@.len() != ">="@.len());
    assert("="@ != ">="@);
    assert("="@.len() != "=="@.len());
    assert("="@ != "=="@);
    assert("="@.len() != "!="@.len());
    assert("="@ != "!="@);
    assert("="@[0] != "&"@[0]);
    assert("="@ != "&"@);
    assert("="@[0] != "^"@[0]);
    assert("="@ != "^"@);
    assert("="@[0] != "|"@[0]);
    assert("="@ != "|"@);
    assert("="@.len() != "&&"@.len());
    assert("="@ != "&&"@);
    assert("="@.len() != "||"@.len());
    assert("="@ != "||"@);
}

/// The spelling of `AssignOr` reads back as `AssignOr`.
proof fn lemma_token_20()
    ensures
        binary_op_of(binary_token(BinaryOp::AssignOr)) == Some(BinaryOp::AssignOr),
{
    reveal_strlit("**");
    reveal_strlit("*");
    reveal_strlit("/");
    reveal_strlit("%");
    reveal_strlit("+");
    reveal_strlit("-");
    reveal_strlit("<<");
    reveal_strlit(">>");
    reveal_strlit("<");
    reveal_strlit(">");
    reveal_strlit("<=");
    reveal_strlit(">=");
    reveal_strlit("==");
    reveal_strlit("!=");
    reveal_strlit("&");
    reveal_strlit("^");
    reveal_strlit("|");
    reveal_strlit("&&");
    reveal_strlit("||");
    reveal_strlit("=");
    reveal_strlit("|=");
    assert("|="@[0] != "**"@[0]);
    assert("|="@ != "**"@);
    assert("|="@.len() != "*"@.len());
    assert("|="@ != "*"@);
    assert("|="@.len() != "/"@.len());
    assert("|="@ != "/"@);
    assert("|="@.len() != "%"@.len());
    assert("|="@ != "%"@);
    assert("|="@.len() != "+"@.len());
    assert("|="@ != "+"@);
    assert("|="@.len() != "-"@.len());
    assert("|="@ != "-"@);
    assert("|="@[0] != "<<"@[0]);
    assert("|="@ != "<<"@);
    assert("|="@[0] != ">>"@[0]);
    assert("|="@ != ">>"@);
    assert("|="@.len() != "<"@.len());
    assert("|="@ != "<"@);
    assert("|="@.len() != ">"@.len());
    assert("|="@ != ">"@);
    assert("|="@[0] != "<="@[0]);
    assert("|="@ != "<="@);
    assert("|="@[0] != ">="@[0]);
    assert("|="@ != ">="@);
    assert("|="@[0] != "=="@[0]);
    assert("|="@ != "=="@);
    assert("|="@[0] != "!="@[0]);
    assert("|="@ != "!="@);
    assert("|="@.len() != "&"@.len());
    assert("|="@ != "&"@);
    assert("|="@.len() != "^"@.len());
    assert("|="@ != "^"@);
    assert("|="@.len() != "|"@.len());
    assert("|="@ != "|"@);
    assert("|="@[0] != "&&"@[0]);
    assert("|="@ != "&&"@);
    assert("|="@[1] != "||"@[1]);
    assert("|="@ != "||"@);
    assert("|="@.len() != "="@.len());
    assert("|="@ != "="@);
}

/// The spelling of `AssignAnd` reads back as `AssignAnd`.
proof fn lemma_token_21()
    ensures
        binary_op_of(binary_token(BinaryOp::AssignAnd)) == Some(BinaryOp::AssignAnd),
{
    reveal_strlit("**");
    reveal_strlit("*");
    reveal_strlit("/");
    reveal_strlit("%");
    reveal_strlit("+");
    reveal_strlit("-");
    reveal_strlit("<<");
    reveal_strlit(">>");
    reveal_strlit("<");
    reveal_strlit(">");
    reveal_strlit("<=");
    reveal_strlit(">=");
    reveal_strlit("==");
    reveal_strlit("!=");
    reveal_strlit("&");
    reveal_strlit("^");
    reveal_strlit("|");
    reveal_strlit("&&");
    reveal_strlit("||");
    reveal_strlit("=");
    reveal_strlit("|=");
    reveal_strlit("&=");
    assert("&="@[0] != "**"@[0]);
    assert("&="@ != "**"@);
    assert("&="@.len() != "*"@.len());
    assert("&="@ != "*"@);
    assert("&="@.len() != "/"@.len());
    assert("&="@ != "/"@);
    assert("&="@.len() != "%"@.len());
    assert("&="@ != "%"@);
    assert("&="@.len() != "+"@.len());
    assert("&="@ != "+"@);
    assert("&="@.len() != "-"@.len());
    assert("&="@ != "-"@);
    assert("&="@[0] != "<<"@[0]);
    assert("&="@ != "<<"@);
    assert("&="@[0] != ">>"@[0]);
    assert("&="@ != ">>"@);
    assert("&="@.len() != "<"@.len());
    assert("&="@ != "<"@);
    assert("&="@.len() != ">"@.len());
    assert("&="@ != ">"@);
    assert("&="@[0] != "<="@[0]);
    assert("&="@ != "<="@);
    assert("&="@[0] != ">="@[0]);
    assert("&="@ != ">="@);
    assert("&="@[0] != "=="@[0]);
    assert("&="@ != "=="@);
    assert("&="@[0] != "!="@[0]);
    assert("&="@ != "!="@);
    assert("&="@.len() != "&"@.len());
    assert("&="@ != "&"@);
    assert("&="@.len() != "^"@.len());
    assert("&="@ != "^"@);
    assert("&="@.len() != "|"@.len());
    assert("&="@ != "|"@);
    assert("&="@[1] != "&&"@[1]);
    assert("&="@ != "&&"@);
    assert("&="@[0] != "||"@[0]);
    assert("&="@ != "||"@);
    assert("&="@.len() != "="@.len());
    assert("&="@ != "="@);
    assert("&="@[0] != "|="@[0]);
    assert("&="@ != "|="@);
}

/// The spelling of `AssignXor` reads back as `AssignXor`.
proof fn lemma_token_22()
    ensures
        binary_op_of(binary_token(BinaryOp::AssignXor)) == Some(BinaryOp::AssignXor),
{
    reveal_strlit("**");
    reveal_strlit("*");
    reveal_strlit("/");
    reveal_strlit("%");
    reveal_strlit("+");
    reveal_strlit("-");
    reveal_strlit("<<");
    reveal_strlit(">>");
    reveal_strlit("<");
    reveal_strlit(">");
    reveal_strlit("<=");
    reveal_strlit(">=");
    reveal_strlit("==");
    reveal_strlit("!=");
    reveal_strlit("&");
    reveal_strlit("^");
    reveal_strlit("|");
    reveal_strlit("&&");
    reveal_strlit("||");
    reveal_strlit("=");
    reveal_strlit("|=");
    reveal_strlit("&=");
    reveal_strlit("^=");
    assert("^="@[0] != "**"@[0]);
    assert("^="@ != "**"@);
    assert("^="@.len() != "*"@.len());
    assert("^="@ != "*"@);
    assert("^="@.len() != "/"@.len());
    assert("^="@ != "/"@);
    assert("^="@.len() != "%"@.len());
    assert("^="@ != "%"@);
    assert("^="@.len() != "+"@.len());
    assert("^="@ != "+"@);
    assert("^="@.len() != "-"@.len());
    assert("^="@ != "-"@);
    assert("^="@[0] != "<<"@[0]);
    assert("^="@ != "<<"@);
    assert("^="@[0] != ">>"@[0]);
    assert("^="@ != ">>"@);
    assert("^="@.len() != "<"@.len());
    assert("^="@ != "<"@);
    assert("^="@.len() != ">"@.len());
    assert("^="@ != ">"@);
    assert("^="@[0] != "<="@[0]);
    assert("^="@ != "<="@);
    assert("^="@[0] != ">="@[0]);
    assert("^="@ != ">="@);
    assert("^="@[0] != "=="@[0]);
    assert("^="@ != "=="@);
    assert("^="@[0] != "!="@[0]);
    assert("^="@ != "!="@);
    assert("^="@.len() != "&"@.len());
    assert("^="@ != "&"@);
    assert("^="@.len() != "^"@.len());
    assert("^="@ != "^"@);
    assert("^="@.len() != "|"@.len());
    assert("^="@ != "|"@);
    assert("^="@[0] != "&&"@[0]);
    assert("^="@ != "&&"@);
    assert("^="@[0] != "||"@[0]);
    assert("^="@ != "||"@);
    assert("^="@.len() != "="@.len());
    assert("^="@ != "="@);
    assert("^="@[0] != "|="@[0]);
    assert("^="@ != "|="@);
    assert("^="@[0] != "&="@[0]);
    assert("^="@ != "&="@);
}

/// The spelling of `AssignShiftLeft` reads back as `AssignShiftLeft`.
proof fn lemma_token_23()
    ensures
        binary_op_of(binary_token(BinaryOp::AssignShiftLeft)) == Some(BinaryOp::AssignShiftLeft),
{
    reveal_strlit("**");
    reveal_strlit("*");
    reveal_strlit("/");
    reveal_strlit("%");
    reveal_strlit("+");
    reveal_strlit("-");
    reveal_strlit("<<");
    reveal_strlit(">>");
    reveal_strlit("<");
    reveal_strlit(">");
    reveal_strlit("<=");
    reveal_strlit(">=");
    reveal_strlit("==");
    reveal_strlit("!=");
    reveal_strlit("&");
    reveal_strlit("^");
    reveal_strlit("|");
    reveal_strlit("&&");
    reveal_strlit("||");
    reveal_strlit("=");
    reveal_strlit("|=");
    reveal_strlit("&=");
    reveal_strlit("^=");
    reveal_strlit("<<=");
    assert("<<="@.len() != "**"@.len());
    assert("<<="@ != "**"@);
    assert("<<="@.len() != "*"@.len());
    assert("<<="@ != "*"@);
    assert("<<="@.len() != "/"@.len());
    assert("<<="@ != "/"@);
    assert("<<="@.len() != "%"@.len());
    assert("<<="@ != "%"@);
    assert("<<="@.len() != "+"@.len());
    assert("<<="@ != "+"@);
    assert("<<="@.len() != "-"@.len());
    assert("<<="@ != "-"@);
    assert("<<="@.len() != "<<"@.len());
    assert("<<="@ != "<<"@);
    assert("<<="@.len() != ">>"@.len());
    assert("<<="@ != ">>"@);
    assert("<<="@.len() != "<"@.len());
    assert("<<="@ != "<"@);
    assert("<<="@.len() != ">"@.len());
    assert("<<="@ != ">"@);
    assert("<<="@.len() != "<="@.len());
    assert("<<="@ != "<="@);
    assert("<<="@.len() != ">="@.len());
    assert("<<="@ != ">="@);
    assert("<<="@.len() != "=="@.len());
    assert("<<="@ != "=="@);
    assert("<<="@.len() != "!="@.len());
    assert("<<="@ != "!="@);
    assert("<<="@.len() != "&"@.len());
    assert("<<="@ != "&"@);
    assert("<<="@.len() != "^"@.len());
    assert("<<="@ != "^"@);
    assert("<<="@.len() != "|"@.len());
    assert("<<="@ != "|"@);
    assert("<<="@.len() != "&&"@.len());
    assert("<<="@ != "&&"@);
    assert("<<="@.len() != "||"@.len());
    assert("<<="@ != "||"@);
    assert("<<="@.len() != "="@.len());
    assert("<<="@ != "="@);
    assert("<<="@.len() != "|="@.len());
    assert("<<="@ != "|="@);
    assert("<<="@.len() != "&="@.len());
    assert("<<="@ != "&="@);
    assert("<<="@.len() != "^="@.len());
    assert("<<="@ != "^="@);
}

/// The spelling of `AssignShiftRight` reads back as `AssignShiftRight`.
proof fn lemma_token_24()
    ensures
        binary_op_of(binary_token(BinaryOp::AssignShiftRight)) == Some(BinaryOp::AssignShiftRight),
{
    reveal_strlit("**");
    reveal_strlit("*");
    reveal_strlit("/");
    reveal_strlit("%");
    reveal_strlit("+");
    reveal_strlit("-");
    reveal_strlit("<<");
    reveal_strlit(">>");
    reveal_strlit("<");
    reveal_strlit(">");
    reveal_strlit("<=");
    reveal_strlit(">=");
    reveal_strlit("==");
    reveal_strlit("!=");
    reveal_strlit("&");
    reveal_strlit("^");
    reveal_strlit("|");
    reveal_strlit("&&");
    reveal_strlit("||");
    reveal_strlit("=");
    reveal_strlit("|=");
    reveal_strlit("&=");
    reveal_strlit("^=");
    reveal_strlit("<<=");
    reveal_strlit(">>=");
    assert(">>="@.len() != "**"@.len());
    assert(">>="@ != "**"@);
    assert(">>="@.len() != "*"@.len());
    assert(">>="@ != "*"@);
    assert(">>="@.len() != "/"@.len());
    assert(">>="@ != "/"@);
    assert(">>="@.len() != "%"@.len());
    assert(">>="@ != "%"@);
    assert(">>="@.len() != "+"@.len());
    assert(">>="@ != "+"@);
    assert(">>="@.len() != "-"@.len());
    assert(">>="@ != "-"@);
    assert(">>="@.len() != "<<"@.len());
    assert(">>="@ != "<<"@);
    assert(">>="@.len() != ">>"@.len());
    assert(">>="@ != ">>"@);
    assert(">>="@.len() != "<"@.len());
    assert(">>="@ != "<"@);
    assert(">>="@.len() != ">"@.len());
    assert(">>="@ != ">"@);
    assert(">>="@.len() != "<="@.len());
    assert(">>="@ != "<="@);
    assert(">>="@.len() != ">="@.len());
    assert(">>="@ != ">="@);
    assert(">>="@.len() != "=="@.len());
    assert(">>="@ != "=="@);
    assert(">>="@.len() != "!="@.len());
    assert(">>="@ != "!="@);
    assert(">>="@.len() != "&"@.len());
    assert(">>="@ != "&"@);
    assert(">>="@.len() != "^"@.len());
    assert(">>="@ != "^"@);
    assert(">>="@.len() != "|"@.len());
    assert(">>="@ != "|"@);
    assert(">>="@.len() != "&&"@.len());
    assert(">>="@ != "&&"@);
    assert(">>="@.len() != "||"@.len());
    assert(">>="@ != "||"@);
    assert(">>="@.len() != "="@.len());
    assert(">>="@ != "="@);
    assert(">>="@.len() != "|="@.len());
    assert(">>="@ != "|="@);
    assert(">>="@.len() != "&="@.len());
    assert(">>="@ != "&="@);
    assert(">>="@.len() != "^="@.len());
    assert(">>="@ != "^="@);
    assert(">>="@[0] != "<<="@[0]);
    assert(">>="@ != "<<="@);
}

/// The spelling of `AssignAdd` reads back as `AssignAdd`.
proof fn lemma_token_25()
    ensures
        binary_op_of(binary_token(BinaryOp::AssignAdd)) == Some(BinaryOp::AssignAdd),
{
    reveal_strlit("**");
    reveal_strlit("*");
    reveal_strlit("/");
    reveal_strlit("%");
    reveal_strlit("+");
    reveal_strlit("-");
    reveal_strlit("<<");
    reveal_strlit(">>");
    reveal_strlit("<");
    reveal_strlit(">");
    reveal_strlit("<=");
    reveal_strlit(">=");
    reveal_strlit("==");
    reveal_strlit("!=");
    reveal_strlit("&");
    reveal_strlit("^");
    reveal_strlit("|");
    reveal_strlit("&&");
    reveal_strlit("||");
    reveal_strlit("=");
    reveal_strlit("|=");
    reveal_strlit("&=");
    reveal_strlit("^=");
    reveal_strlit("<<=");
    reveal_strlit(">>=");
    reveal_strlit("+=");
    assert("+="@[0] != "**"@[0]);
    assert("+="@ != "**"@);
    assert("+="@.len() != "*"@.len());
    assert("+="@ != "*"@);
    assert("+="@.len() != "/"@.len());
    assert("+="@ != "/"@);
    assert("+="@.len() != "%"@.len());
    assert("+="@ != "%"@);
    assert("+="@.len() != "+"@.len());
    assert("+="@ != "+"@);
    assert("+="@.len() != "-"@.len());
    assert("+="@ != "-"@);
    assert("+="@[0] != "<<"@[0]);
    assert("+="@ != "<<"@);
    assert("+="@[0] != ">>"@[0]);
    assert("+="@ != ">>"@);
    assert("+="@.len() != "<"@.len());
    assert("+="@ != "<"@);
    assert("+="@.len() != ">"@.len());
    assert("+="@ != ">"@);
    assert("+="@[0] != "<="@[0]);
    assert("+="@ != "<="@);
    assert("+="@[0] != ">="@[0]);
    assert("+="@ != ">="@);
    assert("+="@[0] != "=="@[0]);
    assert("+="@ != "=="@);
    assert("+="@[0] != "!="@[0]);
    assert("+="@ != "!="@);
    assert("+="@.len() != "&"@.len());
    assert("+="@ != "&"@);
    assert("+="@.len() != "^"@.len());
    assert("+="@ != "^"@);
    assert("+="@.len() != "|"@.len());
    assert("+="@ != "|"@);
    assert("+="@[0] != "&&"@[0]);
    assert("+="@ != "&&"@);
    assert("+="@[0] != "||"@[0]);
    assert("+="@ != "||"@);
    assert("+="@.len() != "="@.len());
    assert("+="@ != "="@);
    assert("+="@[0] != "|="@[0]);
    assert("+="@ != "|="@);
    assert("+="@[0] != "&="@[0]);
    assert("+="@ != "&="@);
    assert("+="@[0] != "^="@[0]);
    assert("+="@ != "^="@);
    assert("+="@.len() != "<<="@.len());
    assert("+="@ != "<<="@);
    assert("+="@.len() != ">>="@.len());
    assert("+="@ != ">>="@);
}

/// The spelling of `AssignSubtract` reads back as `AssignSubtract`.
proof fn lemma_token_26()
    ensures
        binary_op_of(binary_token(BinaryOp::AssignSubtract)) == Some(BinaryOp::AssignSubtract),
{
    reveal_strlit("**");
    reveal_strlit("*");
    reveal_strlit("/");
    reveal_strlit("%");
    reveal_strlit("+");
    reveal_strlit("-");
    reveal_strlit("<<");
    reveal_strlit(">>");
    reveal_strlit("<");
    reveal_strlit(">");
    reveal_strlit("<=");
    reveal_strlit(">=");
    reveal_strlit("==");
    reveal_strlit("!=");
    reveal_strlit("&");
    reveal_strlit("^");
    reveal_strlit("|");
    reveal_strlit("&&");
    reveal_strlit("||");
    reveal_strlit("=");
    reveal_strlit("|=");
    reveal_strlit("&=");
    reveal_strlit("^=");
    reveal_strlit("<<=");
    reveal_strlit(">>=");
    reveal_strlit("+=");
    reveal_strlit("-=");
    assert("-="@[0] != "**"@[0]);
    assert("-="@ != "**"@);
    assert("-="@.len() != "*"@.len());
    assert("-="@ != "*"@);
    assert("-="@.len() != "/"@.len());
    assert("-="@ != "/"@);
    assert("-="@.len() != "%"@.len());
    assert("-="@ != "%"@);
    assert("-="@.len() != "+"@.len());
    assert("-="@ != "+"@);
    assert("-="@.len() != "-"@.len());
    assert("-="@ != "-"@);
    assert("-="@[0] != "<<"@[0]);
    assert("-="@ != "<<"@);
    assert("-="@[0] != ">>"@[0]);
    assert("-="@ != ">>"@);
    assert("-="@.len() != "<"@.len());
    assert("-="@ != "<"@);
    assert("-="@.len() != ">"@.len());
    assert("-="@ != ">"@);
    assert("-="@[0] != "<="@[0]);
    assert("-="@ != "<="@);
    assert("-="@[0] != ">="@[0]);
    assert("-="@ != ">="@);
    assert("-="@[0] != "=="@[0]);
    assert("-="@ != "=="@);
    assert("-="@[0] != "!="@[0]);
    assert("-="@ != "!="@);
    assert("-="@.len() != "&"@.len());
    assert("-="@ != "&"@);
    assert("-="@.len() != "^"@.len());
    assert("-="@ != "^"@);
    assert("-="@.len() != "|"@.len());
    assert("-="@ != "|"@);
    assert("-="@[0] != "&&"@[0]);
    assert("-="@ != "&&"@);
    assert("-="@[0] != "||"@[0]);
    assert("-="@ != "||"@);
    assert("-="@.len() != "="@.len());
    assert("-="@ != "="@);
    assert("-="@[0] != "|="@[0]);
    assert("-="@ != "|="@);
    assert("-="@[0] != "&="@[0]);
    assert("-="@ != "&="@);
    assert("-="@[0] != "^="@[0]);
    assert("-="@ != "^="@);
    assert("-="@.len() != "<<="@.len());
    assert("-="@ != "<<="@);
    assert("-="@.len() != ">>="@.len());
    assert("-="@ != ">>="@);
    assert("-="@[0] != "+="@[0]);
    assert("-="@ != "+="@);
}

/// The spelling of `AssignMultiply` reads back as `AssignMultiply`.
proof fn lemma_token_27()
    ensures
        binary_op_of(binary_token(BinaryOp::AssignMultiply)) == Some(BinaryOp::AssignMultiply),
{
    reveal_strlit("**");
    reveal_strlit("*");
    reveal_strlit("/");
    reveal_strlit("%");
    reveal_strlit("+");
    reveal_strlit("-");
    reveal_strlit("<<");
    reveal_strlit(">>");
    reveal_strlit("<");
    reveal_strlit(">");
    reveal_strlit("<=");
    reveal_strlit(">=");
    reveal_strlit("==");
    reveal_strlit("!=");
    reveal_strlit("&");
    reveal_strlit("^");
    reveal_strlit("|");
    reveal_strlit("&&");
    reveal_strlit("||");
    reveal_strlit("=");
    reveal_strlit("|=");
    reveal_strlit("&=");
    reveal_strlit("^=");
    reveal_strlit("<<=");
    reveal_strlit(">>=");
    reveal_strlit("+=");
    reveal_strlit("-=");
    reveal_strlit("*=");
    assert("*="@[1] != "**"@[1]);
    assert("*="@ != "**"@);
    assert("*="@.len() != "*"@.len());
    assert("*="@ != "*"@);
    assert("*="@.len() != "/"@.len());
    assert("*="@ != "/"@);
    assert("*="@.len() != "%"@.len());
    assert("*="@ != "%"@);
    assert("*="@.len() != "+"@.len());
    assert("*="@ != "+"@);
    assert("*="@.len() != "-"@.len());
    assert("*="@ != "-"@);
    assert("*="@[0] != "<<"@[0]);
    assert("*="@ != "<<"@);
    assert("*="@[0] != ">>"@[0]);
    assert("*="@ != ">>"@);
    assert("*="@.len() != "<"@.len());
    assert("*="@ != "<"@);
    assert("*="@.len() != ">"@.len());
    assert("*="@ != ">"@);
    assert("*="@[0] != "<="@[0]);
    assert("*="@ != "<="@);
    assert("*="@[0] != ">="@[0]);
    assert("*="@ != ">="@);
    assert("*="@[0] != "=="@[0]);
    assert("*="@ != "=="@);
    assert("*="@[0] != "!="@[0]);
    assert("*="@ != "!="@);
    assert("*="@.len() != "&"@.len());
    assert("*="@ != "&"@);
    assert("*="@.len() != "^"@.len());
    assert("*="@ != "^"@);
    assert("*="@.len() != "|"@.len());
    assert("*="@ != "|"@);
    assert("*="@[0] != "&&"@[0]);
    assert("*="@ != "&&"@);
    assert("*="@[0] != "||"@[0]);
    assert("*="@ != "||"@);
    assert("*="@.len() != "="@.len());
    assert("*="@ != "="@);
    assert("*="@[0] != "|="@[0]);
    assert("*="@ != "|="@);
    assert("*="@[0] != "&="@[0]);
    assert("*="@ != "&="@);
    assert("*="@[0] != "^="@[0]);
    assert("*="@ != "^="@);
    assert("*="@.len() != "<<="@.len());
    assert("*="@ != "<<="@);
    assert("*="@.len() != ">>="@.len());
    assert("*="@ != ">>="@);
    assert("*="@[0] != "+="@[0]);
    assert("*="@ != "+="@);
    assert("*="@[0] != "-="@[0]);
    assert("*="@ != "-="@);
}

/// The spelling of `AssignDivide` reads back as `AssignDivide`.
proof fn lemma_token_28()
    ensures
        binary_op_of(binary_token(BinaryOp::AssignDivide)) == Some(BinaryOp::AssignDivide),
{
    reveal_strlit("**");
    reveal_strlit("*");
    reveal_strlit("/");
    reveal_strlit("%");
    reveal_strlit("+");
    reveal_strlit("-");
    reveal_strlit("<<");
    reveal_strlit(">>");
    reveal_strlit("<");
    reveal_strlit(">");
    reveal_strlit("<=");
    reveal_strlit(">=");
    reveal_strlit("==");
    reveal_strlit("!=");
    reveal_strlit("&");
    reveal_strlit("^");
    reveal_strlit("|");
    reveal_strlit("&&");
    reveal_strlit("||");
    reveal_strlit("=");
    reveal_strlit("|=");
    reveal_strlit("&=");
    reveal_strlit("^=");
    reveal_strlit("<<=");
    reveal_strlit(">>=");
    reveal_strlit("+=");
    reveal_strlit("-=");
    reveal_strlit("*=");
    reveal_strlit("/=");
    assert("/="@[0] != "**"@[0]);
    assert("/="@ != "**"@);
    assert("/="@.len() != "*"@.len());
    assert("/="@ != "*"@);
    assert("/="@.len() != "/"@.len());
    assert("/="@ != "/"@);
    assert("/="@.len() != "%"@.len());
    assert("/="@ != "%"@);
    assert("/="@.len() != "+"@.len());
    assert("/="@ != "+"@);
    assert("/="@.len() != "-"@.len());
    assert("/="@ != "-"@);
    assert("/="@[0] != "<<"@[0]);
    assert("/="@ != "<<"@);
    assert("/="@[0] != ">>"@[0]);
    assert("/="@ != ">>"@);
    assert("/="@.len() != "<"@.len());
    assert("/="@ != "<"@);
    assert("/="@.len() != ">"@.len());
    assert("/="@ != ">"@);
    assert("/="@[0] != "<="@[0]);
    assert("/="@ != "<="@);
    assert("/="@[0] != ">="@[0]);
    assert("/="@ != ">="@);
    assert("/="@[0] != "=="@[0]);
    assert("/="@ != "=="@);
    assert("/="@[0] != "!="@[0]);
    assert("/="@ != "!="@);
    assert("/="@.len() != "&"@.len());
    assert("/="@ != "&"@);
    assert("/="@.len() != "^"@.len());
    assert("/="@ != "^"@);
    assert("/="@.len() != "|"@.len());
    assert("/="@ != "|"@);
    assert("/="@[0] != "&&"@[0]);
    assert("/="@ != "&&"@);
    assert("/="@[0] != "||"@[0]);
    assert("/="@ != "||"@);
    assert("/="@.len() != "="@.len());
    assert("/="@ != "="@);
    assert("/="@[0] != "|="@[0]);
    assert("/="@ != "|="@);
    assert("/="@[0] != "&="@[0]);
    assert("/="@ != "&="@);
    assert("/="@[0] != "^="@[0]);
    assert("/="@ != "^="@);
    assert("/="@.len() != "<<="@.len());
    assert("/="@ != "<<="@);
    assert("/="@.len() != ">>="@.len());
    assert("/="@ != ">>="@);
    assert("/="@[0] != "+="@[0]);
    assert("/="@ != "+="@);
    assert("/="@[0] != "-="@[0]);
    assert("/="@ != "-="@);
    assert("/="@[0] != "*="@[0]);
    assert("/="@ != "*="@);
}

/// The spelling of `AssignModulo` reads back as `AssignModulo`.
proof fn lemma_token_29()
    ensures
        binary_op_of(binary_token(BinaryOp::AssignModulo)) == Some(BinaryOp::AssignModulo),
{
    reveal_strlit("**");
    reveal_strlit("*");
    reveal_strlit("/");
    reveal_strlit("%");
    reveal_strlit("+");
    reveal_strlit("-");
    reveal_strlit("<<");
    reveal_strlit(">>");
    reveal_strlit("<");
    reveal_strlit(">");
    reveal_strlit("<=");
    reveal_strlit(">=");
    reveal_strlit("==");
    reveal_strlit("!=");
    reveal_strlit("&");
    reveal_strlit("^");
    reveal_strlit("|");
    reveal_strlit("&&");
    reveal_strlit("||");
    reveal_strlit("=");
    reveal_strlit("|=");
    reveal_strlit("&=");
    reveal_strlit("^=");
    reveal_strlit("<<=");
    reveal_strlit(">>=");
    reveal_strlit("+=");
    reveal_strlit("-=");
    reveal_strlit("*=");
    reveal_strlit("/=");
    reveal_strlit("%=");
    assert("%="@[0] != "**"@[0]);
    assert("%="@ != "**"@);
    assert("%="@.len() != "*"@.len());
    assert("%="@ != "*"@);
    assert("%="@.len() != "/"@.len());
    assert("%="@ != "/"@);
    assert("%="@.len() != "%"@.len());
    assert("%="@ != "%"@);
    assert("%="@.len() != "+"@.len());
    assert("%="@ != "+"@);
    assert("%="@.len() != "-"@.len());
    assert("%="@ != "-"@);
    assert("%="@[0] != "<<"@[0]);
    assert("%="@ != "<<"@);
    assert("%="@[0] != ">>"@[0]);
    assert("%="@ != ">>"@);
    assert("%="@.len() != "<"@.len());
    assert("%="@ != "<"@);
    assert("%="@.len() != ">"@.len());
    assert("%="@ != ">"@);
    assert("%="@[0] != "<="@[0]);
    assert("%="@ != "<="@);
    assert("%="@[0] != ">="@[0]);
    assert("%="@ != ">="@);
    assert("%="@[0] != "=="@[0]);
    assert("%="@ != "=="@);
    assert("%="@[0] != "!="@[0]);
    assert("%="@ != "!="@);
    assert("%="@.len() != "&"@.len());
    assert("%="@ != "&"@);
    assert("%="@.len() != "^"@.len());
    assert("%="@ != "^"@);
    assert("%="@.len() != "|"@.len());
    assert("%="@ != "|"@);
    assert("%="@[0] != "&&"@[0]);
    assert("%="@ != "&&"@);
    assert("%="@[0] != "||"@[0]);
    assert("%="@ != "||"@);
    assert("%="@.len() != "="@.len());
    assert("%="@ != "="@);
    assert("%="@[0] != "|="@[0]);
    assert("%="@ != "|="@);
    assert("%="@[0] != "&="@[0]);
    assert("%="@ != "&="@);
    assert("%="@[0] != "^="@[0]);
    assert("%="@ != "^="@);
    assert("%="@.len() != "<<="@.len());
    assert("%="@ != "<<="@);
    assert("%="@.len() != ">>="@.len());
    assert("%="@ != ">>="@);
    assert("%="@[0] != "+="@[0]);
    assert("%="@ != "+="@);
    assert("%="@[0] != "-="@[0]);
    assert("%="@ != "-="@);
    assert("%="@[0] != "*="@[0]);
    assert("%="@ != "*="@);
    assert("%="@[0] != "/="@[0]);
    assert("%="@ != "/="@);
}


/// How a unary operator is spelled in Solidity source.
pub open spec fn unary_token(op: UnaryOp) -> Seq<char> {
    match op {
        UnaryOp::PreIncrement | UnaryOp::PostIncrement => "++"@,
        UnaryOp::PreDecrement | UnaryOp::PostDecrement => "--"@,
        UnaryOp::Not => "!"@,
        UnaryOp::BitwiseNot => "~"@,
        UnaryOp::UnaryPlus => "+"@,
        UnaryOp::Negate => "-"@,
        UnaryOp::New => "new"@,
        UnaryOp::Delete => "delete"@,
    }
}

/// The keyword of a state mutability in Solidity source.
pub open spec fn mutability_keyword(m: Mutability) -> Seq<char> {
    match m {
        Mutability::Pure => "pure"@,
        Mutability::View => "view"@,
        Mutability::Constant => "constant"@,
        Mutability::Payable => "payable"@,
    }
}

/// The name of an elementary type in Solidity source (`uint256`,
/// `address payable`, `bytes32`, ...); `None` for mappings and function
/// types.
pub open spec fn elementary_type_name(t: SolType) -> Option<Seq<char>> {
    match t {
        SolType::Address => Some("address"@),
        SolType::AddressPayable => Some("address payable"@),
        SolType::Payable => Some("payable"@),
        SolType::Bool => Some("bool"@),
        SolType::String => Some("string"@),
        SolType::Int(n) => Some("int"@ + crate::text::decimal(n as nat)),
        SolType::Uint(n) => Some("uint"@ + crate::text::decimal(n as nat)),
        SolType::Bytes(n) => Some("bytes"@ + crate::text::decimal(n as nat)),
        SolType::Rational => Some("rational"@),
        SolType::DynamicBytes => Some("bytes"@),
        _ => None,
    }
}

} // verus!
