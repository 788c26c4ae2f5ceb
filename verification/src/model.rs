//! The source elements that the IR builder reads, as plain values.
use vstd::prelude::*;
use crate::ir_builder::ir::IRElement;
use crate::ast::{visibility_keyword, BinaryOp, CollectedFunction, Expression, SolType, Visibility};

verus! {

/// A source comment with its full text, delimiters included.
#[derive(Debug, PartialEq, Eq)]
pub enum Comment {
    /// A `// ...` comment.
    Line(String),
    /// A `/* ... */` comment.
    Block(String),
    /// A `/// ...` comment.
    DocLine(String),
    /// A `/** ... */` comment.
    DocBlock(String),
}

/// The full text of a comment.
pub open spec fn comment_text(c: Comment) -> Seq<char> {
    match c {
        Comment::Line(t) => t@,
        Comment::Block(t) => t@,
        Comment::DocLine(t) => t@,
        Comment::DocBlock(t) => t@,
    }
}

impl Comment {
    /// The full text of the comment.
    pub fn text(&self) -> (r: &String)
        ensures
            r@ == comment_text(*self),
    {
        match self {
            Comment::Line(t) => t,
            Comment::Block(t) => t,
            Comment::DocLine(t) => t,
            Comment::DocBlock(t) => t,
        }
    }

    /// Whether this is a `//` line comment.
    pub fn is_line(&self) -> (b: bool)
        ensures
            b == (*self is Line),
    {
        match self {
            Comment::Line(_) => true,
            _ => false,
        }
    }

    /// A copy of the comment.
    pub fn duplicate(&self) -> (r: Comment)
        ensures
            r == *self,
    {
        match self {
            Comment::Line(t) => Comment::Line(t.clone()),
            Comment::Block(t) => Comment::Block(t.clone()),
            Comment::DocLine(t) => Comment::DocLine(t.clone()),
            Comment::DocBlock(t) => Comment::DocBlock(t.clone()),
        }
    }
}

/// A source element with the comments before and after it.
pub struct CommentedElement<T> {
    /// The element.
    pub element: T,
    /// Comments on the lines before the element.
    pub leading_comments: Vec<Comment>,
    /// Comments after the element on its line.
    pub trailing_comments: Vec<Comment>,
}


/// The operator of a version requirement.
#[derive(Debug, Clone, Copy, PartialEq, Eq)]
pub enum VersionOp {
    /// No operator: exactly this version.
    Exact,
    /// `>`
    Greater,
    /// `>=`
    GreaterEq,
    /// `<`
    Less,
    /// `<=`
    LessEq,
    /// `~`
    Tilde,
    /// `^`
    Caret,
    /// `*`
    Wildcard,
}

/// A version requirement of a `pragma solidity` directive; versions are
/// their dot-separated parts.
#[derive(Debug, PartialEq, Eq)]
pub enum VersionComparator {
    /// A version without operator.
    Plain { version: Vec<String> },
    /// A version with an operator.
    Operator { op: VersionOp, version: Vec<String> },
    /// An alternative of requirements (`a || b`).
    Or,
    /// A range `from - to`.
    Range { from: Vec<String>, to: Vec<String> },
}

/// A pragma directive.
#[derive(Debug, PartialEq, Eq)]
pub enum PragmaDirective {
    /// `pragma name value;`
    Identifier(Option<String>, Option<String>),
    /// `pragma name "value";`
    StringLiteral(String, String),
    /// `pragma solidity requirements;`
    Version(Vec<VersionComparator>),
}

/// A dotted path of identifiers.
#[derive(Debug, PartialEq, Eq)]
pub struct IdentifierPath {
    /// The identifiers, in order.
    pub identifiers: Vec<String>,
}

/// What an import refers to.
#[derive(Debug, PartialEq, Eq)]
pub enum ImportPath {
    /// A file name.
    Filename(String),
    /// An identifier path.
    Path(IdentifierPath),
}

/// An import directive.
#[derive(Debug, PartialEq, Eq)]
pub enum Import {
    /// `import "path";`
    Plain(ImportPath),
    /// `import "path" as Symbol;`
    GlobalSymbol(ImportPath, String),
    /// `import { a as b, c } from "path";`
    Rename(ImportPath, Vec<(String, Option<String>)>),
}

/// The kind of a contract definition.
#[derive(Debug, Clone, Copy, PartialEq, Eq)]
pub enum ContractTy {
    /// `abstract contract`
    Abstract,
    /// `contract`
    Contract,
    /// `interface`
    Interface,
    /// `library`
    Library,
}

/// Imports split into their groups, each sorted by path.
pub struct GroupedCommentedImports {
    /// Imports whose path starts with `@`.
    pub external: Vec<CommentedElement<Import>>,
    /// Imports whose path starts with `interfaces`.
    pub interfaces: Vec<CommentedElement<Import>>,
    /// All other imports.
    pub local: Vec<CommentedElement<Import>>,
}

/// The top-level elements of a source unit, each with its comments.
/// Functions are held as the IR built for them.
pub struct CollectedElements {
    /// Pragma directives.
    pub pragmas: Vec<CommentedElement<PragmaDirective>>,
    /// Import directives.
    pub imports: Vec<CommentedElement<Import>>,
    /// Top-level `using` directives.
    pub using_directives: Vec<CommentedElement<Using>>,
    /// Top-level error definitions.
    pub errors: Vec<CollectedError>,
    /// User-defined value types.
    pub types: Vec<CommentedElement<TypeDefinition>>,
    /// Top-level enums.
    pub enums: Vec<CollectedEnum>,
    /// Top-level structs.
    pub structs: Vec<CollectedStruct>,
    /// Top-level functions.
    pub functions: Vec<CollectedFunction>,
    /// Top-level constants.
    pub variables: Vec<CommentedElement<VariableDefinition>>,
    /// Contracts, interfaces and libraries.
    pub contracts: Vec<CollectedContract>,
    /// Comments that belong to no element.
    pub standalone_comments: Vec<Comment>,
}

/// The shape of a variable's type, as far as its documentation depends on
/// it: mappings (with their value type) and everything else.
#[derive(Debug, PartialEq, Eq)]
pub enum TypeShape {
    /// `mapping(K => V)`, with the shape of `V`.
    Mapping(Box<TypeShape>),
    /// Any other type.
    Other,
}

/// How deeply mappings nest in a type.
pub open spec fn mapping_depth(t: TypeShape) -> nat
    decreases t,
{
    match t {
        TypeShape::Mapping(v) => 1 + mapping_depth(*v),
        TypeShape::Other => 0,
    }
}

/// An attribute of a state variable.
#[derive(Debug, PartialEq)]
pub enum VariableAttribute {
    /// `public`, `private`, `internal` or `external`.
    Visibility(Visibility),
    /// `constant`
    Constant,
    /// `immutable`
    Immutable,
    /// `override`, with the bases it names.
    Override(Vec<IdentifierPath>),
}

/// A state variable definition as it was parsed.
pub struct VariableDefinition {
    /// The type.
    pub ty: Expression,
    /// The attributes (visibility, `constant`, ...), in order.
    pub attrs: Vec<VariableAttribute>,
    /// The name, if any.
    pub name: Option<String>,
    /// The initializer expression.
    pub initializer: Option<Expression>,
    /// Whether comments were found inside the type.
    pub has_type_comments: bool,
}

/// The shape of a type: a mapping (with the shape of its value type) or
/// anything else.
pub open spec fn type_shape(e: Expression) -> TypeShape
    decreases e,
{
    match e {
        Expression::Type(t) => match t {
            SolType::Mapping { value, .. } => TypeShape::Mapping(Box::new(type_shape(*value))),
            _ => TypeShape::Other,
        },
        _ => TypeShape::Other,
    }
}

/// Whether a state variable is `constant`.
pub open spec fn is_constant(v: VariableDefinition) -> bool {
    exists|i: int| 0 <= i < v.attrs@.len() && #[trigger] v.attrs@[i] == VariableAttribute::Constant
}

/// The names an expression refers to through sums, differences, products,
/// quotients, remainders, parentheses, member accesses and subscripts.
pub open spec fn expr_refs(e: Expression) -> Seq<Seq<char>>
    decreases e,
{
    match e {
        Expression::Variable(n) => seq![n@],
        Expression::ArraySubscript(b, i) => expr_refs(*b) + match i {
            Some(x) => expr_refs(*x),
            None => Seq::empty(),
        },
        Expression::MemberAccess(b, _) => expr_refs(*b),
        Expression::Binary(op, a, b) => if op == BinaryOp::Add || op == BinaryOp::Subtract || op
            == BinaryOp::Multiply || op == BinaryOp::Divide || op == BinaryOp::Modulo {
            expr_refs(*a) + expr_refs(*b)
        } else {
            Seq::empty()
        },
        Expression::Parenthesis(x) => expr_refs(*x),
        _ => Seq::empty(),
    }
}

/// The names a state variable's initializer refers to.
pub open spec fn value_refs(v: VariableDefinition) -> Seq<Seq<char>> {
    match v.initializer {
        Some(e) => expr_refs(e),
        None => Seq::empty(),
    }
}

/// A member of a struct: its type, already laid out, and its name.
pub struct StructMember {
    /// The type, as IR.
    pub ty_ir: IRElement,
    /// The name, if any.
    pub name: Option<String>,
    /// The names that the array sizes in the type refer to.
    pub size_refs: Vec<String>,
}

/// A struct definition: its name with the comments around it, and its
/// members with theirs.
pub struct CollectedStruct {
    /// The struct's name and comments.
    pub definition: CommentedElement<String>,
    /// The members, in order.
    pub fields: Vec<CommentedElement<StructMember>>,
}

/// An enum definition: its name with the comments around it, and its values
/// (`None` for an unnamed one) with theirs.
pub struct CollectedEnum {
    /// The enum's name and comments.
    pub definition: CommentedElement<String>,
    /// The values, in order.
    pub values: Vec<CommentedElement<Option<String>>>,
}

/// A parameter of an error or an event: its type, already laid out, whether
/// it is `indexed`, and its name.
pub struct Parameter {
    /// The type, as IR.
    pub ty_ir: IRElement,
    /// Whether the parameter is `indexed` (events only).
    pub indexed: bool,
    /// The name, if any.
    pub name: Option<String>,
}

/// An error definition: its name with the comments around it, and its
/// parameters.
pub struct CollectedError {
    /// The error's name and comments.
    pub definition: CommentedElement<String>,
    /// The parameters, in order.
    pub parameters: Vec<CommentedElement<Parameter>>,
}

/// An event definition: its name with the comments around it, whether it is
/// `anonymous`, and its parameters.
pub struct CollectedEvent {
    /// The event's name and comments.
    pub definition: CommentedElement<String>,
    /// Whether the event is `anonymous`.
    pub anonymous: bool,
    /// The parameters, in order.
    pub parameters: Vec<CommentedElement<Parameter>>,
}

/// An operator that a `using` directive binds a function to.
pub enum UserDefinedOperator {
    BitwiseAnd,
    BitwiseNot,
    BitwiseOr,
    BitwiseXor,
    Add,
    Divide,
    Modulo,
    Multiply,
    Subtract,
    Negate,
    Equal,
    More,
    MoreEqual,
    Less,
    LessEqual,
    NotEqual,
}

/// A function named in a `using` directive, possibly bound to an operator.
pub struct UsingFunction {
    /// The function's path.
    pub path: IdentifierPath,
    /// The operator it is bound to, if any.
    pub oper: Option<UserDefinedOperator>,
}

/// What a `using` directive attaches: a library, a list of functions, or
/// something that failed to parse.
pub enum UsingList {
    Library(IdentifierPath),
    Functions(Vec<UsingFunction>),
    Error,
}

/// A `using ... for ...;` directive.
pub struct Using {
    /// What is attached.
    pub list: UsingList,
    /// The type it is attached to, as IR; `None` for `*`.
    pub ty_ir: Option<IRElement>,
    /// Whether the directive is `global`.
    pub global: bool,
}

/// A user-defined value type: `type Name is T;`.
pub struct TypeDefinition {
    /// The name.
    pub name: String,
    /// The underlying type, as IR.
    pub ty_ir: IRElement,
}

/// A base contract in an inheritance list, with its constructor arguments
/// already laid out.
pub struct Base {
    /// The base's path.
    pub name: IdentifierPath,
    /// The arguments, as IR, if they are given.
    pub args: Option<Vec<IRElement>>,
}

/// The header of a contract: its kind, its name and its bases.
pub struct ContractDefinition {
    /// The kind of contract.
    pub ty: ContractTy,
    /// The name, if any.
    pub name: Option<String>,
    /// The bases, in order.
    pub base: Vec<Base>,
}

/// The parts of a contract's body, each kind in source order.
pub struct ContractContents {
    pub using_directives: Vec<CommentedElement<Using>>,
    pub types: Vec<CommentedElement<TypeDefinition>>,
    pub enums: Vec<CollectedEnum>,
    pub structs: Vec<CollectedStruct>,
    pub errors: Vec<CollectedError>,
    pub events: Vec<CollectedEvent>,
    pub variables: Vec<CommentedElement<VariableDefinition>>,
    pub functions: Vec<CollectedFunction>,
}

/// A contract: its header with the comments around it, and its body.
pub struct CollectedContract {
    /// The header and comments.
    pub definition: CommentedElement<ContractDefinition>,
    /// The body.
    pub contents: ContractContents,
}

/// The keyword a state variable's attribute is written with in Solidity
/// source.
pub open spec fn variable_attribute_keyword(a: VariableAttribute) -> Seq<char> {
    match a {
        VariableAttribute::Visibility(v) => visibility_keyword(v),
        VariableAttribute::Constant => "constant"@,
        VariableAttribute::Immutable => "immutable"@,
        VariableAttribute::Override(_) => "override"@,
    }
}

} // verus!
