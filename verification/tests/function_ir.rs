use dove::ast::{
    BinaryOp, CollectedFunction, CommentedStatement, Expression, FunctionAttribute, FunctionDefinition, FunctionTy,
    Mutability, SolType, Statement, TypedParameter, Visibility,
};
use dove::ir_builder::function_definition::build_function_definition;
use dove::ir_builder::function_ir::build_function_ir;
use dove::ir_builder::usages::count_usages_in_statements;
use dove::model::{Comment, CommentedElement};
use dove::printer::print_ir;

fn var(n: &str) -> Expression {
    Expression::Variable(n.to_string())
}

fn assign(l: &str, r: Expression) -> Expression {
    Expression::Binary(BinaryOp::Assign, Box::new(var(l)), Box::new(r))
}

fn param(ty: SolType, name: &str) -> Option<TypedParameter> {
    Some(TypedParameter { ty: Expression::Type(ty), storage: None, name: Some(name.to_string()) })
}

fn stmt(s: Statement) -> CommentedStatement {
    CommentedStatement { statement: s, leading_comments: vec![], trailing_comments: vec![], nested_statements: None }
}

fn block(ss: Vec<CommentedStatement>) -> CommentedStatement {
    CommentedStatement {
        statement: Statement::Block(vec![Statement::Break]),
        leading_comments: vec![],
        trailing_comments: vec![],
        nested_statements: Some(ss),
    }
}

fn function(
    name: &str,
    params: Vec<Option<TypedParameter>>,
    attributes: Vec<FunctionAttribute>,
    outputs: Vec<Option<TypedParameter>>,
    has_body: bool,
    body: Vec<CommentedStatement>,
    leading: Vec<Comment>,
) -> CollectedFunction {
    CollectedFunction {
        definition: CommentedElement {
            element: FunctionDefinition {
                ty: FunctionTy::Function,
                name: Some(name.to_string()),
                params,
                attributes,
                outputs,
                has_body,
            },
            leading_comments: leading,
            trailing_comments: vec![],
        },
        body_statements: body,
    }
}

#[test]
fn undocumented_function_with_single_assignment_return() {
    let f = function(
        "transfer",
        vec![param(SolType::Address, "to"), param(SolType::Uint(256), "amount")],
        vec![FunctionAttribute::Visibility(Visibility::External)],
        vec![param(SolType::Bool, "success")],
        true,
        vec![block(vec![stmt(Statement::Expression(assign("success", Expression::BoolLiteral(true))))])],
        vec![],
    );
    assert_eq!(
        print_ir(&build_function_ir(&f)),
        "/**\n  TODO\n\n  @param _to TODO\n  @param _amount TODO\n\n  @return _ TODO\n*/\nfunction transfer (\n  address _to,\n  uint256 _amount\n) external returns (bool) {\n  return true;\n}\n"
    );
}

#[test]
fn documented_function_declares_its_return_variable() {
    let f = function(
        "sum",
        vec![param(SolType::Uint(256), "a"), param(SolType::Uint(256), "b")],
        vec![
            FunctionAttribute::Visibility(Visibility::Internal),
            FunctionAttribute::Mutability(Mutability::Pure),
        ],
        vec![param(SolType::Uint(256), "total")],
        true,
        vec![
            stmt(Statement::Expression(assign("total", var("a")))),
            stmt(Statement::Expression(assign(
                "total",
                Expression::Binary(BinaryOp::Add, Box::new(var("total")), Box::new(var("b"))),
            ))),
        ],
        vec![Comment::DocLine("/// @notice Adds.".to_string())],
    );
    assert_eq!(count_usages_in_statements(&f.body_statements, "total"), 2);
    assert_eq!(
        print_ir(&build_function_ir(&f)),
        "/**\n  Adds.\n\n  @param _a TODO\n  @param _b TODO\n\n  @return _ TODO\n*/\nfunction sum (\n  uint256 _a,\n  uint256 _b\n) internal pure returns (uint256) {\n  uint256 _total = _a;\n  _total = _total + _b;\n  return _total;\n}\n"
    );
}

#[test]
fn bodyless_function_ends_with_semicolon() {
    let f = function("f", vec![], vec![FunctionAttribute::Visibility(Visibility::External)], vec![], false, vec![], vec![]);
    assert_eq!(print_ir(&build_function_definition(&f)), "function f () external;\n");
}

#[test]
fn notice_only_function_gets_a_one_line_doc() {
    let f = function(
        "ping",
        vec![],
        vec![FunctionAttribute::Visibility(Visibility::Public)],
        vec![],
        true,
        vec![CommentedStatement {
            statement: Statement::Block(vec![]),
            leading_comments: vec![],
            trailing_comments: vec![],
            nested_statements: Some(vec![]),
        }],
        vec![Comment::DocLine("/// @notice Pings.".to_string())],
    );
    assert_eq!(print_ir(&build_function_ir(&f)), "/// Pings.\nfunction ping () public { }\n");
}
