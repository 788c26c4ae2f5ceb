use dove::ast::{BinaryOp, Expression, FunctionAttribute, NamedArgument, SolType, StorageLocation, TypedParameter, UnaryOp, Visibility, Mutability};
use dove::ir_builder::expressions::{
    format_expression, format_expression_to_string, format_expression_with_renames, format_type, format_type_to_string,
    try_collect_subscript_chain,
};
use dove::ir_builder::ir::IRElement;
use dove::model::IdentifierPath;
use dove::printer::print_ir;

fn var(n: &str) -> Expression {
    Expression::Variable(n.to_string())
}

fn num(n: &str) -> Expression {
    Expression::NumberLiteral { number: n.to_string(), exponent: String::new(), unit: None, source: None }
}

fn bin(op: BinaryOp, l: Expression, r: Expression) -> Expression {
    Expression::Binary(op, Box::new(l), Box::new(r))
}

fn member(b: Expression, m: &str) -> Expression {
    Expression::MemberAccess(Box::new(b), m.to_string())
}

fn index(a: Expression, i: Option<Expression>) -> Expression {
    Expression::ArraySubscript(Box::new(a), i.map(Box::new))
}

fn call(f: Expression, args: Vec<Expression>) -> Expression {
    Expression::FunctionCall(Box::new(f), args)
}

/// The printed element without the newline that ends every printout.
fn printed(e: IRElement) -> String {
    let out = print_ir(&[e]);
    assert!(out.ends_with('\n'));
    out[..out.len() - 1].to_string()
}

#[test]
fn binary_operators_keep_their_spaces() {
    let e = bin(BinaryOp::Add, var("a"), bin(BinaryOp::Multiply, var("b"), num("2")));
    assert_eq!(printed(format_expression(&e)), "a + b * 2");
}

#[test]
fn renames_apply_to_names_only() {
    let e = bin(BinaryOp::Assign, var("amount"), member(var("amount"), "value"));
    let renames = vec![("amount".to_string(), "_amount".to_string())];
    assert_eq!(printed(format_expression_with_renames(&e, &renames)), "_amount = _amount.value");
}

#[test]
fn calls_and_unary_operators() {
    let e = call(member(var("token"), "transfer"), vec![var("to"), num("1")]);
    assert_eq!(printed(format_expression(&e)), "token.transfer(to, 1)");
    let n = Expression::Unary(UnaryOp::Not, Box::new(var("ok")));
    assert_eq!(printed(format_expression(&n)), "!ok");
    let p = Expression::Unary(UnaryOp::PostIncrement, Box::new(var("i")));
    assert_eq!(printed(format_expression(&p)), "i++");
}

#[test]
fn subscript_chains_and_type_arrays() {
    let e = index(index(var("m"), Some(var("x"))), Some(member(var("s"), "y")));
    assert_eq!(printed(format_expression(&e)), "m[x][s.y]");
    let t = index(Expression::Type(SolType::Uint(256)), None);
    assert_eq!(printed(format_expression(&t)), "uint256[]");
    let c = try_collect_subscript_chain(&var("a"), &Some(Box::new(call(var("f"), vec![]))), &[]);
    assert_eq!(c, None);
    let f = index(var("a"), Some(call(var("f"), vec![])));
    assert_eq!(printed(format_expression(&f)), "a[f()]");
}

#[test]
fn literals() {
    let s = Expression::StringLiteral(vec!["ab".to_string(), "cd".to_string()]);
    assert_eq!(printed(format_expression(&s)), "\"ab\" \"cd\"");
    let h = Expression::HexLiteral(vec!["00ff".to_string()]);
    assert_eq!(printed(format_expression(&h)), "hex\"00ff\"");
    let u = Expression::NumberLiteral {
        number: "1".to_string(),
        exponent: String::new(),
        unit: Some("ether".to_string()),
        source: None,
    };
    assert_eq!(printed(format_expression(&u)), "1 ether");
    let w = Expression::NumberLiteral {
        number: "1000000".to_string(),
        exponent: String::new(),
        unit: None,
        source: Some("1_000_000".to_string()),
    };
    assert_eq!(printed(format_expression(&w)), "1_000_000");
    assert_eq!(printed(format_expression(&Expression::BoolLiteral(true))), "true");
}

#[test]
fn types_as_text() {
    let m = SolType::Mapping {
        key: Box::new(Expression::Type(SolType::Address)),
        key_name: Some("owner".to_string()),
        value: Box::new(Expression::Type(SolType::Uint(256))),
        value_name: None,
    };
    assert_eq!(format_type_to_string(&m), "mapping(address _owner => uint256)");
    assert_eq!(format_type_to_string(&SolType::Bytes(32)), "bytes32");
    assert_eq!(format_expression_to_string(&member(var("Lib"), "Config")), "Lib.Config");
    assert_eq!(format_expression_to_string(&num("1")), "?");
}

#[test]
fn mapping_type_layout() {
    let m = SolType::Mapping {
        key: Box::new(Expression::Type(SolType::Address)),
        key_name: Some("owner".to_string()),
        value: Box::new(Expression::Type(SolType::Uint(256))),
        value_name: None,
    };
    assert_eq!(printed(format_type(&m)), "mapping (\n  address _owner => uint256 TODO\n)");
}

#[test]
fn function_type_layout() {
    let p = TypedParameter { ty: Expression::Type(SolType::Uint(8)), storage: None, name: Some("x".to_string()) };
    let q = TypedParameter {
        ty: Expression::Type(SolType::String),
        storage: Some(StorageLocation::Memory),
        name: None,
    };
    let f = SolType::Function {
        params: vec![Some(p)],
        attributes: vec![
            FunctionAttribute::Visibility(Visibility::External),
            FunctionAttribute::Mutability(Mutability::View),
            FunctionAttribute::BaseOrModifier(IdentifierPath { identifiers: vec!["only".to_string()] }, Some(vec![var("a")])),
        ],
        outputs: vec![Some(q)],
    };
    assert_eq!(printed(format_type(&f)), "function(uint8 _x) external view only(a) returns (string memory)");
}

#[test]
fn named_call_puts_each_argument_on_a_line() {
    let e = Expression::NamedFunctionCall(
        Box::new(var("Point")),
        vec![
            NamedArgument { name: "x".to_string(), expr: num("1") },
            NamedArgument { name: "y".to_string(), expr: num("2") },
        ],
    );
    assert_eq!(printed(format_expression(&e)), "Point({\n  x: 1,\n  y: 2\n})");
}
