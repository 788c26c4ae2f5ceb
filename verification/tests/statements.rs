use dove::ast::{
    BinaryOp, CatchClause, Expression, SolType, Statement, TypedParameter, UnaryOp, VariableDeclaration, YulBlock,
    YulExpression, YulFunctionCall, YulStatement, YulSwitch, YulSwitchOption, YulTypedIdentifier,
};
use dove::ir_builder::ir::IRElement;
use dove::ir_builder::statements::{format_statement_full, format_statement_with_renames, ReturnVarContext};
use dove::ir_builder::yul::format_yul_statement;
use dove::model::IdentifierPath;
use dove::printer::print_ir;

fn var(n: &str) -> Expression {
    Expression::Variable(n.to_string())
}

fn num(n: &str) -> Expression {
    Expression::NumberLiteral { number: n.to_string(), exponent: String::new(), unit: None, source: None }
}

fn bin(op: BinaryOp, l: Expression, r: Expression) -> Expression {
    Expression::Binary(op, Box::new(l), Box::new(r))
}

fn uint() -> Expression {
    Expression::Type(SolType::Uint(256))
}

fn local(name: &str, init: Option<Expression>) -> Statement {
    Statement::VariableDefinition(VariableDeclaration { ty: uint(), storage: None, name: Some(name.to_string()) }, init)
}

/// The printout without the newline that ends every printout.
fn printed(ir: &[IRElement]) -> String {
    let out = print_ir(ir);
    assert!(out.ends_with('\n'));
    out[..out.len() - 1].to_string()
}

fn pair(a: &str, b: &str) -> (String, String) {
    (a.to_string(), b.to_string())
}

#[test]
fn locals_are_normalized_and_renamed_afterwards() {
    let block = Statement::Block(vec![
        local("amount", Some(var("x"))),
        Statement::Expression(bin(BinaryOp::AssignAdd, var("amount"), num("1"))),
        local("i", None),
    ]);
    let mut renames = vec![pair("x", "_x")];
    let ir = format_statement_with_renames(&block, &mut renames);
    assert_eq!(printed(&ir), "{\n  uint256 _amount = _x;\n  _amount += 1;\n  uint256 i;\n}");
    assert_eq!(renames, vec![pair("x", "_x"), pair("amount", "_amount")]);
}

fn result_param() -> TypedParameter {
    TypedParameter { ty: uint(), storage: None, name: Some("result".to_string()) }
}

fn result_context(param: &TypedParameter, single: bool) -> ReturnVarContext<'_> {
    ReturnVarContext {
        return_var_types: vec![("result".to_string(), param)],
        declared_return_vars: vec![],
        single_assignment_vars: if single { vec!["result".to_string()] } else { vec![] },
    }
}

#[test]
fn first_assignment_to_a_return_variable_declares_it() {
    let block = Statement::Block(vec![
        Statement::Expression(bin(BinaryOp::Assign, var("result"), bin(BinaryOp::Add, var("a"), var("b")))),
        Statement::Expression(bin(BinaryOp::Assign, var("result"), num("0"))),
    ]);
    let mut renames = vec![];
    let p = result_param();
    let mut ctx = result_context(&p, false);
    let ir = format_statement_full(&block, &mut renames, &mut ctx);
    assert_eq!(printed(&ir), "{\n  uint256 _result = a + b;\n  _result = 0;\n}");
    assert_eq!(ctx.declared_return_vars, vec!["result".to_string()]);
}

#[test]
fn single_assignment_to_a_return_variable_returns() {
    let s = Statement::Expression(bin(BinaryOp::Assign, var("result"), var("a")));
    let mut renames = vec![];
    let p = result_param();
    let mut ctx = result_context(&p, true);
    let ir = format_statement_full(&s, &mut renames, &mut ctx);
    assert_eq!(printed(&ir), "return a;");
    assert!(ctx.declared_return_vars.is_empty());
}

#[test]
fn if_else_and_loops() {
    let call = Expression::FunctionCall(Box::new(var("f")), vec![]);
    let s = Statement::If(
        var("c"),
        Box::new(Statement::Expression(call)),
        Some(Box::new(Statement::Return(None))),
    );
    let mut renames = vec![];
    assert_eq!(printed(&format_statement_with_renames(&s, &mut renames)), "if (c) f(); else return;");
    let l = Statement::For(
        Some(Box::new(local("i", Some(num("0"))))),
        Some(bin(BinaryOp::Less, var("i"), var("n"))),
        Some(Expression::Unary(UnaryOp::PostIncrement, Box::new(var("i")))),
        Some(Box::new(Statement::Block(vec![]))),
    );
    assert_eq!(printed(&format_statement_with_renames(&l, &mut renames)), "for (uint256 i = 0; i < n; i++) {}");
    let d = Statement::DoWhile(Box::new(Statement::Block(vec![Statement::Break])), var("c"));
    assert_eq!(printed(&format_statement_with_renames(&d, &mut renames)), "do {\n  break;\n} while (c);");
}

#[test]
fn revert_emit_and_try() {
    let path = IdentifierPath { identifiers: vec!["Errors".to_string(), "Bad".to_string()] };
    let r = Statement::Revert(Some(path), vec![var("x")]);
    let mut renames = vec![pair("x", "_x")];
    assert_eq!(printed(&format_statement_with_renames(&r, &mut renames)), "revert Errors.Bad(_x);");
    let e = Statement::Emit(Expression::FunctionCall(Box::new(var("Done")), vec![]));
    assert_eq!(printed(&format_statement_with_renames(&e, &mut renames)), "emit Done();");
    let t = Statement::Try(
        Expression::FunctionCall(Box::new(var("foo")), vec![]),
        vec![Some(TypedParameter { ty: uint(), storage: None, name: Some("v".to_string()) })],
        vec![CatchClause::Named(
            "Error".to_string(),
            TypedParameter { ty: Expression::Type(SolType::String), storage: None, name: Some("reason".to_string()) },
            Statement::Block(vec![]),
        )],
    );
    assert_eq!(
        printed(&format_statement_with_renames(&t, &mut renames)),
        "try foo() returns (uint256 _v) catch Error(string _reason) {}"
    );
}

#[test]
fn assembly_block() {
    let block = YulBlock {
        statements: vec![
            YulStatement::VariableDeclaration(
                vec![YulTypedIdentifier { name: "x".to_string(), ty: None }],
                Some(YulExpression::NumberLiteral("1".to_string())),
            ),
            YulStatement::Assign(
                vec![YulExpression::Variable("x".to_string())],
                YulExpression::FunctionCall(YulFunctionCall {
                    id: "add".to_string(),
                    arguments: vec![YulExpression::Variable("x".to_string()), YulExpression::NumberLiteral("2".to_string())],
                }),
            ),
        ],
    };
    let s = Statement::Assembly { dialect: Some("evmasm".to_string()), flags: None, block };
    let mut renames = vec![];
    assert_eq!(
        printed(&format_statement_with_renames(&s, &mut renames)),
        "assembly \"evmasm\" {\n  let x := 1\n  x := add(x, 2)\n}"
    );
}

#[test]
fn yul_switch_cases() {
    let s = YulStatement::Switch(YulSwitch {
        condition: YulExpression::Variable("x".to_string()),
        cases: vec![YulSwitchOption::Case(YulExpression::NumberLiteral("0".to_string()), YulBlock { statements: vec![] })],
        default: Some(YulSwitchOption::Default(YulBlock { statements: vec![YulStatement::Leave] })),
    });
    assert_eq!(printed(&format_yul_statement(&s)), "switch x\ncase 0 {}\ndefault {\n  leave\n}");
}

#[test]
fn assembly_applies_and_records_renames() {
    let block = YulBlock {
        statements: vec![
            YulStatement::VariableDeclaration(
                vec![YulTypedIdentifier { name: "tmp".to_string(), ty: None }],
                Some(YulExpression::Variable("amount".to_string())),
            ),
            YulStatement::FunctionCall(YulFunctionCall {
                id: "sstore".to_string(),
                arguments: vec![YulExpression::NumberLiteral("0".to_string()), YulExpression::Variable("tmp".to_string())],
            }),
        ],
    };
    let s = Statement::Assembly { dialect: None, flags: None, block };
    let mut renames = vec![("amount".to_string(), "_amount".to_string())];
    assert_eq!(
        printed(&format_statement_with_renames(&s, &mut renames)),
        "assembly {\n  let _tmp := _amount\n  sstore(0, _tmp)\n}"
    );
    assert!(renames.contains(&("tmp".to_string(), "_tmp".to_string())));
}

#[test]
fn same_return_assignment_twice_declares_once() {
    let s = Statement::Expression(bin(BinaryOp::Assign, var("result"), var("a")));
    let mut renames = vec![];
    let p = result_param();
    let mut ctx = result_context(&p, false);
    let first = format_statement_full(&s, &mut renames, &mut ctx);
    assert_eq!(printed(&first), "uint256 _result = a;");
    assert_eq!(renames, vec![pair("result", "_result")]);
    let second = format_statement_full(&s, &mut renames, &mut ctx);
    assert_eq!(printed(&second), "_result = a;");
    assert_eq!(ctx.declared_return_vars, vec!["result".to_string()]);
}
