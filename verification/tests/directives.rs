use dove::ir_builder::functions::{generate_function_natspec, generate_function_natspec_with_description};
use dove::ir_builder::ir::IRElement;
use dove::ir_builder::toplevel::{build_type_definition_ir, build_using_directive_ir};
use dove::model::{
    CommentedElement, IdentifierPath, TypeDefinition, UserDefinedOperator, Using, UsingFunction, UsingList,
};
use dove::printer::print_ir;

fn path(parts: &[&str]) -> IdentifierPath {
    IdentifierPath { identifiers: parts.iter().map(|s| s.to_string()).collect() }
}

fn bare<T>(element: T) -> CommentedElement<T> {
    CommentedElement { element, leading_comments: vec![], trailing_comments: vec![] }
}

fn func(name: &str, oper: Option<UserDefinedOperator>) -> UsingFunction {
    UsingFunction { path: path(&[name]), oper }
}

#[test]
fn using_library_for_type() {
    let u = Using { list: UsingList::Library(path(&["SafeMath"])), ty_ir: Some(IRElement::text("uint256")), global: false };
    assert_eq!(print_ir(&build_using_directive_ir(bare(u))), "using SafeMath for uint256;\n");
}

#[test]
fn using_functions_with_operators_globally() {
    let u = Using {
        list: UsingList::Functions(vec![func("add", Some(UserDefinedOperator::Add)), func("eq", Some(UserDefinedOperator::Equal))]),
        ty_ir: Some(IRElement::text("Fixed")),
        global: true,
    };
    assert_eq!(print_ir(&build_using_directive_ir(bare(u))), "using {add as +, eq as ==} for Fixed global;\n");
}

#[test]
fn using_many_functions_for_all() {
    let u = Using {
        list: UsingList::Functions(vec![func("a", None), func("b", None), func("c", None)]),
        ty_ir: None,
        global: false,
    };
    assert_eq!(print_ir(&build_using_directive_ir(bare(u))), "using { a, b, c } for *;\n");
}

#[test]
fn type_definition() {
    let t = TypeDefinition { name: "Price".to_string(), ty_ir: IRElement::text("uint128") };
    assert_eq!(print_ir(&build_type_definition_ir(bare(t))), "type Price is uint128;\n");
}

#[test]
fn generated_function_natspec() {
    let params = vec![Some(Some("to".to_string())), Some(None), None];
    assert_eq!(
        print_ir(&generate_function_natspec(&params, true)),
        "/**\n  TODO\n\n  @param _to TODO\n  @param _unnamed TODO\n\n  @return _ TODO\n*/\n"
    );
}

#[test]
fn generated_function_natspec_without_params_or_returns() {
    assert_eq!(print_ir(&generate_function_natspec(&[], false)), "/**\n  TODO\n\n*/\n");
}

#[test]
fn generated_function_natspec_with_description() {
    assert_eq!(
        print_ir(&generate_function_natspec_with_description(&[], true, Some("Builds it."))),
        "/**\n  Builds it.\n\n  @return _ TODO\n*/\n"
    );
}
