use dove::ast::{
    CollectedFunction, Expression, FunctionAttribute, FunctionDefinition, FunctionTy, Mutability, SolType, Visibility,
};
use dove::ir_builder::comments::build_natspec_comment_ir;
use dove::ir_builder::format_collected;
use dove::ir_builder::ir::IRElement;
use dove::model::{
    Base, CollectedContract, CollectedElements, CollectedEvent, Comment, CommentedElement, ContractContents,
    ContractDefinition, ContractTy, IdentifierPath, PragmaDirective, VariableAttribute, VariableDefinition,
    VersionComparator, VersionOp,
};
use dove::peck::{is_public_variable, peck_collected, transform_contract, transform_contract_contents, transform_to_interface};
use dove::printer::{measure, print_ir, Printer};
use dove::FormatConfig;

fn bare<T>(element: T) -> CommentedElement<T> {
    CommentedElement { element, leading_comments: vec![], trailing_comments: vec![] }
}

fn empty_unit() -> CollectedElements {
    CollectedElements {
        pragmas: vec![],
        imports: vec![],
        using_directives: vec![],
        errors: vec![],
        types: vec![],
        enums: vec![],
        structs: vec![],
        functions: vec![],
        variables: vec![],
        contracts: vec![],
        standalone_comments: vec![],
    }
}

fn empty_contents() -> ContractContents {
    ContractContents {
        using_directives: vec![],
        types: vec![],
        enums: vec![],
        structs: vec![],
        errors: vec![],
        events: vec![],
        variables: vec![],
        functions: vec![],
    }
}

fn uint256() -> Expression {
    Expression::Type(SolType::Uint(256))
}

fn variable(name: &str, attrs: Vec<VariableAttribute>) -> CommentedElement<VariableDefinition> {
    CommentedElement {
        element: VariableDefinition {
            ty: uint256(),
            attrs,
            name: Some(name.to_string()),
            initializer: None,
            has_type_comments: false,
        },
        leading_comments: vec![Comment::DocLine("/// @notice A value.".to_string())],
        trailing_comments: vec![],
    }
}

fn function(ty: FunctionTy, name: &str, attributes: Vec<FunctionAttribute>) -> CollectedFunction {
    CollectedFunction {
        definition: CommentedElement {
            element: FunctionDefinition {
                ty,
                name: Some(name.to_string()),
                params: vec![],
                attributes,
                outputs: vec![],
                has_body: true,
            },
            leading_comments: vec![Comment::DocLine("/// @notice Does it.".to_string())],
            trailing_comments: vec![Comment::Line("// done".to_string())],
        },
        body_statements: vec![],
    }
}

fn token_contract() -> CollectedContract {
    let mut contents = empty_contents();
    contents.variables = vec![
        variable("total", vec![VariableAttribute::Visibility(Visibility::Public)]),
        variable("hidden", vec![VariableAttribute::Visibility(Visibility::Private)]),
        variable(
            "LIMIT",
            vec![VariableAttribute::Visibility(Visibility::External), VariableAttribute::Constant],
        ),
    ];
    contents.events = vec![CollectedEvent {
        definition: bare("Moved".to_string()),
        anonymous: false,
        parameters: vec![],
    }];
    contents.functions = vec![
        function(
            FunctionTy::Function,
            "mint",
            vec![FunctionAttribute::Visibility(Visibility::Public), FunctionAttribute::Virtual],
        ),
        function(FunctionTy::Function, "helper", vec![FunctionAttribute::Visibility(Visibility::Internal)]),
        function(FunctionTy::Modifier, "onlyOwner", vec![]),
        function(
            FunctionTy::Function,
            "peek",
            vec![
                FunctionAttribute::Visibility(Visibility::External),
                FunctionAttribute::Mutability(Mutability::View),
            ],
        ),
    ];
    CollectedContract {
        definition: CommentedElement {
            element: ContractDefinition {
                ty: ContractTy::Contract,
                name: Some("Token".to_string()),
                base: vec![Base { name: IdentifierPath { identifiers: vec!["Base".to_string()] }, args: None }],
            },
            leading_comments: vec![Comment::DocBlock("/**\n * @title Token\n */".to_string())],
            trailing_comments: vec![],
        },
        contents,
    }
}

#[test]
fn public_and_external_variables_are_public() {
    assert!(is_public_variable(&variable("a", vec![VariableAttribute::Visibility(Visibility::Public)]).element));
    assert!(is_public_variable(&variable("b", vec![VariableAttribute::Visibility(Visibility::External)]).element));
    assert!(!is_public_variable(&variable("c", vec![VariableAttribute::Visibility(Visibility::Internal)]).element));
    assert!(!is_public_variable(&variable("d", vec![VariableAttribute::Constant]).element));
}

#[test]
fn contract_becomes_an_interface() {
    let t = transform_contract(token_contract());
    assert_eq!(t.definition.element.ty, ContractTy::Interface);
    assert_eq!(t.definition.element.name, Some("IToken".to_string()));
    assert!(t.definition.element.base.is_empty());
    assert_eq!(t.definition.leading_comments, vec![Comment::DocBlock("/**\n * @title Token Interface\n */".to_string())]);
}

#[test]
fn interface_body_has_getters_then_exposed_functions() {
    let body = transform_contract_contents(token_contract().contents);
    assert!(body.events.is_empty());
    assert!(body.variables.is_empty());
    let names: Vec<String> =
        body.functions.iter().map(|f| f.definition.element.name.clone().unwrap()).collect();
    assert_eq!(names, vec!["total", "LIMIT", "mint", "peek"]);
    let total = &body.functions[0].definition.element;
    assert_eq!(
        total.attributes,
        vec![
            FunctionAttribute::Visibility(Visibility::External),
            FunctionAttribute::Mutability(Mutability::View)
        ]
    );
    let limit = &body.functions[1].definition.element;
    assert_eq!(limit.attributes[1], FunctionAttribute::Mutability(Mutability::Pure));
    let mint = &body.functions[2];
    assert_eq!(mint.definition.element.attributes, vec![FunctionAttribute::Visibility(Visibility::External)]);
    assert!(!mint.definition.element.has_body);
    assert!(mint.definition.trailing_comments.is_empty());
}

#[test]
fn unit_keeps_pragmas_and_contracts_only() {
    let mut unit = empty_unit();
    unit.pragmas = vec![bare(PragmaDirective::Version(vec![VersionComparator::Operator {
        op: VersionOp::Caret,
        version: vec!["0".to_string(), "8".to_string()],
    }]))];
    unit.functions = vec![function(FunctionTy::Function, "free", vec![])];
    unit.standalone_comments = vec![Comment::Line("// end".to_string())];
    unit.contracts = vec![token_contract()];
    let r = transform_to_interface(unit);
    assert_eq!(r.pragmas.len(), 1);
    assert!(r.functions.is_empty());
    assert!(r.standalone_comments.is_empty());
    assert_eq!(r.contracts.len(), 1);
    assert_eq!(r.contracts[0].definition.element.name, Some("IToken".to_string()));
    let out = format_collected(r, FormatConfig { max_line_width: 80, indent_size: 2 }).unwrap();
    assert!(out.contains("interface IToken {"), "{}", out);
    assert!(out.contains("@title Token Interface"), "{}", out);
    assert!(out.contains("  function mint () external;"), "{}", out);
    assert!(out.contains("  function total () external view returns (uint256);"), "{}", out);
    assert!(!out.contains("helper"), "{}", out);
    assert!(!out.contains("onlyOwner"), "{}", out);
    assert!(!out.contains("Moved"), "{}", out);
}

#[test]
fn format_collected_prints_the_unit() {
    let mut unit = empty_unit();
    unit.contracts = vec![token_contract()];
    let out = format_collected(unit, FormatConfig { max_line_width: 80, indent_size: 4 }).unwrap();
    assert!(out.starts_with("// SPDX-License-Identifier"), "{}", out);
    assert!(out.contains("contract Token is"), "{}", out);
    assert!(out.contains("event Moved ();"), "{}", out);
    assert!(out.contains("    uint256 public total;"), "{}", out);
    assert!(out.ends_with("}\n"), "{}", out);
}

#[test]
fn measure_counts_depth_and_weight() {
    let ir = vec![
        IRElement::text("abc"),
        IRElement::Indent(vec![IRElement::SoftLineBreak, IRElement::text("de")]),
    ];
    assert_eq!(measure(&ir), Some((1, 6)));
    assert_eq!(measure(&[]), Some((0, 0)));
}

#[test]
fn printer_buffer_holds_the_printed_text() {
    let mut p = Printer::with_config(80, 2);
    let out = p.print(&[IRElement::text("x")]);
    assert_eq!(out, "x\n");
    assert_eq!(print_ir(&[IRElement::text("x")]), out);
}

#[test]
fn natspec_delimiters_are_optional() {
    let inner = "\n  @notice Hello.\n";
    let wrapped = format!("/**{}*/", inner);
    assert_eq!(print_ir(&build_natspec_comment_ir(inner)), print_ir(&build_natspec_comment_ir(&wrapped)));
}

#[test]
fn peck_collected_prints_the_interface() {
    let mut unit = empty_unit();
    unit.contracts = vec![token_contract()];
    let out = peck_collected(unit, FormatConfig { max_line_width: 80, indent_size: 2 }).unwrap();
    assert!(out.contains("@title Token Interface"), "{}", out);
    assert!(out.contains("interface IToken {"), "{}", out);
    assert!(out.contains("  function total () external view returns (uint256);"), "{}", out);
    assert!(out.contains("  function LIMIT () external pure returns (uint256);"), "{}", out);
    assert!(out.contains("  function peek () external view;"), "{}", out);
    assert!(!out.contains("hidden"), "{}", out);
    assert!(!out.contains("Moved"), "{}", out);
}

#[test]
fn a_used_printer_prints_as_a_fresh_one() {
    let ir = vec![IRElement::text("a"), IRElement::HardLineBreak, IRElement::text("b")];
    let mut p = Printer::with_config(80, 2);
    let _ = p.print(&[IRElement::text("earlier")]);
    assert_eq!(p.print(&ir), Printer::with_config(80, 2).print(&ir));
    assert_eq!(print_ir(&ir), Printer::new().print(&ir));
}
