use dove::ir_builder::constants::{find_struct_constant_deps_ordered, resolve_constant_deps_order};
use dove::ir_builder::contracts::{build_contract_definition, build_contract_ir, format_base};
use dove::ir_builder::ir::IRElement;
use dove::model::{
    Base, CollectedStruct, Comment, CommentedElement, ContractContents, ContractDefinition, CollectedContract,
    ContractTy, IdentifierPath, StructMember, VariableAttribute, VariableDefinition,
};
use dove::ast::{
    BinaryOp, CollectedFunction, Expression, FunctionAttribute, FunctionDefinition, FunctionTy, SolType, Visibility,
};
use dove::printer::print_ir;

fn strs(v: &[&str]) -> Vec<String> {
    v.iter().map(|s| s.to_string()).collect()
}

fn consts(v: &[(&str, &[&str])]) -> Vec<(String, Vec<String>)> {
    v.iter().map(|(n, r)| (n.to_string(), strs(r))).collect()
}

fn empty_contents() -> ContractContents {
    ContractContents {
        using_directives: vec![],
        types: vec![],
        enums: vec![],
        structs: vec![],
        errors: vec![],
        events: vec![],
        variables: vec![],
        functions: vec![],
    }
}

fn path(parts: &[&str]) -> IdentifierPath {
    IdentifierPath { identifiers: strs(parts) }
}

fn header(ty: ContractTy, name: &str, base: Vec<Base>) -> ContractDefinition {
    ContractDefinition { ty, name: Some(name.to_string()), base }
}

#[test]
fn dependencies_come_first() {
    let t = consts(&[("A", &[]), ("B", &["A"]), ("C", &["B"])]);
    assert_eq!(resolve_constant_deps_order(&strs(&["B"]), &t), strs(&["A", "B"]));
    assert_eq!(resolve_constant_deps_order(&strs(&["C", "A"]), &t), strs(&["A", "B", "C"]));
}

#[test]
fn unknown_names_are_kept_in_place() {
    let t = consts(&[("A", &["C"]), ("C", &[])]);
    assert_eq!(resolve_constant_deps_order(&strs(&["X", "A"]), &t), strs(&["X", "C", "A"]));
}

#[test]
fn references_are_visited_in_increasing_order_once() {
    let t = consts(&[("A", &["Z", "M", "Z"]), ("Z", &[]), ("M", &[])]);
    assert_eq!(resolve_constant_deps_order(&strs(&["A"]), &t), strs(&["M", "Z", "A"]));
}

#[test]
fn cycles_end() {
    let t = consts(&[("A", &["B"]), ("B", &["A"])]);
    assert_eq!(resolve_constant_deps_order(&strs(&["A"]), &t), strs(&["B", "A"]));
}

#[test]
fn struct_dependencies_in_member_order() {
    let member = |refs: &[&str]| CommentedElement {
        element: StructMember { ty_ir: IRElement::text("uint256[N]"), name: Some("x".to_string()), size_refs: strs(refs) },
        leading_comments: vec![],
        trailing_comments: vec![],
    };
    let s = CollectedStruct {
        definition: CommentedElement { element: "S".to_string(), leading_comments: vec![], trailing_comments: vec![] },
        fields: vec![member(&["N", "M"]), member(&["N", "K"])],
    };
    assert_eq!(find_struct_constant_deps_ordered(&s), strs(&["N", "M", "K"]));
}

#[test]
fn base_with_arguments() {
    let b = Base { name: path(&["ERC20"]), args: Some(vec![IRElement::text("\"T\""), IRElement::text("1")]) };
    assert_eq!(print_ir(&[format_base(b)]), "ERC20(\"T\", 1)\n");
}

#[test]
fn empty_contract() {
    let ir = build_contract_definition(header(ContractTy::Contract, "Token", vec![]), empty_contents());
    assert_eq!(print_ir(&ir), "contract Token { }\n");
}

#[test]
fn abstract_contract_with_bases() {
    let bases = vec![
        Base { name: path(&["Ownable"]), args: None },
        Base { name: path(&["ERC20"]), args: Some(vec![IRElement::text("\"T\"")]) },
    ];
    let ir = build_contract_definition(header(ContractTy::Abstract, "Token", bases), empty_contents());
    assert_eq!(print_ir(&ir), "abstract contract Token is\n  Ownable,\n  ERC20(\"T\") { }\n");
}

#[test]
fn contract_body_has_blank_lines_between_elements() {
    let mut contents = empty_contents();
    contents.functions = vec![function("f"), function("g")];
    let ir = build_contract_definition(header(ContractTy::Library, "L", vec![]), contents);
    let out = print_ir(&ir);
    assert!(out.starts_with("library L {\n"), "{}", out);
    assert!(out.contains("  function f () public { }\n\n"), "{}", out);
    assert!(out.ends_with("  function g () public { }\n}\n"), "{}", out);
}

fn function(name: &str) -> CollectedFunction {
    CollectedFunction {
        definition: CommentedElement {
            element: FunctionDefinition {
                ty: FunctionTy::Function,
                name: Some(name.to_string()),
                params: vec![],
                attributes: vec![FunctionAttribute::Visibility(Visibility::Public)],
                outputs: vec![],
                has_body: true,
            },
            leading_comments: vec![Comment::DocLine("/// @notice Does it.".to_string())],
            trailing_comments: vec![],
        },
        body_statements: vec![],
    }
}

fn sum(refs: &[&str]) -> Expression {
    let mut e = Expression::NumberLiteral { number: "1".to_string(), exponent: String::new(), unit: None, source: None };
    for r in refs {
        e = Expression::Binary(BinaryOp::Add, Box::new(e), Box::new(Expression::Variable(r.to_string())));
    }
    e
}

fn constant(name: &str, refs: &[&str]) -> CommentedElement<VariableDefinition> {
    CommentedElement {
        element: VariableDefinition {
            ty: Expression::Type(SolType::Uint(256)),
            attrs: vec![VariableAttribute::Constant],
            name: Some(name.to_string()),
            initializer: Some(sum(refs)),
            has_type_comments: false,
        },
        leading_comments: vec![Comment::DocLine("/// @notice Size.".to_string())],
        trailing_comments: vec![],
    }
}

#[test]
fn constants_go_before_the_structs_that_use_them() {
    let mut contents = empty_contents();
    contents.variables = vec![constant("OTHER", &[]), constant("SIZE", &[])];
    contents.structs = vec![CollectedStruct {
        definition: CommentedElement {
            element: "S".to_string(),
            leading_comments: vec![Comment::DocLine("/// @notice A struct.".to_string())],
            trailing_comments: vec![],
        },
        fields: vec![CommentedElement {
            element: StructMember {
                ty_ir: IRElement::text("uint256[SIZE]"),
                name: Some("xs".to_string()),
                size_refs: strs(&["SIZE"]),
            },
            leading_comments: vec![],
            trailing_comments: vec![],
        }],
    }];
    let ir = build_contract_definition(header(ContractTy::Contract, "C", vec![]), contents);
    let out = print_ir(&ir);
    let size = out.find("SIZE =").unwrap();
    let strukt = out.find("struct S").unwrap();
    let other = out.find("OTHER =").unwrap();
    assert!(size < strukt && strukt < other, "{}", out);
    assert_eq!(out.matches("SIZE =").count(), 1);
}

#[test]
fn undocumented_contract_gets_placeholder_natspec() {
    let c = CollectedContract {
        definition: CommentedElement {
            element: header(ContractTy::Interface, "IThing", vec![]),
            leading_comments: vec![],
            trailing_comments: vec![Comment::Line("// end".to_string())],
        },
        contents: empty_contents(),
    };
    let out = print_ir(&build_contract_ir(c));
    assert!(out.starts_with("/**\n"), "{}", out);
    assert!(out.contains("@title IThing"), "{}", out);
    assert!(out.ends_with("*/\ninterface IThing { }\n// end\n"), "{}", out);
}

#[test]
fn preserved_natspec_is_kept() {
    let text = "/**\n * @title Kept\n * @custom:preserve\n */";
    let c = CollectedContract {
        definition: CommentedElement {
            element: header(ContractTy::Contract, "K", vec![]),
            leading_comments: vec![Comment::DocBlock(text.to_string())],
            trailing_comments: vec![],
        },
        contents: empty_contents(),
    };
    let out = print_ir(&build_contract_ir(c));
    assert!(out.contains("@title Kept"), "{}", out);
    assert!(!out.contains("@author"), "{}", out);
    assert!(out.ends_with("contract K { }\n"), "{}", out);
}

#[test]
fn plain_doc_comments_are_kept() {
    let c = CollectedContract {
        definition: CommentedElement {
            element: header(ContractTy::Contract, "P", vec![]),
            leading_comments: vec![Comment::DocLine("/// Just words.".to_string())],
            trailing_comments: vec![],
        },
        contents: empty_contents(),
    };
    assert_eq!(print_ir(&build_contract_ir(c)), "/// Just words.\ncontract P { }\n");
}
