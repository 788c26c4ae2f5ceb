use dove::ast::{Expression, SolType};
use dove::ir_builder::build_ir;
use dove::ir_builder::ir::IRElement;
use dove::model::{
    CollectedContract, CollectedElements, CollectedStruct, Comment, CommentedElement, ContractContents,
    ContractDefinition, ContractTy, PragmaDirective, StructMember, VariableDefinition, VersionComparator,
};

fn text(s: &str) -> IRElement {
    IRElement::text(s)
}

fn text_with_breaks(s: &str) -> Vec<IRElement> {
    let mut out = Vec::new();
    for (i, w) in s.split_whitespace().enumerate() {
        if i > 0 {
            out.push(IRElement::SoftLineBreak);
        }
        out.push(text(w));
    }
    out
}

fn grouped_text(s: &str) -> IRElement {
    IRElement::group(text_with_breaks(s))
}

fn param_doc(s: &str) -> IRElement {
    let parts: Vec<&str> = s.splitn(3, ' ').collect();
    let mut continuation = vec![IRElement::SoftLineBreak];
    continuation.extend(text_with_breaks(parts[2]));
    IRElement::group(vec![text(&format!("{} {}", parts[0], parts[1])), IRElement::indent(continuation)])
}

fn struct_ir(name: &str, natspec_content: Vec<IRElement>, fields: Vec<(&str, &str)>) -> Vec<IRElement> {
    let mut ir = vec![
        text("/**"),
        IRElement::indent(natspec_content),
        IRElement::HardLineBreak,
        text("*/"),
        IRElement::HardLineBreak,
        text("struct"),
        text(" "),
        text(name),
        text(" "),
        text("{"),
    ];
    for (ty, field_name) in fields {
        ir.push(IRElement::HardLineBreak);
        ir.push(IRElement::indent(vec![text(ty), text(" "), text(field_name), text(";")]));
    }
    ir.push(IRElement::HardLineBreak);
    ir.push(text("}"));
    ir
}

fn doc_lines(ls: &[&str]) -> Vec<Comment> {
    ls.iter().map(|l| Comment::DocLine(l.to_string())).collect()
}

fn member(ty: &str, name: &str, leading: Vec<Comment>, trailing: Vec<Comment>) -> CommentedElement<StructMember> {
    CommentedElement {
        element: StructMember { ty_ir: text(ty), name: Some(name.to_string()), size_refs: vec![] },
        leading_comments: leading,
        trailing_comments: trailing,
    }
}

fn strukt(name: &str, comments: Vec<Comment>, fields: Vec<CommentedElement<StructMember>>) -> CollectedStruct {
    CollectedStruct {
        definition: CommentedElement { element: name.to_string(), leading_comments: comments, trailing_comments: vec![] },
        fields,
    }
}

/// The source unit of the `B` test contract: a pragma, and a documented
/// contract holding four structs and an undocumented state variable.
fn contract_b() -> CollectedElements {
    let structs = vec![
        strukt(
            "Slot",
            doc_lines(&[
                "/// @notice Represents a storage slot key value pair.",
                "/// @param key The storage slot key.",
                "/// @param value The storage slot value.",
            ]),
            vec![member("bytes32", "key", vec![], vec![]), member("bytes32", "value", vec![], vec![])],
        ),
        strukt(
            "ProvenWithdrawal",
            vec![Comment::DocBlock(
                "/**\n  @notice Represents a proven withdrawal.\n  @param disputeGameProxy Game that the withdrawal was proven against.\n    This is a really long description.\n  @param timestamp Timestamp at which the withdrawal was proven.\n*/"
                    .to_string(),
            )],
            vec![
                member("IDisputeGame", "disputeGameProxy", vec![], vec![]),
                member("uint64", "timestamp", vec![], vec![]),
            ],
        ),
        strukt(
            "Cat",
            vec![],
            vec![member("string", "name", vec![], vec![]), member("string", "color", vec![], vec![])],
        ),
        strukt(
            "Animal",
            doc_lines(&["/// @notice This struct represents an animal.", "/// @custom:field name The name of the animal."]),
            vec![
                member("string", "name", vec![], vec![]),
                member("string", "color", vec![], vec![Comment::Line("// The color of the animal.".to_string())]),
                member("string", "bite", vec![], vec![]),
            ],
        ),
    ];
    let variable = CommentedElement {
        element: VariableDefinition {
            ty: Expression::Type(SolType::Uint(256)),
            attrs: vec![],
            name: Some("testValue".to_string()),
            initializer: None,
            has_type_comments: false,
        },
        leading_comments: vec![],
        trailing_comments: vec![],
    };
    let contract = CollectedContract {
        definition: CommentedElement {
            element: ContractDefinition { ty: ContractTy::Contract, name: Some("Test".to_string()), base: vec![] },
            leading_comments: doc_lines(&[
                "/// @custom:benediction DEVS BENEDICAT ET PROTEGAT CONTRACTVM MEVM",
                "/// @title A testing contract.",
                "/// @author Tim Clancy <tim-clancy.eth>",
                "/// @custom:terry \"How is twenty times four 80?!\"",
                "///",
                "/// This contract has a very long description on a single line here. It really keeps running on and on and on. The formatter should make this one look beautiful.",
                "///",
                "/// @custom:date June 3rd, 2025.",
            ]),
            trailing_comments: vec![],
        },
        contents: ContractContents {
            using_directives: vec![],
            types: vec![],
            enums: vec![],
            structs,
            errors: vec![],
            events: vec![],
            variables: vec![variable],
            functions: vec![],
        },
    };
    CollectedElements {
        pragmas: vec![CommentedElement {
            element: PragmaDirective::Version(vec![VersionComparator::Plain {
                version: vec!["0".to_string(), "8".to_string(), "15".to_string()],
            }]),
            leading_comments: vec![],
            trailing_comments: vec![],
        }],
        imports: vec![],
        using_directives: vec![],
        errors: vec![],
        types: vec![],
        enums: vec![],
        structs: vec![],
        functions: vec![],
        variables: vec![],
        contracts: vec![contract],
        standalone_comments: vec![],
    }
}

#[test]
fn test_contract_b() {
    let ir = build_ir(contract_b());

    let mut body_contents = vec![IRElement::HardLineBreak];

    body_contents.push(IRElement::HardLineBreak);
    body_contents.extend(struct_ir(
        "Slot",
        vec![
            IRElement::HardLineBreak,
            grouped_text("Represents a storage slot key value pair."),
            IRElement::HardLineBreak,
            IRElement::HardLineBreak,
            param_doc("@param key The storage slot key."),
            IRElement::HardLineBreak,
            param_doc("@param value The storage slot value."),
        ],
        vec![("bytes32", "key"), ("bytes32", "value")],
    ));

    body_contents.push(IRElement::HardLineBreak);
    body_contents.push(IRElement::HardLineBreak);
    body_contents.extend(struct_ir(
        "ProvenWithdrawal",
        vec![
            IRElement::HardLineBreak,
            grouped_text("Represents a proven withdrawal."),
            IRElement::HardLineBreak,
            IRElement::HardLineBreak,
            param_doc("@param disputeGameProxy Game that the withdrawal was proven against. This is a really long description."),
            IRElement::HardLineBreak,
            param_doc("@param timestamp Timestamp at which the withdrawal was proven."),
        ],
        vec![("IDisputeGame", "disputeGameProxy"), ("uint64", "timestamp")],
    ));

    body_contents.push(IRElement::HardLineBreak);
    body_contents.push(IRElement::HardLineBreak);
    body_contents.extend(struct_ir(
        "Cat",
        vec![
            IRElement::HardLineBreak,
            text("TODO"),
            IRElement::HardLineBreak,
            IRElement::HardLineBreak,
            text("@param name TODO"),
            IRElement::HardLineBreak,
            text("@param color TODO"),
        ],
        vec![("string", "name"), ("string", "color")],
    ));

    body_contents.push(IRElement::HardLineBreak);
    body_contents.push(IRElement::HardLineBreak);
    body_contents.extend(struct_ir(
        "Animal",
        vec![
            IRElement::HardLineBreak,
            grouped_text("This struct represents an animal."),
            IRElement::HardLineBreak,
            IRElement::HardLineBreak,
            param_doc("@param name The name of the animal."),
            IRElement::HardLineBreak,
            param_doc("@param color The color of the animal."),
            IRElement::HardLineBreak,
            text("@param bite TODO"),
        ],
        vec![("string", "name"), ("string", "color"), ("string", "bite")],
    ));

    body_contents.push(IRElement::HardLineBreak);
    body_contents.push(IRElement::HardLineBreak);
    body_contents.push(text("/// TODO"));
    body_contents.push(IRElement::HardLineBreak);
    body_contents.push(text("uint256"));
    body_contents.push(text(" "));
    body_contents.push(text("testValue"));
    body_contents.push(text(";"));

    let expected = vec![
        text("// SPDX-License-Identifier: LicenseRef-(SEPPUKU WITH VPL) WITH AGPL-3.0-only"),
        IRElement::HardLineBreak,
        text("pragma"),
        text(" "),
        text("solidity"),
        text(" "),
        text("0.8.15"),
        text(";"),
        IRElement::HardLineBreak,
        IRElement::HardLineBreak,
        text("/**"),
        IRElement::indent(vec![
            IRElement::HardLineBreak,
            text("@custom:benediction DEVS BENEDICAT ET PROTEGAT CONTRACTVM MEVM"),
            IRElement::HardLineBreak,
            text("@title A testing contract."),
            IRElement::HardLineBreak,
            text("@author Tim Clancy <tim-clancy.eth>"),
            IRElement::HardLineBreak,
            text("@custom:terry \"How is twenty times four 80?!\""),
            IRElement::HardLineBreak,
            IRElement::HardLineBreak,
            grouped_text("This contract has a very long description on a single line here. It really keeps running on and on and on. The formatter should make this one look beautiful."),
            IRElement::HardLineBreak,
            IRElement::HardLineBreak,
            text("@custom:date June 3rd, 2025."),
        ]),
        IRElement::HardLineBreak,
        text("*/"),
        IRElement::HardLineBreak,
        text("contract"),
        text(" "),
        text("Test"),
        text(" "),
        text("{"),
        IRElement::indent(body_contents),
        IRElement::HardLineBreak,
        text("}"),
    ];

    assert_eq!(ir.len(), expected.len());
    for (i, (a, b)) in ir.iter().zip(expected.iter()).enumerate() {
        assert_eq!(a, b, "element {}", i);
    }
}
