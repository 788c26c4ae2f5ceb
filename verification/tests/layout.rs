use dove::ir_builder::build_ir;
use dove::ir_builder::ir::IRElement;
use dove::ir_builder::toplevel::{build_import_ir, build_pragma_ir};
use dove::model::{
    CollectedContract, CollectedElements, CollectedError, CollectedStruct, Comment, CommentedElement, ContractContents,
    ContractDefinition, ContractTy, IdentifierPath, Import, ImportPath, PragmaDirective, StructMember, TypeDefinition, Using,
    UsingList, VersionComparator, VersionOp,
};
use dove::ast::{CollectedFunction, FunctionDefinition, FunctionTy};
use dove::printer::print_ir;

const HEADER: &str = "// SPDX-License-Identifier: LicenseRef-(SEPPUKU WITH VPL) WITH AGPL-3.0-only";

fn bare<T>(element: T) -> CommentedElement<T> {
    CommentedElement { element, leading_comments: vec![], trailing_comments: vec![] }
}

fn parts(v: &str) -> Vec<String> {
    v.split('.').map(|p| p.to_string()).collect()
}

fn empty() -> CollectedElements {
    CollectedElements {
        pragmas: vec![],
        imports: vec![],
        using_directives: vec![],
        errors: vec![],
        types: vec![],
        enums: vec![],
        structs: vec![],
        functions: vec![],
        variables: vec![],
        contracts: vec![],
        standalone_comments: vec![],
    }
}

fn empty_contents() -> ContractContents {
    ContractContents {
        using_directives: vec![],
        types: vec![],
        enums: vec![],
        structs: vec![],
        errors: vec![],
        events: vec![],
        variables: vec![],
        functions: vec![],
    }
}

fn documented_contract(ty: ContractTy, name: &str) -> CollectedContract {
    CollectedContract {
        definition: CommentedElement {
            element: ContractDefinition { ty, name: Some(name.to_string()), base: vec![] },
            leading_comments: vec![Comment::DocLine(format!("/// {}.", name))],
            trailing_comments: vec![],
        },
        contents: empty_contents(),
    }
}

fn documented_error(name: &str) -> CollectedError {
    CollectedError {
        definition: CommentedElement {
            element: name.to_string(),
            leading_comments: vec![Comment::DocLine(format!("/// @notice {}.", name))],
            trailing_comments: vec![],
        },
        parameters: vec![],
    }
}

fn file_import(path: &str) -> CommentedElement<Import> {
    bare(Import::Plain(ImportPath::Filename(path.to_string())))
}

fn printed_pragma(p: PragmaDirective) -> String {
    print_ir(&build_pragma_ir(&bare(p)))
}

fn printed_import(i: Import) -> String {
    print_ir(&build_import_ir(&bare(i)))
}

#[test]
fn pragma_forms() {
    let v = PragmaDirective::Version(vec![VersionComparator::Plain { version: parts("0.8.15") }]);
    assert_eq!(printed_pragma(v), "pragma solidity 0.8.15;\n");
    let range = PragmaDirective::Version(vec![
        VersionComparator::Operator { op: VersionOp::GreaterEq, version: parts("0.8.0") },
        VersionComparator::Range { from: parts("0.8.1"), to: parts("0.8.9") },
        VersionComparator::Operator { op: VersionOp::Exact, version: parts("0.9") },
    ]);
    assert_eq!(printed_pragma(range), "pragma solidity >=0.8.0 || 0.8.1 - 0.8.9 || 0.9;\n");
    let ident = PragmaDirective::Identifier(Some("abicoder".to_string()), Some("v2".to_string()));
    assert_eq!(printed_pragma(ident), "pragma abicoder v2;\n");
    let lit = PragmaDirective::StringLiteral("experimental".to_string(), "SMTChecker".to_string());
    assert_eq!(printed_pragma(lit), "pragma experimental \"SMTChecker\";\n");
}

#[test]
fn pragma_keeps_comments_but_not_license_comments() {
    let p = CommentedElement {
        element: PragmaDirective::Version(vec![VersionComparator::Plain { version: parts("0.8.20") }]),
        leading_comments: vec![
            Comment::Line("// SPDX-License-Identifier: MIT".to_string()),
            Comment::Line("// compiler".to_string()),
        ],
        trailing_comments: vec![],
    };
    assert_eq!(print_ir(&build_pragma_ir(&p)), "// compiler\npragma solidity 0.8.20;\n");
}

#[test]
fn plain_import_becomes_named_import() {
    let i = Import::Plain(ImportPath::Filename("@openzeppelin/contracts/access/Ownable.sol".to_string()));
    assert_eq!(
        printed_import(i),
        "import { Ownable } from \"@openzeppelin/contracts/access/Ownable.sol\";\n"
    );
    let no_dir = Import::Plain(ImportPath::Filename("Token".to_string()));
    assert_eq!(printed_import(no_dir), "import { Token } from \"Token\";\n");
}

#[test]
fn other_import_forms() {
    let g = Import::GlobalSymbol(ImportPath::Filename("./Lib.sol".to_string()), "L".to_string());
    assert_eq!(printed_import(g), "import \"./Lib.sol\" as L;\n");
    let r = Import::Rename(
        ImportPath::Filename("./Two.sol".to_string()),
        vec![("A".to_string(), Some("B".to_string())), ("C".to_string(), None)],
    );
    assert_eq!(printed_import(r), "import { A as B, C } from \"./Two.sol\";\n");
    let p = Import::Plain(ImportPath::Path(IdentifierPath {
        identifiers: vec!["lib".to_string(), "Math".to_string()],
    }));
    assert_eq!(printed_import(p), "import { Math } from lib.Math;\n");
}

#[test]
fn long_import_breaks_before_its_path() {
    let long = format!("@scope/{}/File.sol", "x".repeat(50));
    let i = Import::Plain(ImportPath::Filename(long.clone()));
    assert_eq!(printed_import(i), format!("import {{ File }} from\n  \"{}\";\n", long));
}

#[test]
fn empty_unit_is_just_the_header() {
    assert_eq!(print_ir(&build_ir(empty())), format!("{}\n", HEADER));
}

#[test]
fn whole_unit_layout() {
    let mut e = empty();
    e.pragmas = vec![bare(PragmaDirective::Version(vec![VersionComparator::Plain { version: parts("0.8.15") }]))];
    e.imports = vec![file_import("./Foo.sol"), file_import("@oz/Bar.sol")];
    e.contracts = vec![documented_contract(ContractTy::Contract, "A"), documented_contract(ContractTy::Library, "L")];
    e.standalone_comments = vec![
        Comment::Line("// SPDX-License-Identifier: MIT".to_string()),
        Comment::Line("// Interfaces".to_string()),
        Comment::Line("// the end".to_string()),
    ];
    let expected = format!(
        "{}\npragma solidity 0.8.15;\n\nimport {{ Bar }} from \"@oz/Bar.sol\";\n\nimport {{ Foo }} from \"./Foo.sol\";\n\n/// L.\nlibrary L {{ }}\n\n/// A.\ncontract A {{ }}\n// the end\n",
        HEADER
    );
    assert_eq!(print_ir(&build_ir(e)), expected);
}

#[test]
fn kinds_are_separated_by_blank_lines() {
    let mut e = empty();
    e.using_directives = vec![bare(Using {
        list: UsingList::Library(IdentifierPath { identifiers: vec!["L".to_string()] }),
        ty_ir: Some(IRElement::text("uint256")),
        global: false,
    })];
    e.types = vec![bare(TypeDefinition { name: "T".to_string(), ty_ir: IRElement::text("uint256") })];
    e.errors = vec![documented_error("E"), documented_error("F")];
    e.functions = vec![CollectedFunction {
        definition: CommentedElement {
            element: FunctionDefinition {
                ty: FunctionTy::Function,
                name: Some("f".to_string()),
                params: vec![],
                attributes: vec![],
                outputs: vec![],
                has_body: true,
            },
            leading_comments: vec![Comment::DocLine("/// @notice Does f.".to_string())],
            trailing_comments: vec![],
        },
        body_statements: vec![],
    }];
    let expected = format!(
        "{}\nusing L for uint256;\n\n\n\ntype T is uint256;\n\n/// E.\nerror E ();\n\n/// F.\nerror F ();\n\n",
        HEADER
    );
    let out = print_ir(&build_ir(e));
    assert!(out.starts_with(&expected), "{}", out);
    assert!(out.ends_with("/// Does f.\nfunction f () { }\n"), "{}", out);
}

#[test]
fn first_kind_after_pragmas_follows_one_blank_line() {
    let mut e = empty();
    e.pragmas = vec![bare(PragmaDirective::Version(vec![VersionComparator::Plain { version: parts("0.8.0") }]))];
    e.structs = vec![CollectedStruct {
        definition: bare("S".to_string()),
        fields: vec![bare(StructMember { ty_ir: IRElement::text("uint256"), name: Some("a".to_string()), size_refs: vec![] })],
    }];
    let expected = format!(
        "{}\npragma solidity 0.8.0;\n\n/**\n  TODO\n\n  @param a TODO\n*/\nstruct S {{\n  uint256 a;\n}}\n",
        HEADER
    );
    assert_eq!(print_ir(&build_ir(e)), expected);
}
