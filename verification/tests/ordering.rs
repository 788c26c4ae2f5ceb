use dove::ir_builder::ordering::{
    compare_versions, extract_version_numbers, find_highest_version_pragma, format_identifier_path,
    format_import_path, get_identifier_pragma_first_name, get_import_group, get_import_path_string,
    get_string_literal_pragma_name, order_commented_imports, order_contracts,
    order_imports_commented, order_pragmas, parse_u32, ImportGroup,
};
use dove::model::{
    CollectedContract, CommentedElement, ContractContents, ContractDefinition, ContractTy, IdentifierPath, Import,
    ImportPath,
    PragmaDirective, VersionComparator, VersionOp,
};

fn bare<T>(element: T) -> CommentedElement<T> {
    CommentedElement { element, leading_comments: vec![], trailing_comments: vec![] }
}

fn version(parts: &[&str]) -> PragmaDirective {
    PragmaDirective::Version(vec![VersionComparator::Plain {
        version: parts.iter().map(|p| p.to_string()).collect(),
    }])
}

fn file_import(path: &str) -> CommentedElement<Import> {
    bare(Import::Plain(ImportPath::Filename(path.to_string())))
}

fn import_paths(imports: &[CommentedElement<Import>]) -> Vec<String> {
    imports.iter().map(|i| get_import_path_string(&i.element)).collect()
}

#[test]
fn test_compare_versions() {
    assert_eq!(compare_versions(&[1, 0, 0], &[0, 9, 9]), 1);
    assert_eq!(compare_versions(&[0, 8, 0], &[0, 8, 1]), -1);
    assert_eq!(compare_versions(&[1, 2, 3], &[1, 2, 3]), 0);
}

#[test]
fn test_format_identifier_path() {
    let path = IdentifierPath {
        identifiers: vec!["contracts".to_string(), "MyContract".to_string()],
    };
    assert_eq!(format_identifier_path(&path), "contracts.MyContract");
}

#[test]
fn test_get_import_path_string() {
    let path = ImportPath::Filename("@openzeppelin/contracts/token/ERC20/ERC20.sol".to_string());
    let import = Import::Plain(path);
    assert_eq!(
        get_import_path_string(&import),
        "@openzeppelin/contracts/token/ERC20/ERC20.sol"
    );
}

#[test]
fn compare_versions_pads_missing_components_with_zero() {
    assert_eq!(compare_versions(&[0, 8], &[0, 8, 0]), 0);
    assert_eq!(compare_versions(&[0, 8], &[0, 8, 1]), -1);
    assert_eq!(compare_versions(&[], &[]), 0);
    assert_eq!(compare_versions(&[2], &[1, 99]), 1);
}

#[test]
fn compare_versions_is_antisymmetric_on_examples() {
    let vs: [&[u32]; 4] = [&[0, 8, 15], &[0, 8, 20], &[1], &[0, 8, 15, 0]];
    for a in vs.iter() {
        for b in vs.iter() {
            assert_eq!(compare_versions(a, b), -compare_versions(b, a));
        }
    }
}

#[test]
fn parse_u32_follows_str_parse() {
    assert_eq!(parse_u32("15"), Some(15));
    assert_eq!(parse_u32("+7"), Some(7));
    assert_eq!(parse_u32("007"), Some(7));
    assert_eq!(parse_u32(""), None);
    assert_eq!(parse_u32("+"), None);
    assert_eq!(parse_u32("-1"), None);
    assert_eq!(parse_u32("1a"), None);
    assert_eq!(parse_u32("4294967295"), Some(u32::MAX));
    assert_eq!(parse_u32("4294967296"), None);
    for s in ["0", "12", "+3", "x", "99999999999", "4294967295"] {
        assert_eq!(parse_u32(s), s.parse::<u32>().ok());
    }
}

#[test]
fn extract_version_numbers_skips_non_numbers() {
    assert_eq!(extract_version_numbers(&version(&["0", "8", "x"])), vec![0, 8]);
    assert_eq!(extract_version_numbers(&version(&["0", "8", "15"])), vec![0, 8, 15]);
    let op = PragmaDirective::Version(vec![VersionComparator::Operator {
        op: VersionOp::Caret,
        version: vec!["0".to_string(), "7".to_string()],
    }]);
    assert_eq!(extract_version_numbers(&op), vec![0, 7]);
    assert_eq!(extract_version_numbers(&PragmaDirective::Version(vec![])), vec![0, 0, 0]);
    let range = PragmaDirective::Version(vec![VersionComparator::Range {
        from: vec!["0".to_string()],
        to: vec!["1".to_string()],
    }]);
    assert_eq!(extract_version_numbers(&range), vec![0, 0, 0]);
    let ident = PragmaDirective::Identifier(Some("abicoder".to_string()), None);
    assert_eq!(extract_version_numbers(&ident), vec![0, 0, 0]);
}

#[test]
fn highest_version_pragma_is_chosen_and_ties_keep_the_first() {
    assert!(find_highest_version_pragma(vec![]).is_none());
    let ps = vec![
        bare(version(&["0", "8", "0"])),
        bare(version(&["0", "8", "20"])),
        bare(version(&["0", "7", "99"])),
    ];
    let h = find_highest_version_pragma(ps).unwrap();
    assert_eq!(h.element, version(&["0", "8", "20"]));
    let tie = vec![bare(version(&["0", "8", "0"])), bare(version(&["0", "8"]))];
    let h = find_highest_version_pragma(tie).unwrap();
    assert_eq!(h.element, version(&["0", "8", "0"]));
}

#[test]
fn pragma_names() {
    let ident = PragmaDirective::Identifier(Some("abicoder".to_string()), Some("v2".to_string()));
    assert_eq!(get_identifier_pragma_first_name(&ident), "abicoder");
    assert_eq!(get_identifier_pragma_first_name(&PragmaDirective::Identifier(None, None)), "");
    assert_eq!(get_string_literal_pragma_name(&ident), "");
    let lit = PragmaDirective::StringLiteral("experimental".to_string(), "x".to_string());
    assert_eq!(get_string_literal_pragma_name(&lit), "experimental");
    assert_eq!(get_identifier_pragma_first_name(&lit), "");
}

#[test]
fn order_pragmas_keeps_highest_version_then_sorted_names() {
    let ps = vec![
        bare(PragmaDirective::StringLiteral("zeta".to_string(), "1".to_string())),
        bare(PragmaDirective::Identifier(Some("solc".to_string()), None)),
        bare(version(&["0", "8", "15"])),
        bare(PragmaDirective::StringLiteral("alpha".to_string(), "2".to_string())),
        bare(PragmaDirective::Identifier(Some("abicoder".to_string()), Some("v2".to_string()))),
        bare(version(&["0", "8", "20"])),
    ];
    let r = order_pragmas(ps);
    let elements: Vec<PragmaDirective> = r.into_iter().map(|p| p.element).collect();
    assert_eq!(
        elements,
        vec![
            version(&["0", "8", "20"]),
            PragmaDirective::Identifier(Some("abicoder".to_string()), Some("v2".to_string())),
            PragmaDirective::Identifier(Some("solc".to_string()), None),
            PragmaDirective::StringLiteral("alpha".to_string(), "2".to_string()),
            PragmaDirective::StringLiteral("zeta".to_string(), "1".to_string()),
        ]
    );
}

#[test]
fn order_pragmas_sort_is_stable() {
    let ps = vec![
        bare(PragmaDirective::Identifier(Some("b".to_string()), Some("first".to_string()))),
        bare(PragmaDirective::Identifier(Some("a".to_string()), None)),
        bare(PragmaDirective::Identifier(Some("b".to_string()), Some("second".to_string()))),
    ];
    let r: Vec<PragmaDirective> = order_pragmas(ps).into_iter().map(|p| p.element).collect();
    assert_eq!(
        r,
        vec![
            PragmaDirective::Identifier(Some("a".to_string()), None),
            PragmaDirective::Identifier(Some("b".to_string()), Some("first".to_string())),
            PragmaDirective::Identifier(Some("b".to_string()), Some("second".to_string())),
        ]
    );
}

#[test]
fn import_groups() {
    assert_eq!(get_import_group(&file_import("@oz/a.sol").element), ImportGroup::External);
    assert_eq!(get_import_group(&file_import("interfaces/I.sol").element), ImportGroup::Interfaces);
    assert_eq!(get_import_group(&file_import("./interfaces/I.sol").element), ImportGroup::Local);
    let path = Import::GlobalSymbol(
        ImportPath::Path(IdentifierPath { identifiers: vec!["interfaces".to_string(), "X".to_string()] }),
        "X".to_string(),
    );
    assert_eq!(get_import_group(&path), ImportGroup::Interfaces);
}

#[test]
fn imports_are_grouped_and_sorted_ignoring_case() {
    let imports = vec![
        file_import("Zeta.sol"),
        file_import("interfaces/IB.sol"),
        file_import("@oz/b.sol"),
        file_import("alpha.sol"),
        file_import("interfaces/IA.sol"),
        file_import("@oz/A.sol"),
    ];
    let grouped = order_commented_imports(imports);
    assert_eq!(import_paths(&grouped.external), vec!["@oz/A.sol", "@oz/b.sol"]);
    assert_eq!(import_paths(&grouped.interfaces), vec!["interfaces/IA.sol", "interfaces/IB.sol"]);
    assert_eq!(import_paths(&grouped.local), vec!["alpha.sol", "Zeta.sol"]);
}

#[test]
fn ordered_imports_put_groups_in_sequence() {
    let imports = vec![
        file_import("./local.sol"),
        file_import("interfaces/I.sol"),
        file_import("@ext/E.sol"),
    ];
    let r = order_imports_commented(imports);
    assert_eq!(import_paths(&r), vec!["@ext/E.sol", "interfaces/I.sol", "./local.sol"]);
}

#[test]
fn import_path_text() {
    let p = ImportPath::Path(IdentifierPath { identifiers: vec!["a".to_string(), "b".to_string(), "c".to_string()] });
    assert_eq!(format_import_path(&p), "a.b.c");
    assert_eq!(format_import_path(&ImportPath::Filename("x.sol".to_string())), "x.sol");
    let r = Import::Rename(ImportPath::Filename("y.sol".to_string()), vec![("A".to_string(), None)]);
    assert_eq!(get_import_path_string(&r), "y.sol");
}

#[test]
fn contracts_are_ordered_by_kind_keeping_order_within_kind() {
    let make = |ty: ContractTy, name: &str| CollectedContract {
        definition: CommentedElement {
            element: ContractDefinition { ty, name: Some(name.to_string()), base: vec![] },
            leading_comments: vec![],
            trailing_comments: vec![],
        },
        contents: ContractContents {
            using_directives: vec![],
            types: vec![],
            enums: vec![],
            structs: vec![],
            errors: vec![],
            events: vec![],
            variables: vec![],
            functions: vec![],
        },
    };
    let cs = vec![
        make(ContractTy::Contract, "C1"),
        make(ContractTy::Interface, "I1"),
        make(ContractTy::Abstract, "A1"),
        make(ContractTy::Library, "L1"),
        make(ContractTy::Contract, "C2"),
        make(ContractTy::Interface, "I2"),
    ];
    let r = order_contracts(cs);
    let names: Vec<String> = r.into_iter().map(|c| c.definition.element.name.unwrap()).collect();
    let expected: Vec<String> = ["L1", "I1", "I2", "A1", "C1", "C2"].iter().map(|n| n.to_string()).collect();
    assert_eq!(names, expected);
}
