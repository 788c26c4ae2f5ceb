use dove::ir_builder::contracts::build_event_ir;
use dove::ir_builder::ir::IRElement;
use dove::ir_builder::types::{build_enum_ir, build_error_ir, combine_error_comments, parse_error_comments};
use dove::model::{CollectedEnum, CollectedError, CollectedEvent, Comment, CommentedElement, Parameter};
use dove::printer::print_ir;

fn doc_lines(ls: &[&str]) -> Vec<Comment> {
    ls.iter().map(|l| Comment::DocLine(l.to_string())).collect()
}

fn named(name: &str, leading: Vec<Comment>, trailing: Vec<Comment>) -> CommentedElement<String> {
    CommentedElement { element: name.to_string(), leading_comments: leading, trailing_comments: trailing }
}

fn param(ty: &str, indexed: bool, name: Option<&str>) -> CommentedElement<Parameter> {
    CommentedElement {
        element: Parameter { ty_ir: IRElement::text(ty), indexed, name: name.map(|n| n.to_string()) },
        leading_comments: vec![],
        trailing_comments: vec![],
    }
}

fn value(name: &str, leading: Vec<Comment>, trailing: Vec<Comment>) -> CommentedElement<Option<String>> {
    CommentedElement { element: Some(name.to_string()), leading_comments: leading, trailing_comments: trailing }
}

#[test]
fn error_comments_parse_params_and_continuations() {
    let cs = vec![Comment::DocBlock("/**\n@notice Too low.\n@param have what\n  you have\n*/".to_string())];
    let (description, params) = parse_error_comments(&cs);
    assert_eq!(description, "Too low.");
    assert_eq!(params, vec![("have".to_string(), "what you have".to_string())]);
}

#[test]
fn error_comments_combine_without_notice() {
    let cs = vec![
        Comment::DocLine("/// @notice Not allowed.".to_string()),
        Comment::Line("// ignored".to_string()),
        Comment::DocBlock("/** Really. */".to_string()),
    ];
    assert_eq!(combine_error_comments(&cs), "Not allowed. Really.");
}

#[test]
fn undocumented_error_gets_placeholder() {
    let e = CollectedError {
        definition: named("InsufficientBalance", vec![], vec![]),
        parameters: vec![param("uint256", false, Some("amount")), param("address", false, None)],
    };
    assert_eq!(
        print_ir(&build_error_ir(e)),
        "/**\n  TODO\n\n  @param amount TODO\n*/\nerror InsufficientBalance (\n  uint256 amount,\n  address\n);\n"
    );
}

#[test]
fn documented_error_without_params_is_one_comment() {
    let e = CollectedError {
        definition: named("Denied", doc_lines(&["/// @notice Not allowed."]), vec![]),
        parameters: vec![],
    };
    assert_eq!(print_ir(&build_error_ir(e)), "/// Not allowed.\nerror Denied ();\n");
}

#[test]
fn documented_error_with_params_gets_param_entries() {
    let e = CollectedError {
        definition: named("TooLow", doc_lines(&["/// @notice Too low.", "/// @param have what you have"]), vec![]),
        parameters: vec![param("uint256", false, Some("have")), param("uint256", false, Some("want"))],
    };
    assert_eq!(
        print_ir(&build_error_ir(e)),
        "/**\n  Too low.\n\n  @param have what you have\n  @param want TODO\n*/\nerror TooLow (\n  uint256 have,\n  uint256 want\n);\n"
    );
}

#[test]
fn error_trailing_comment_moves_below() {
    let e = CollectedError {
        definition: named("E", vec![], vec![Comment::Line("// note".to_string())]),
        parameters: vec![],
    };
    assert_eq!(print_ir(&build_error_ir(e)), "error E ();\n// note\n");
}

#[test]
fn undocumented_enum_with_value_comment() {
    let e = CollectedEnum {
        definition: named("Kind", vec![], vec![]),
        values: vec![value("A", vec![], vec![]), value("B", vec![Comment::Line("// second".to_string())], vec![])],
    };
    assert_eq!(
        print_ir(&build_enum_ir(&e)),
        "/**\n  TODO\n\n  @param A TODO\n  @param B TODO\n*/\nenum Kind {\n  A,\n  // second\n  B\n}\n"
    );
}

#[test]
fn enum_value_trailing_comment_moves_below() {
    let e = CollectedEnum {
        definition: named("K", doc_lines(&["/// @notice Kinds."]), vec![]),
        values: vec![value("A", vec![], vec![Comment::Line("// first".to_string())]), value("B", vec![], vec![])],
    };
    assert_eq!(
        print_ir(&build_enum_ir(&e)),
        "/**\n  Kinds.\n\n  @param A TODO\n  @param B TODO\n*/\nenum K {\n  A,\n  // first\n\n  B\n}\n"
    );
}

#[test]
fn undocumented_event_gets_placeholder() {
    let e = CollectedEvent {
        definition: named("Transfer", vec![], vec![]),
        anonymous: false,
        parameters: vec![param("address", true, Some("from")), param("uint256", false, Some("value"))],
    };
    assert_eq!(
        print_ir(&build_event_ir(e)),
        "/**\n  TODO\n\n  @param from TODO\n  @param value TODO\n*/\nevent Transfer (\n  address indexed from,\n  uint256 value\n);\n"
    );
}

#[test]
fn anonymous_event_without_params_stays_flat() {
    let e = CollectedEvent {
        definition: named("Ping", doc_lines(&["/// @notice Pinged."]), vec![]),
        anonymous: true,
        parameters: vec![],
    };
    assert_eq!(print_ir(&build_event_ir(e)), "/**\n  Pinged.\n*/\nevent Ping ( anonymous);\n");
}
