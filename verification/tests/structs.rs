use dove::ir_builder::ir::IRElement;
use dove::ir_builder::types::{
    build_struct_ir, extract_comment_text, format_struct_natspec_ir, parse_struct_comments_custom,
};
use dove::model::{CollectedStruct, Comment, CommentedElement, StructMember};
use dove::printer::print_ir;

fn doc_lines(ls: &[&str]) -> Vec<Comment> {
    ls.iter().map(|l| Comment::DocLine(l.to_string())).collect()
}

fn pair(a: &str, b: &str) -> (String, String) {
    (a.to_string(), b.to_string())
}

#[test]
fn struct_comments_give_description_and_fields() {
    let cs = doc_lines(&[
        "/// @notice A point.",
        "/// @param x The x coordinate",
        "/// @custom:field y The y",
        "/// coordinate",
    ]);
    let (description, fields) = parse_struct_comments_custom(&cs);
    assert_eq!(description, "A point.");
    assert_eq!(fields, vec![pair("x", "The x coordinate"), pair("y", "The y coordinate")]);
}

#[test]
fn struct_block_comment_continues_by_indentation() {
    let cs = vec![Comment::DocBlock("/**\n  @param a first\n    continued\n*/".to_string())];
    let (description, fields) = parse_struct_comments_custom(&cs);
    assert_eq!(description, "TODO");
    assert_eq!(fields, vec![pair("a", "first continued")]);
}

#[test]
fn struct_plain_line_after_tag_at_same_indent_is_description() {
    let cs = vec![Comment::DocBlock("/**\n@dev Holds things.\nMore words.\n*/".to_string())];
    let (description, fields) = parse_struct_comments_custom(&cs);
    assert_eq!(description, "Holds things. More words.");
    assert!(fields.is_empty());
}

#[test]
fn struct_natspec_merges_inline_docs() {
    let cs = doc_lines(&["/// @notice A point.", "/// @param x The x"]);
    let names = vec!["x".to_string(), "y".to_string(), "z".to_string()];
    let inline = vec![pair("x", "(horizontal)"), pair("y", "The y")];
    let ir = format_struct_natspec_ir(&cs, "Point", &names, &inline);
    assert_eq!(
        print_ir(&ir),
        "/**\n  A point.\n\n  @param x The x (horizontal)\n  @param y The y\n  @param z TODO\n*/\n"
    );
}

#[test]
fn undocumented_struct_gets_todo() {
    let ir = format_struct_natspec_ir(&[], "Empty", &[], &[]);
    assert_eq!(print_ir(&ir), "/**\n  TODO\n*/\n");
}

#[test]
fn comment_text_without_markers() {
    assert_eq!(extract_comment_text(&Comment::Line("// hello ".to_string())), "hello");
    assert_eq!(extract_comment_text(&Comment::DocLine("/// doc".to_string())), "doc");
    assert_eq!(
        extract_comment_text(&Comment::Block("/* first\n * second\n */".to_string())),
        "first second"
    );
    assert_eq!(extract_comment_text(&Comment::Block("/*/".to_string())), "");
}

fn member(ty: &str, name: &str, leading: Vec<Comment>, trailing: Vec<Comment>) -> CommentedElement<StructMember> {
    CommentedElement {
        element: StructMember { ty_ir: IRElement::text(ty), name: Some(name.to_string()), size_refs: vec![] },
        leading_comments: leading,
        trailing_comments: trailing,
    }
}

#[test]
fn struct_with_member_comments() {
    let s = CollectedStruct {
        definition: CommentedElement {
            element: "Point".to_string(),
            leading_comments: doc_lines(&["/// @notice A point."]),
            trailing_comments: vec![],
        },
        fields: vec![
            member("uint256", "x", vec![Comment::Line("// The x".to_string())], vec![]),
            member("uint256", "y", vec![], vec![Comment::Line("// The y".to_string())]),
        ],
    };
    assert_eq!(
        print_ir(&build_struct_ir(s)),
        "/**\n  A point.\n\n  @param x The x\n  @param y The y\n*/\nstruct Point {\n  uint256 x;\n  uint256 y;\n}\n"
    );
}

#[test]
fn struct_without_members() {
    let s = CollectedStruct {
        definition: CommentedElement { element: "Empty".to_string(), leading_comments: vec![], trailing_comments: vec![] },
        fields: vec![],
    };
    assert_eq!(print_ir(&build_struct_ir(s)), "/**\n  TODO\n*/\nstruct Empty {}\n");
}
