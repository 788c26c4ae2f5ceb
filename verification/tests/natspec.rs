use dove::ir_builder::contracts::{build_event_natspec_from_comments, generate_event_natspec};
use dove::ir_builder::types::{build_enum_natspec_from_comments, generate_enum_natspec};
use dove::model::Comment;
use dove::printer::print_ir;

fn names(ns: &[Option<&str>]) -> Vec<Option<String>> {
    ns.iter().map(|n| n.map(|s| s.to_string())).collect()
}

fn doc_lines(ls: &[&str]) -> Vec<Comment> {
    ls.iter().map(|l| Comment::DocLine(l.to_string())).collect()
}

#[test]
fn undocumented_enum_gets_todos() {
    let ir = generate_enum_natspec(&names(&[Some("A"), None]));
    assert_eq!(print_ir(&ir), "/**\n  TODO\n\n  @param A TODO\n*/\n");
}

#[test]
fn undocumented_enum_without_values() {
    let ir = generate_enum_natspec(&[]);
    assert_eq!(print_ir(&ir), "/**\n  TODO\n*/\n");
}

#[test]
fn documented_enum_keeps_value_docs() {
    let cs = doc_lines(&["/// @notice Colors", "/// @param Red the red one"]);
    let ir = build_enum_natspec_from_comments(&cs, &names(&[Some("Red"), Some("Blue")]));
    assert_eq!(print_ir(&ir), "/**\n  Colors\n\n  @param Red the red one\n  @param Blue TODO\n*/\n");
}

#[test]
fn enum_continuation_lines_join_the_value() {
    let cs = doc_lines(&["/// @dev Modes.", "/// @param Fast goes", "/// quickly"]);
    let ir = build_enum_natspec_from_comments(&cs, &names(&[Some("Fast")]));
    assert_eq!(print_ir(&ir), "/**\n  Modes.\n\n  @param Fast goes quickly\n*/\n");
}

#[test]
fn undocumented_event_gets_todos() {
    let ir = generate_event_natspec(&names(&[Some("from"), Some("to")]));
    assert_eq!(print_ir(&ir), "/**\n  TODO\n\n  @param from TODO\n  @param to TODO\n*/\n");
}

#[test]
fn documented_event_keeps_param_docs() {
    let cs = doc_lines(&["/// @notice Emitted on transfer.", "/// @param from The sender."]);
    let ir = build_event_natspec_from_comments(&cs, &names(&[Some("from"), Some("to")]));
    assert_eq!(
        print_ir(&ir),
        "/**\n  Emitted on transfer.\n\n  @param from The sender.\n  @param to TODO\n*/\n"
    );
}

#[test]
fn event_block_comment_continues_description() {
    let cs = vec![Comment::DocBlock("/** @notice Hello\nworld */".to_string())];
    let ir = build_event_natspec_from_comments(&cs, &[]);
    assert_eq!(print_ir(&ir), "/**\n  Hello world\n*/\n");
}

#[test]
fn event_without_docs_or_params() {
    let ir = build_event_natspec_from_comments(&[], &[]);
    assert_eq!(print_ir(&ir), "/**\n  TODO\n*/\n");
}
