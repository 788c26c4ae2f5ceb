use dove::ir_builder::comments::{
    build_comment, build_leading_comments, build_leading_comments_without_spdx,
    build_natspec_comment_ir, is_import_section_comment, is_spdx_comment, with_comments,
    with_comments_no_spdx,
};
use dove::ir_builder::ir::IRElement;
use dove::ir_builder::text_with_word_breaks;
use dove::model::Comment;
use dove::printer::print_ir;

fn t(s: &str) -> IRElement {
    IRElement::text(s)
}

fn line(s: &str) -> Comment {
    Comment::Line(s.to_string())
}

#[test]
fn build_comment_strips_markers() {
    assert_eq!(build_comment(&line("//   hello  ")), IRElement::comment("hello", false));
    assert_eq!(build_comment(&Comment::Block("/* block */".to_string())), IRElement::comment("block", false));
    assert_eq!(build_comment(&Comment::DocLine("/// @notice Hi".to_string())), IRElement::comment("@notice Hi", true));
    assert_eq!(build_comment(&Comment::DocBlock("/** doc */".to_string())), IRElement::comment("doc", true));
}

#[test]
fn spdx_and_import_section_comments_are_recognised() {
    assert!(is_spdx_comment(&line("// SPDX-License-Identifier: MIT")));
    assert!(is_spdx_comment(&Comment::Block("/* SPDX-License-Identifier: MIT */".to_string())));
    assert!(!is_spdx_comment(&line("// not a license")));
    assert!(is_import_section_comment(&line("// Interfaces")));
    assert!(is_import_section_comment(&line("//Contracts")));
    assert!(!is_import_section_comment(&line("// Interfaces used here")));
}

#[test]
fn word_breaks_separate_words() {
    assert_eq!(
        text_with_word_breaks("  one  two three "),
        vec![t("one"), IRElement::soft_break(), t("two"), IRElement::soft_break(), t("three")]
    );
    assert_eq!(text_with_word_breaks("   "), vec![]);
}

#[test]
fn natspec_block_is_rebuilt_and_printed() {
    let ir = build_natspec_comment_ir("/**\n @title A\n @param x the value\n */");
    assert_eq!(
        ir,
        vec![
            t("/**"),
            IRElement::indent(vec![
                IRElement::hard_break(),
                t("@title A"),
                IRElement::hard_break(),
                IRElement::group(vec![
                    t("@param x"),
                    t(" "),
                    t("the"),
                    IRElement::SoftLineBreakWithContinuation,
                    t("value"),
                ]),
            ]),
            IRElement::hard_break(),
            t("*/"),
        ]
    );
    assert_eq!(print_ir(&ir), "/**\n  @title A\n  @param x the value\n*/\n");
}

#[test]
fn natspec_continuation_lines_join_their_tag() {
    let ir = build_natspec_comment_ir("@dev first\n  second\n\nText here");
    assert_eq!(
        ir,
        vec![
            t("/**"),
            IRElement::indent(vec![
                IRElement::hard_break(),
                t("@dev first second"),
                IRElement::hard_break(),
                IRElement::hard_break(),
                IRElement::group(vec![t("Text"), IRElement::soft_break(), t("here")]),
            ]),
            IRElement::hard_break(),
            t("*/"),
        ]
    );
}

#[test]
fn leading_line_comments_are_combined() {
    let cs = vec![line("// first"), line("// second"), Comment::DocLine("/// doc".to_string())];
    assert_eq!(
        build_leading_comments(&cs),
        vec![
            IRElement::comment("first second", false),
            IRElement::hard_break(),
            IRElement::comment("doc", true),
            IRElement::hard_break(),
        ]
    );
}

#[test]
fn preserve_marker_keeps_line_comments_apart() {
    let cs = vec![line("// @custom:preserve"), line("// keep   this")];
    assert_eq!(
        build_leading_comments(&cs),
        vec![
            t("// @custom:preserve"),
            IRElement::hard_break(),
            t("// keep   this"),
            IRElement::hard_break(),
        ]
    );
}

#[test]
fn license_comments_are_dropped_when_asked() {
    let cs = vec![line("// SPDX-License-Identifier: MIT"), line("// note")];
    assert_eq!(
        build_leading_comments_without_spdx(&cs),
        vec![IRElement::comment("note", false), IRElement::hard_break()]
    );
}

#[test]
fn element_follows_its_comments() {
    let r = with_comments(&[line("// lead")], &[], vec![t("x;")]);
    assert_eq!(r, vec![IRElement::comment("lead", false), IRElement::hard_break(), t("x;")]);
    let r = with_comments_no_spdx(&[line("// SPDX-License-Identifier: MIT")], &[], vec![t("y;")]);
    assert_eq!(r, vec![t("y;")]);
    let r = with_comments(&[], &[], vec![t("z;")]);
    assert_eq!(r, vec![t("z;")]);
}
