use dove::ir_builder::ir::IRElement;
use dove::printer::{check_flat_layout_fits, print_ir, Printer};

fn t(s: &str) -> IRElement {
    IRElement::text(s)
}

#[test]
fn group_that_fits_stays_on_one_line() {
    let ir = vec![IRElement::group(vec![
        t("function"),
        IRElement::soft_break(),
        t("f()"),
        IRElement::soft_break(),
        t("{}"),
    ])];
    assert_eq!(print_ir(&ir), "function f() {}\n");
}

#[test]
fn group_that_does_not_fit_is_filled() {
    let ir = vec![IRElement::group(vec![
        t("aaaa"),
        IRElement::soft_break(),
        t("bbbb"),
        IRElement::soft_break(),
        t("cccc"),
    ])];
    let mut printer = Printer::with_config(10, 2);
    assert_eq!(printer.print(&ir), "aaaa bbbb\ncccc\n");
}

#[test]
fn group_width_must_stay_below_the_limit() {
    // Exactly 10 columns wide: a group must end before the limit to stay flat.
    let ir = vec![IRElement::group(vec![t("aaaa"), IRElement::soft_break(), t("bbbbb")])];
    let mut printer = Printer::with_config(10, 2);
    assert_eq!(printer.print(&ir), "aaaa bbbbb\n");
    let mut narrow = Printer::with_config(9, 2);
    assert_eq!(narrow.print(&ir), "aaaa\nbbbbb\n");
}

#[test]
fn indentation_is_applied_after_line_breaks() {
    let ir = vec![
        t("a {"),
        IRElement::indent(vec![IRElement::hard_break(), t("b;")]),
        IRElement::hard_break(),
        t("}"),
    ];
    assert_eq!(print_ir(&ir), "a {\n  b;\n}\n");
    let mut four = Printer::with_config(80, 4);
    assert_eq!(four.print(&ir), "a {\n    b;\n}\n");
}

#[test]
fn trailing_spaces_are_stripped_at_line_breaks() {
    let ir = vec![t("x  "), IRElement::hard_break(), t("y")];
    assert_eq!(print_ir(&ir), "x\ny\n");
}

#[test]
fn top_level_soft_breaks_are_line_breaks() {
    let ir = vec![t("a"), IRElement::soft_break(), t("b"), IRElement::softest_break(), t("c")];
    assert_eq!(print_ir(&ir), "a\nb\nc\n");
}

#[test]
fn softest_break_is_nothing_in_a_flat_group() {
    let ir = vec![IRElement::group(vec![t("f("), IRElement::softest_break(), t("x)")])];
    assert_eq!(print_ir(&ir), "f(x)\n");
}

#[test]
fn continuation_break_is_a_space_in_a_flat_group() {
    let ir = vec![IRElement::group(vec![t("a"), IRElement::SoftLineBreakWithContinuation, t("b")])];
    assert_eq!(print_ir(&ir), "a b\n");
}

#[test]
fn empty_ir_prints_a_single_newline() {
    assert_eq!(print_ir(&[]), "\n");
}

#[test]
fn output_ends_with_exactly_the_text_newline() {
    let ir = vec![t("x\n")];
    assert_eq!(print_ir(&ir), "x\n");
}

#[test]
fn short_comment_is_a_line_comment() {
    assert_eq!(print_ir(&[IRElement::comment("hello", false)]), "// hello\n");
    assert_eq!(print_ir(&[IRElement::comment("doc", true)]), "/// doc\n");
}

#[test]
fn long_comment_is_a_wrapped_block_comment() {
    let mut printer = Printer::with_config(20, 2);
    let ir = vec![IRElement::comment("one two three four five six", false)];
    assert_eq!(printer.print(&ir), "/*\n  one two three four\n  five six\n*/\n");
}

#[test]
fn comment_with_newlines_keeps_its_lines() {
    let ir = vec![IRElement::comment("first line\n  second line", true)];
    assert_eq!(print_ir(&ir), "/**\n  first line\n  second line\n*/\n");
}

#[test]
fn flat_layout_check() {
    let es = vec![t("abc"), IRElement::soft_break(), t("de")];
    assert_eq!(check_flat_layout_fits(&es, 0, 80), Some(6));
    assert_eq!(check_flat_layout_fits(&es, 74, 80), Some(80));
    assert_eq!(check_flat_layout_fits(&es, 75, 80), None);
    let hard = vec![t("a"), IRElement::hard_break()];
    assert_eq!(check_flat_layout_fits(&hard, 0, 80), None);
    let nested = vec![t("f("), IRElement::group(vec![t("x"), IRElement::comment("c", true)]), t(")")];
    assert_eq!(check_flat_layout_fits(&nested, 0, 80), Some(2 + 1 + 3 + 1 + 1 + 1));
}

#[test]
fn printing_keeps_every_visible_character() {
    let ir = vec![
        t("contract C {"),
        IRElement::indent(vec![
            IRElement::hard_break(),
            IRElement::group(vec![
                t("uint256"),
                IRElement::soft_break(),
                t("public"),
                IRElement::soft_break(),
                t("value;"),
            ]),
        ]),
        IRElement::hard_break(),
        t("}"),
    ];
    let visible = |s: &str| s.chars().filter(|c| !c.is_whitespace()).collect::<String>();
    for width in [4usize, 10, 80] {
        let mut printer = Printer::with_config(width, 2);
        let out = printer.print(&ir);
        assert_eq!(visible(&out), "contractC{uint256publicvalue;}");
        assert!(out.ends_with('\n'));
    }
}

#[test]
fn printer_can_be_reused() {
    let mut printer = Printer::new();
    assert_eq!(printer.print(&[t("a")]), "a\n");
    assert_eq!(printer.print(&[t("b")]), "b\n");
}
