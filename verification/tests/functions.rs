use dove::ir_builder::functions::build_function_natspec_ir;
use dove::printer::print_ir;

fn strings(ls: &[&str]) -> Vec<String> {
    ls.iter().map(|l| l.to_string()).collect()
}

fn names(ns: &[Option<&str>]) -> Vec<Option<String>> {
    ns.iter().map(|n| n.map(|s| s.to_string())).collect()
}

#[test]
fn documented_function_with_missing_param() {
    let lines = strings(&[
        "@notice Sends tokens.",
        "@param to The recipient.",
        "@return success whether it worked",
    ]);
    let ir = build_function_natspec_ir(&lines, &names(&[Some("to"), Some("amount")]), true);
    assert_eq!(
        print_ir(&ir),
        "/**\n  Sends tokens.\n\n  @param _to The recipient.\n  @param _amount TODO\n\n  @return _ whether it worked\n*/\n"
    );
}

#[test]
fn undocumented_function_gets_todos() {
    let ir = build_function_natspec_ir(&[], &names(&[None, Some("_x")]), true);
    assert_eq!(print_ir(&ir), "/**\n  @param _x TODO\n\n  @return _ TODO\n*/\n");
}

#[test]
fn capitalised_return_description_is_kept() {
    let lines = strings(&["@return The commitment"]);
    let ir = build_function_natspec_ir(&lines, &[], true);
    assert_eq!(print_ir(&ir), "/**\n  @return _ The commitment\n*/\n");
}

#[test]
fn returns_are_dropped_when_nothing_is_returned() {
    let lines = strings(&["@dev Does things.", "@return x the value"]);
    let ir = build_function_natspec_ir(&lines, &[], false);
    assert_eq!(print_ir(&ir), "/**\n  Does things.\n\n*/\n");
}

#[test]
fn semver_is_dropped_and_other_tags_continue() {
    let lines = strings(&["@custom:semver 1.0.0", "@custom:proxied", "true"]);
    let ir = build_function_natspec_ir(&lines, &[], false);
    assert_eq!(print_ir(&ir), "/**\n  @custom:proxied true\n*/\n");
}

#[test]
fn double_spaced_param_is_normalized() {
    let lines = strings(&["@param data   Data to emit."]);
    let ir = build_function_natspec_ir(&lines, &names(&[Some("data")]), false);
    assert_eq!(print_ir(&ir), "/**\n  @param _data Data to emit.\n*/\n");
}

#[test]
fn long_param_description_wraps_with_extra_indentation() {
    let desc = "word ".repeat(20);
    let line = format!("@param value {}", desc.trim());
    let ir = build_function_natspec_ir(&strings(&[&line]), &names(&[Some("value")]), false);
    let out = print_ir(&ir);
    let lines: Vec<&str> = out.lines().collect();
    assert_eq!(lines[0], "/**");
    assert!(lines[1].starts_with("  @param _value word"));
    assert!(lines[2].starts_with("    word"));
    assert!(lines.iter().all(|l| l.chars().count() <= 80));
}
