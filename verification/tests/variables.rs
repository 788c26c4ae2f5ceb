use dove::ir_builder::ir::IRElement;
use dove::ir_builder::variables::{
    build_variable_definition_ir, build_variable_natspec_ir_with_type, count_mapping_params,
};
use dove::ast::{Expression, SolType, Visibility};
use dove::model::{Comment, CommentedElement, TypeShape, VariableAttribute, VariableDefinition};
use dove::printer::print_ir;

fn t(s: &str) -> IRElement {
    IRElement::text(s)
}

fn name(s: &str) -> Expression {
    Expression::Variable(s.to_string())
}

fn uint256() -> Expression {
    Expression::Type(SolType::Uint(256))
}

fn strings(ls: &[&str]) -> Vec<String> {
    ls.iter().map(|l| l.to_string()).collect()
}

fn shape(depth: usize) -> TypeShape {
    let mut ty = TypeShape::Other;
    for _ in 0..depth {
        ty = TypeShape::Mapping(Box::new(ty));
    }
    ty
}

fn mapping(depth: usize) -> Expression {
    let mut ty = uint256();
    for _ in 0..depth {
        ty = Expression::Type(SolType::Mapping {
            key: Box::new(Expression::Type(SolType::Address)),
            key_name: None,
            value: Box::new(ty),
            value_name: None,
        });
    }
    ty
}

fn var(leading: Vec<Comment>, trailing: Vec<Comment>, init: Option<Expression>) -> CommentedElement<VariableDefinition> {
    CommentedElement {
        element: VariableDefinition {
            ty: uint256(),
            attrs: vec![VariableAttribute::Visibility(Visibility::Public)],
            name: Some("total".to_string()),
            initializer: init,
            has_type_comments: false,
        },
        leading_comments: leading,
        trailing_comments: trailing,
    }
}

#[test]
fn mapping_parameter_counts() {
    assert_eq!(count_mapping_params(&shape(0)), (0, 0));
    assert_eq!(count_mapping_params(&shape(1)), (1, 1));
    assert_eq!(count_mapping_params(&shape(3)), (3, 1));
}

#[test]
fn description_only_natspec() {
    let ir = build_variable_natspec_ir_with_type(&strings(&["@notice The owner."]), &uint256());
    assert_eq!(
        ir,
        vec![
            t("/**"),
            IRElement::indent(vec![
                IRElement::hard_break(),
                IRElement::group(vec![t("The"), IRElement::soft_break(), t("owner.")]),
            ]),
            IRElement::hard_break(),
            t("*/"),
        ]
    );
    assert_eq!(print_ir(&ir), "/**\n  The owner.\n*/\n");
}

#[test]
fn mapping_natspec_turns_extra_param_into_return() {
    let lines = strings(&["@notice Balances.", "@param account The account.", "@param extra Value."]);
    let ir = build_variable_natspec_ir_with_type(&lines, &mapping(1));
    assert_eq!(
        print_ir(&ir),
        "/**\n  Balances.\n\n  @custom:param _account The account.\n\n  @custom:return _extra Value.\n*/\n"
    );
}

#[test]
fn undocumented_mapping_gets_todo_tags() {
    let ir = build_variable_natspec_ir_with_type(&[], &mapping(2));
    assert_eq!(
        print_ir(&ir),
        "/**\n  TODO\n\n  @custom:param TODO\n  @custom:param TODO\n\n  @custom:return TODO\n*/\n"
    );
}

#[test]
fn tag_names_get_an_underscore_except_todo() {
    let lines = strings(&["@param _a x", "@param TODO", "@return b", "@custom:info kept"]);
    let ir = build_variable_natspec_ir_with_type(&lines, &uint256());
    assert_eq!(
        print_ir(&ir),
        "/**\n  TODO\n\n  @param _a x\n  @param TODO\n\n  @return _b\n  @custom:info kept\n*/\n"
    );
}

#[test]
fn continuation_lines_join_the_description() {
    let lines = strings(&["@dev First part", "second part", "", "third"]);
    let ir = build_variable_natspec_ir_with_type(&lines, &uint256());
    assert_eq!(print_ir(&ir), "/**\n  First part second part third\n*/\n");
}

#[test]
fn undocumented_variable_gets_todo() {
    let ir = build_variable_definition_ir(var(vec![], vec![], None));
    assert_eq!(print_ir(&ir), "/// TODO\nuint256 public total;\n");
}

#[test]
fn notice_becomes_a_one_line_doc_comment() {
    let lead = vec![Comment::DocLine("/// @notice Total supply.".to_string())];
    let ir = build_variable_definition_ir(var(lead, vec![], Some(name("1"))));
    assert_eq!(print_ir(&ir), "/// Total supply.\nuint256 public total = 1;\n");
}

#[test]
fn trailing_comment_joins_the_description() {
    let lead = vec![Comment::DocLine("/// @dev Counter".to_string())];
    let trail = vec![Comment::Line("// increments".to_string())];
    let ir = build_variable_definition_ir(var(lead, trail, None));
    assert_eq!(print_ir(&ir), "/// Counter increments\nuint256 public total;\n");
}

#[test]
fn plain_comments_are_kept() {
    let lead = vec![Comment::Line("// note".to_string())];
    let ir = build_variable_definition_ir(var(lead, vec![], None));
    assert_eq!(print_ir(&ir), "// note\nuint256 public total;\n");
}

#[test]
fn tagged_doc_lines_make_a_block() {
    let lead = vec![
        Comment::DocLine("/// @notice Limits.".to_string()),
        Comment::DocLine("/// @custom:unit wei".to_string()),
    ];
    let ir = build_variable_definition_ir(var(lead, vec![], None));
    assert_eq!(print_ir(&ir), "/**\n  Limits.\n  @custom:unit wei\n*/\nuint256 public total;\n");
}

#[test]
fn long_initializer_moves_to_the_next_line() {
    let long = "x".repeat(70);
    let ir = build_variable_definition_ir(var(vec![], vec![], Some(name(&long))));
    assert_eq!(print_ir(&ir), format!("/// TODO\nuint256 public total =\n  {};\n", long));
}
