use dove::ir_builder::expressions::{
    build_param_rename_map, normalize_param_name, transform_return_var_name,
};
use dove::ast::{
    CollectedFunction, Expression, FunctionAttribute, FunctionDefinition, FunctionTy, Mutability, SolType,
    StorageLocation, Visibility,
};
use dove::model::{Comment, CommentedElement};
use dove::peck::{
    transform_contract_comments, transform_custom_tags, transform_title_in_natspec,
    transform_variable_comments,
};

#[test]
fn custom_tags_become_standard_tags() {
    assert_eq!(
        transform_custom_tags("/// @custom:param a x\n/// @custom:return b y"),
        "/// @param a x\n/// @return b y"
    );
    assert_eq!(transform_custom_tags("@custom:paramx"), "@paramx");
    assert_eq!(transform_custom_tags("nothing here"), "nothing here");
}

#[test]
fn title_gets_interface_suffix() {
    assert_eq!(
        transform_title_in_natspec("/**\n * @title Token\n * @author Me\n */"),
        "/**\n * @title Token Interface\n * @author Me\n */"
    );
    assert_eq!(transform_title_in_natspec("@title A"), "@title A Interface");
    assert_eq!(transform_title_in_natspec("  @title   Spaced  "), "@title Spaced Interface");
    assert_eq!(transform_title_in_natspec("line\r\nnext\n"), "line\nnext");
}

#[test]
fn only_natspec_comments_are_rewritten() {
    let cs = vec![
        Comment::DocBlock("/** @title X */".to_string()),
        Comment::Line("// @title Y".to_string()),
    ];
    let r = transform_contract_comments(&cs);
    assert_eq!(
        r,
        vec![
            Comment::DocBlock("/** @title X */".to_string()),
            Comment::Line("// @title Y".to_string()),
        ]
    );
    // The text of a `///` comment starts with its marker, so no title is found there.
    let d = vec![Comment::DocLine("/// @title X".to_string())];
    assert_eq!(transform_contract_comments(&d), vec![Comment::DocLine("/// @title X".to_string())]);
    let b = vec![Comment::DocBlock("/**\n * @title X\n */".to_string())];
    assert_eq!(
        transform_contract_comments(&b),
        vec![Comment::DocBlock("/**\n * @title X Interface\n */".to_string())]
    );
    let v = vec![
        Comment::DocLine("/// @custom:param k key".to_string()),
        Comment::Block("/* @custom:param k */".to_string()),
    ];
    assert_eq!(
        transform_variable_comments(&v),
        vec![
            Comment::DocLine("/// @param k key".to_string()),
            Comment::Block("/* @custom:param k */".to_string()),
        ]
    );
}

#[test]
fn parameter_names() {
    assert_eq!(normalize_param_name("owner"), "_owner");
    assert_eq!(normalize_param_name("_x"), "_x");
    assert_eq!(normalize_param_name(""), "_");
    assert_eq!(transform_return_var_name("config_"), "_configOutput");
    assert_eq!(transform_return_var_name("value"), "_valueOutput");
    assert_eq!(transform_return_var_name("_x_"), "_xOutput");
}

#[test]
fn rename_map_lists_each_name_once() {
    let params = vec![
        Some("a".to_string()),
        None,
        Some("_b".to_string()),
        Some("a".to_string()),
        Some("c".to_string()),
    ];
    assert_eq!(
        build_param_rename_map(&params),
        vec![("a".to_string(), "_a".to_string()), ("c".to_string(), "_c".to_string())]
    );
}

fn uint_ty() -> dove::ast::Expression {
    dove::ast::Expression::Type(dove::ast::SolType::Uint(256))
}

#[test]
fn mapping_getter_takes_the_keys() {
    let inner = Expression::Type(SolType::Mapping {
        key: Box::new(uint_ty()),
        key_name: None,
        value: Box::new(Expression::Type(SolType::String)),
        value_name: None,
    });
    let ty = Expression::Type(SolType::Mapping {
        key: Box::new(Expression::Type(SolType::Address)),
        key_name: Some("owner".to_string()),
        value: Box::new(inner),
        value_name: None,
    });
    let (params, outs, m) = dove::peck::build_getter_signature(ty, true);
    assert_eq!(params.len(), 2);
    assert_eq!(params[0].as_ref().unwrap().name, Some("owner".to_string()));
    assert_eq!(params[1].as_ref().unwrap().ty, uint_ty());
    assert_eq!(outs.len(), 1);
    assert_eq!(outs[0].as_ref().unwrap().ty, Expression::Type(SolType::String));
    assert_eq!(outs[0].as_ref().unwrap().storage, Some(StorageLocation::Memory));
    assert_eq!(m, Mutability::View);
}

#[test]
fn contract_typed_getter_returns_an_address() {
    let (params, outs, m) = dove::peck::build_getter_signature(Expression::Variable("IToken".to_string()), true);
    assert!(params.is_empty());
    assert_eq!(outs[0].as_ref().unwrap().ty, Expression::Type(SolType::Address));
    assert_eq!(m, Mutability::Pure);
    let (_, outs2, m2) = dove::peck::build_getter_signature(uint_ty(), false);
    assert_eq!(outs2[0].as_ref().unwrap().ty, uint_ty());
    assert_eq!(m2, Mutability::View);
}

#[test]
fn getter_of_a_public_constant() {
    let cs = vec![dove::model::Comment::DocLine("/// @custom:return The fee.".to_string())];
    let f = dove::peck::variable_to_getter_function(Some("FEE".to_string()), uint_ty(), true, &cs).unwrap();
    assert_eq!(f.definition.element.name, Some("FEE".to_string()));
    assert!(!f.definition.element.has_body);
    assert_eq!(
        f.definition.element.attributes,
        vec![FunctionAttribute::Visibility(Visibility::External), FunctionAttribute::Mutability(Mutability::Pure)]
    );
    assert_eq!(f.definition.leading_comments, vec![dove::model::Comment::DocLine("/// @return The fee.".to_string())]);
    assert!(dove::peck::variable_to_getter_function(None, uint_ty(), true, &cs).is_none());
}

#[test]
fn interface_keeps_public_functions_only() {
    let make = |ty: FunctionTy, vis: Visibility| CollectedFunction {
        definition: CommentedElement {
            element: FunctionDefinition {
                ty,
                name: Some("f".to_string()),
                params: vec![],
                attributes: vec![
                    FunctionAttribute::Visibility(vis),
                    FunctionAttribute::Virtual,
                    FunctionAttribute::Mutability(Mutability::View),
                ],
                outputs: vec![],
                has_body: true,
            },
            leading_comments: vec![],
            trailing_comments: vec![],
        },
        body_statements: vec![],
    };
    let t = dove::peck::transform_function_for_interface(make(FunctionTy::Function, Visibility::Public)).unwrap();
    assert!(!t.definition.element.has_body);
    assert_eq!(
        t.definition.element.attributes,
        vec![FunctionAttribute::Visibility(Visibility::External), FunctionAttribute::Mutability(Mutability::View)]
    );
    assert!(dove::peck::transform_function_for_interface(make(FunctionTy::Function, Visibility::Internal)).is_none());
    assert!(dove::peck::transform_function_for_interface(make(FunctionTy::Modifier, Visibility::Public)).is_none());
}
