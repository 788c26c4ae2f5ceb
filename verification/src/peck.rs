//! Comment rewrites for extracting an interface from a contract.
use vstd::prelude::*;
use crate::model::{
    comment_text, CollectedContract, CollectedElements, Comment, CommentedElement, ContractContents,
    ContractDefinition, ContractTy, VariableAttribute, VariableDefinition,
};
use crate::ast::{
    is_reference_type,
    CollectedFunction, Expression, FunctionAttribute, FunctionDefinition, FunctionTy, Mutability, SolType,
    StorageLocation, TypedParameter, Visibility,
};
use crate::FormatConfig;
use crate::ir_builder::{format_collected, layout_ok, pragmas_ok, printable, unit_docs, contracts_ok};
use crate::ir_builder::ordering::ordered_pragmas;
use crate::ir_builder::contracts::{contents_ok, vars_ok};
use crate::ir_builder::variables::{var_comments_ok, var_ok};
use crate::ir_builder::function_ir::{fn_comments_ok, fns_ok};
use crate::ir_builder::function_definition::fn_ok;
use crate::ir_builder::expressions::{expr_ok, type_ok};
use crate::ir_builder::ir::{docs, IRElement};
use crate::printer::render;
use crate::text::{
    chars_of, find_char, first_index, has_prefix, join, lemma_first_index, push_all,
    slice_chars, split_lines, starts_with, string_from, trim, trim_chars, lines, views,
};

verus! {

/// `s` with every non-overlapping occurrence of `from`, scanning from the
/// left, replaced by `to` (`str::replace`, for a non-empty pattern).
pub open spec fn replace_all(s: Seq<char>, from: Seq<char>, to: Seq<char>) -> Seq<char>
    decreases s.len(),
{
    if s.len() == 0 || from.len() == 0 {
        s
    } else if has_prefix(s, from) {
        to + replace_all(s.subrange(from.len() as int, s.len() as int), from, to)
    } else {
        seq![s[0]] + replace_all(s.subrange(1, s.len() as int), from, to)
    }
}

/// Replaces every occurrence of `from` by `to`, scanning from the left.
fn replace_chars(s: &[char], from: &[char], to: &[char]) -> (r: Vec<char>)
    requires
        from@.len() > 0,
    ensures
        r@ == replace_all(s@, from@, to@),
{
    let mut out: Vec<char> = Vec::new();
    let mut i: usize = 0;
    assert(s@.subrange(0, s@.len() as int) =~= s@);
    while i < s.len()
        invariant
            i <= s@.len(),
            from@.len() > 0,
            replace_all(s@, from@, to@) == out@ + replace_all(
                s@.subrange(i as int, s@.len() as int),
                from@,
                to@,
            ),
        decreases s@.len() - i,
    {
        let ghost rest = s@.subrange(i as int, s@.len() as int);
        let tail = slice_chars(s, i, s.len());
        if starts_with(tail.as_slice(), from) {
            push_all(&mut out, to);
            assert(rest.subrange(from@.len() as int, rest.len() as int) =~= s@.subrange(
                i + from@.len(),
                s@.len() as int,
            ));
            i = i + from.len();
        } else {
            let ghost o = out@;
            out.push(s[i]);
            assert(rest.subrange(1, rest.len() as int) =~= s@.subrange(i + 1, s@.len() as int));
            assert(o + (seq![s@[i as int]] + replace_all(
                s@.subrange(i + 1, s@.len() as int),
                from@,
                to@,
            )) =~= out@ + replace_all(s@.subrange(i + 1, s@.len() as int), from@, to@));
            i = i + 1;
        }
    }
    assert(out@ + replace_all(s@.subrange(i as int, s@.len() as int), from@, to@) =~= out@);
    out
}

/// NatSpec with `@custom:param` written `@param` and `@custom:return`
/// written `@return`.
pub open spec fn custom_tags_replaced(s: Seq<char>) -> Seq<char> {
    replace_all(
        replace_all(s, "@custom:param"@, "@param"@),
        "@custom:return"@,
        "@return"@,
    )
}

/// Turns `@custom:param` into `@param` and `@custom:return` into `@return`.
pub fn transform_custom_tags(content: &str) -> (r: String)
    ensures
        r@ == custom_tags_replaced(content@),
{
    let cs = chars_of(content);
    let cp = chars_of("@custom:param");
    let p = chars_of("@param");
    let cr = chars_of("@custom:return");
    let rt = chars_of("@return");
    proof {
        reveal_strlit("@custom:param");
        reveal_strlit("@custom:return");
    }
    let once = replace_chars(cs.as_slice(), cp.as_slice(), p.as_slice());
    let twice = replace_chars(once.as_slice(), cr.as_slice(), rt.as_slice());
    string_from(twice.as_slice())
}

/// `s` without leading `*` characters.
pub open spec fn strip_stars(s: Seq<char>) -> Seq<char>
    decreases s.len(),
{
    if s.len() > 0 && s[0] == '*' {
        strip_stars(s.subrange(1, s.len() as int))
    } else {
        s
    }
}

/// The text of a NatSpec line without surrounding whitespace and leading
/// stars.
pub open spec fn line_content(line: Seq<char>) -> Seq<char> {
    trim(strip_stars(trim(line)))
}

/// A line rewritten for the interface: an `@title X` line becomes
/// `@title X Interface`, keeping the line's text up to its first `*`; every
/// other line is kept.
pub open spec fn title_line(line: Seq<char>) -> Seq<char> {
    let t = line_content(line);
    if has_prefix(t, "@title "@) {
        let title = trim(t.subrange(7, t.len() as int));
        match first_index(line, '*') {
            Some(k) => line.subrange(0, k + 1) + " @title "@ + title + " Interface"@,
            None => "@title "@ + title + " Interface"@,
        }
    } else {
        line
    }
}

/// The rewritten lines.
pub open spec fn title_lines(ls: Seq<Seq<char>>) -> Seq<Seq<char>> {
    ls.map_values(|l: Seq<char>| title_line(l))
}

/// NatSpec with its title marked as the interface's: the lines rewritten by
/// `title_line`, joined by newlines.
pub open spec fn title_transformed(content: Seq<char>) -> Seq<char> {
    join(title_lines(lines(content)), seq!['\n'])
}

/// Removes leading `*` characters.
fn strip_stars_chars(s: &[char]) -> (r: Vec<char>)
    ensures
        r@ == strip_stars(s@),
{
    let mut i: usize = 0;
    assert(s@.subrange(0, s@.len() as int) =~= s@);
    while i < s.len() && s[i] == '*'
        invariant
            i <= s@.len(),
            strip_stars(s@) == strip_stars(s@.subrange(i as int, s@.len() as int)),
        decreases s@.len() - i,
    {
        let ghost t = s@.subrange(i as int, s@.len() as int);
        assert(t.subrange(1, t.len() as int) =~= s@.subrange(i + 1, s@.len() as int));
        i = i + 1;
    }
    slice_chars(s, i, s.len())
}

/// One line rewritten by `title_line`.
fn transform_title_line(line: &[char]) -> (r: Vec<char>)
    ensures
        r@ == title_line(line@),
{
    let t1 = trim_chars(line);
    let t2 = strip_stars_chars(t1.as_slice());
    let t = trim_chars(t2.as_slice());
    let tag = chars_of("@title ");
    proof {
        reveal_strlit("@title ");
    }
    if !starts_with(t.as_slice(), tag.as_slice()) {
        let same = slice_chars(line, 0, line.len());
        assert(same@ =~= line@);
        return same;
    }
    let rest = slice_chars(t.as_slice(), 7, t.len());
    let title = trim_chars(rest.as_slice());
    let mut out: Vec<char>;
    let n = line.len();
    assert(line@.len() == n);
    let found = find_char(line, '*');
    proof {
        lemma_first_index(line@, '*');
        match first_index(line@, '*') {
            Some(j) => {
                assert(0 <= j < line@.len());
                assert(found == Some(j as usize));
            },
            None => {},
        }
    }
    match found {
        Some(k) => {
            assert(k < line@.len());
            out = slice_chars(line, 0, k + 1);
            push_all(&mut out, chars_of(" @title ").as_slice());
        },
        None => {
            out = chars_of("@title ");
        },
    }
    push_all(&mut out, title.as_slice());
    push_all(&mut out, chars_of(" Interface").as_slice());
    out
}

/// Appends `Interface` to the `@title` of NatSpec text; the lines are
/// rejoined with `\n`.
pub fn transform_title_in_natspec(content: &str) -> (r: String)
    ensures
        r@ == title_transformed(content@),
{
    let cs = chars_of(content);
    let ls = split_lines(cs.as_slice());
    let ghost lv = views(ls@);
    let mut out: Vec<char> = Vec::new();
    let mut i: usize = 0;
    assert(title_lines(lv).take(0) =~= Seq::<Seq<char>>::empty());
    while i < ls.len()
        invariant
            i <= ls@.len(),
            lv == views(ls@),
            lv == lines(content@),
            out@ == join(title_lines(lv).take(i as int), seq!['\n']),
        decreases ls@.len() - i,
    {
        let ghost tl = title_lines(lv);
        assert(tl.take(i + 1).drop_last() =~= tl.take(i as int));
        assert(tl[i as int] == title_line(ls@[i as int]@));
        if i > 0 {
            out.push('\n');
        }
        let ghost o = out@;
        let line = transform_title_line(ls[i].as_slice());
        push_all(&mut out, line.as_slice());
        proof {
            if i == 0 {
                assert(tl.take(1) =~= seq![tl[0]]);
                assert(out@ =~= tl[0]);
            } else {
                assert(out@ =~= join(tl.take(i as int), seq!['\n']) + seq!['\n'] + tl[i as int]);
            }
        }
        i = i + 1;
    }
    assert(title_lines(lv).take(ls@.len() as int) =~= title_lines(lv));
    string_from(out.as_slice())
}

/// Whether `r` is `c` with its NatSpec text rewritten: the title marked as
/// the interface's (`title`) or the custom tags replaced; comments that are
/// not NatSpec are kept.
pub open spec fn rewritten(c: Comment, r: Comment, title: bool) -> bool {
    let f = |t: Seq<char>|
        if title {
            title_transformed(t)
        } else {
            custom_tags_replaced(t)
        };
    match c {
        Comment::DocBlock(t) => r is DocBlock && comment_text(r) == f(t@),
        Comment::DocLine(t) => r is DocLine && comment_text(r) == f(t@),
        _ => r == c,
    }
}

/// Rewrites the NatSpec of each comment; other comments are copied.
fn rewrite_comments(comments: &[Comment], title: bool) -> (r: Vec<Comment>)
    ensures
        r@.len() == comments@.len(),
        forall|i: int| 0 <= i < comments@.len() ==> rewritten(comments@[i], #[trigger] r@[i], title),
{
    let mut r: Vec<Comment> = Vec::new();
    let mut i: usize = 0;
    while i < comments.len()
        invariant
            i <= comments@.len(),
            r@.len() == i,
            forall|j: int| 0 <= j < i ==> rewritten(comments@[j], #[trigger] r@[j], title),
        decreases comments@.len() - i,
    {
        let c = match &comments[i] {
            Comment::DocBlock(t) => Comment::DocBlock(
                if title {
                    transform_title_in_natspec(t.as_str())
                } else {
                    transform_custom_tags(t.as_str())
                },
            ),
            Comment::DocLine(t) => Comment::DocLine(
                if title {
                    transform_title_in_natspec(t.as_str())
                } else {
                    transform_custom_tags(t.as_str())
                },
            ),
            other => other.duplicate(),
        };
        r.push(c);
        i = i + 1;
    }
    r
}

/// Contract comments for an interface: `@title X` becomes
/// `@title X Interface` in NatSpec comments.
pub fn transform_contract_comments(comments: &[Comment]) -> (r: Vec<Comment>)
    ensures
        r@.len() == comments@.len(),
        forall|i: int| 0 <= i < comments@.len() ==> rewritten(comments@[i], #[trigger] r@[i], true),
{
    rewrite_comments(comments, true)
}

/// Variable comments for an interface: `@custom:param` becomes `@param` and
/// `@custom:return` becomes `@return` in NatSpec comments.
pub fn transform_variable_comments(comments: &[Comment]) -> (r: Vec<Comment>)
    ensures
        r@.len() == comments@.len(),
        forall|i: int| 0 <= i < comments@.len() ==> rewritten(comments@[i], #[trigger] r@[i], false),
{
    rewrite_comments(comments, false)
}


/// The data location a getter returns a value of this type from: memory for
/// strings, bytes, arrays and user-defined types.
pub open spec fn return_storage(ty: Expression) -> Option<StorageLocation> {
    match ty {
        Expression::Type(SolType::String) | Expression::Type(SolType::DynamicBytes) => Some(StorageLocation::Memory),
        Expression::ArraySubscript(..) | Expression::Variable(_) => Some(StorageLocation::Memory),
        _ => None,
    }
}

/// The key parameters of a (nested) mapping, outermost first, and its
/// final value type.
pub open spec fn mapping_keys(ty: Expression) -> (Seq<Option<TypedParameter>>, Expression)
    decreases ty,
{
    match ty {
        Expression::Type(SolType::Mapping { key, key_name, value, .. }) => {
            let r = mapping_keys(*value);
            (seq![Some(TypedParameter { ty: *key, storage: None, name: key_name })] + r.0, r.1)
        },
        _ => (Seq::empty(), ty),
    }
}

/// `pure` for a constant, `view` otherwise.
pub open spec fn getter_mutability(is_constant: bool) -> Mutability {
    if is_constant {
        Mutability::Pure
    } else {
        Mutability::View
    }
}

/// The signature of the getter of a public variable of type `ty`: a
/// mapping takes its keys and returns its final value (`view`); a string
/// or bytes returns it from memory; a user-defined type (a contract) is
/// returned as an address; any other type is returned as it is. Constants
/// are `pure`, other variables `view`.
pub open spec fn getter_signature(ty: Expression, is_constant: bool) -> (
    Seq<Option<TypedParameter>>,
    Seq<Option<TypedParameter>>,
    Mutability,
) {
    match ty {
        Expression::Type(SolType::Mapping { .. }) => {
            let k = mapping_keys(ty);
            (
                k.0,
                seq![Some(TypedParameter { ty: k.1, storage: return_storage(k.1), name: None })],
                Mutability::View,
            )
        },
        Expression::Type(SolType::DynamicBytes) | Expression::Type(SolType::String) => (
            Seq::empty(),
            seq![Some(TypedParameter { ty: ty, storage: Some(StorageLocation::Memory), name: None })],
            getter_mutability(is_constant),
        ),
        Expression::Variable(_) => (
            Seq::empty(),
            seq![Some(TypedParameter { ty: Expression::Type(SolType::Address), storage: None, name: None })],
            getter_mutability(is_constant),
        ),
        _ => (
            Seq::empty(),
            seq![Some(TypedParameter { ty: ty, storage: None, name: None })],
            getter_mutability(is_constant),
        ),
    }
}

/// The data location a getter returns a value of this type from.
pub fn get_return_storage_for_type(ty: &Expression) -> (r: Option<StorageLocation>)
    ensures
        r == return_storage(*ty),
{
    match ty {
        Expression::Type(SolType::String) | Expression::Type(SolType::DynamicBytes) => Some(StorageLocation::Memory),
        Expression::ArraySubscript(..) | Expression::Variable(_) => Some(StorageLocation::Memory),
        _ => None,
    }
}

/// Appends the key parameters of a (nested) mapping and gives its final
/// value type.
fn take_mapping_keys(ty: Expression, params: &mut Vec<Option<TypedParameter>>) -> (r: Expression)
    ensures
        final(params)@ == old(params)@ + mapping_keys(ty).0,
        r == mapping_keys(ty).1,
    decreases ty,
{
    match ty {
        Expression::Type(SolType::Mapping { key, key_name, value, value_name: _ }) => {
            let ghost kp = Some(TypedParameter { ty: *key, storage: None, name: key_name });
            params.push(Some(TypedParameter { ty: *key, storage: None, name: key_name }));
            let ghost mid = params@;
            let v = take_mapping_keys(*value, params);
            assert(params@ =~= old(params)@ + (seq![kp] + mapping_keys(*value).0));
            v
        },
        _ => {
            assert(params@ =~= old(params)@ + Seq::<Option<TypedParameter>>::empty());
            ty
        },
    }
}

/// `pure` for a constant, `view` otherwise.
fn mutability_for(is_constant: bool) -> (r: Mutability)
    ensures
        r == getter_mutability(is_constant),
{
    if is_constant {
        Mutability::Pure
    } else {
        Mutability::View
    }
}

/// The getter signature of a public variable of type `ty` (see
/// `getter_signature`): its parameters, its return parameters and its
/// mutability.
pub fn build_getter_signature(ty: Expression, is_constant: bool) -> (r: (
    Vec<Option<TypedParameter>>,
    Vec<Option<TypedParameter>>,
    Mutability,
))
    ensures
        r.0@ == getter_signature(ty, is_constant).0,
        r.1@ == getter_signature(ty, is_constant).1,
        r.2 == getter_signature(ty, is_constant).2,
{
    let ghost t = ty;
    match ty {
        Expression::Type(SolType::Mapping { key, key_name, value, value_name }) => {
            let whole = Expression::Type(SolType::Mapping { key, key_name, value, value_name });
            assert(whole == t);
            let mut params: Vec<Option<TypedParameter>> = Vec::new();
            let v = take_mapping_keys(whole, &mut params);
            let storage = get_return_storage_for_type(&v);
            let outs = vec![Some(TypedParameter { ty: v, storage, name: None })];
            assert(params@ =~= getter_signature(t, is_constant).0);
            (params, outs, Mutability::View)
        },
        Expression::Type(SolType::DynamicBytes) => (
            Vec::new(),
            vec![Some(TypedParameter { ty: Expression::Type(SolType::DynamicBytes), storage: Some(StorageLocation::Memory), name: None })],
            mutability_for(is_constant),
        ),
        Expression::Type(SolType::String) => (
            Vec::new(),
            vec![Some(TypedParameter { ty: Expression::Type(SolType::String), storage: Some(StorageLocation::Memory), name: None })],
            mutability_for(is_constant),
        ),
        Expression::Variable(_) => (
            Vec::new(),
            vec![Some(TypedParameter { ty: Expression::Type(SolType::Address), storage: None, name: None })],
            mutability_for(is_constant),
        ),
        other => (Vec::new(), vec![Some(TypedParameter { ty: other, storage: None, name: None })], mutability_for(is_constant)),
    }
}

/// The attributes of a getter: `external` and its mutability.
pub fn build_getter_attributes(mutability: Mutability) -> (r: Vec<FunctionAttribute>)
    ensures
        r@ == seq![FunctionAttribute::Visibility(Visibility::External), FunctionAttribute::Mutability(mutability)],
{
    let r = vec![FunctionAttribute::Visibility(Visibility::External), FunctionAttribute::Mutability(mutability)];
    assert(r@ =~= seq![FunctionAttribute::Visibility(Visibility::External), FunctionAttribute::Mutability(mutability)]);
    r
}

/// Whether `f` is the getter of a variable named `name`, of type `ty`,
/// with the comments `comments` before it: an external function named
/// `name` without a body, whose parameters, outputs and mutability are
/// those of `getter_signature`, with the comments rewritten for an
/// interface.
pub open spec fn is_getter(
    name: Option<String>,
    ty: Expression,
    is_constant: bool,
    comments: Seq<Comment>,
    f: CollectedFunction,
) -> bool {
    &&& name is Some
    &&& f.definition.element.ty == FunctionTy::Function
    &&& f.definition.element.name == name
    &&& f.definition.element.params@ == getter_signature(ty, is_constant).0
    &&& f.definition.element.outputs@ == getter_signature(ty, is_constant).1
    &&& f.definition.element.attributes@ == seq![
        FunctionAttribute::Visibility(Visibility::External),
        FunctionAttribute::Mutability(getter_signature(ty, is_constant).2),
    ]
    &&& !f.definition.element.has_body
    &&& f.definition.leading_comments@.len() == comments.len()
    &&& forall|i: int|
        0 <= i < comments.len() ==> rewritten(comments[i], #[trigger] f.definition.leading_comments@[i], false)
    &&& f.definition.trailing_comments@.len() == 0
    &&& f.body_statements@.len() == 0
}

/// The getter of a public variable named `name`, of type `ty`: an external
/// function without a body, with the variable's comments (`@custom:param`
/// and `@custom:return` turned into `@param` and `@return`); `None` for a
/// variable without a name.
pub fn variable_to_getter_function(
    name: Option<String>,
    ty: Expression,
    is_constant: bool,
    leading_comments: &[Comment],
) -> (r: Option<CollectedFunction>)
    ensures
        match r {
            Some(f) => is_getter(name, ty, is_constant, leading_comments@, f),
            None => name is None,
        },
{
    match name {
        None => None,
        Some(n) => {
            let comments = transform_variable_comments(leading_comments);
            let (params, outputs, mutability) = build_getter_signature(ty, is_constant);
            let attributes = build_getter_attributes(mutability);
            Some(
                CollectedFunction {
                    definition: CommentedElement {
                        element: FunctionDefinition {
                            ty: FunctionTy::Function,
                            name: Some(n),
                            params,
                            attributes,
                            outputs,
                            has_body: false,
                        },
                        leading_comments: comments,
                        trailing_comments: Vec::new(),
                    },
                    body_statements: Vec::new(),
                },
            )
        },
    }
}

/// Whether an attribute makes a function public or external.
pub open spec fn exposing(a: FunctionAttribute) -> bool {
    a == FunctionAttribute::Visibility(Visibility::Public) || a == FunctionAttribute::Visibility(Visibility::External)
}

/// The attributes an interface keeps: visibility becomes `external` for a
/// public or external function (other visibilities go), mutability stays,
/// everything else goes.
pub open spec fn interface_attrs(s: Seq<FunctionAttribute>) -> Seq<FunctionAttribute>
    decreases s.len(),
{
    if s.len() == 0 {
        Seq::empty()
    } else {
        interface_attrs(s.drop_last()) + match s.last() {
            FunctionAttribute::Visibility(Visibility::Public) | FunctionAttribute::Visibility(Visibility::External) => seq![
                FunctionAttribute::Visibility(Visibility::External),
            ],
            FunctionAttribute::Mutability(m) => seq![FunctionAttribute::Mutability(m)],
            _ => Seq::empty(),
        }
    }
}

/// Whether an interface declares `func`: a function that is neither a
/// modifier nor a constructor, with a public or external attribute.
pub open spec fn kept_in_interface(func: CollectedFunction) -> bool {
    &&& !(func.definition.element.ty is Modifier) && !(func.definition.element.ty is Constructor)
    &&& exists|i: int|
        0 <= i < func.definition.element.attributes@.len() && exposing(
            #[trigger] func.definition.element.attributes@[i],
        )
}

/// Whether `f` is `func` as an interface declares it: the same kind, name,
/// parameters, outputs and leading comments, no body and no trailing
/// comments, and only the attributes `interface_attrs` keeps.
pub open spec fn is_interface_fn(func: CollectedFunction, f: CollectedFunction) -> bool {
    &&& f.definition.element.ty == func.definition.element.ty
    &&& f.definition.element.name == func.definition.element.name
    &&& f.definition.element.params == func.definition.element.params
    &&& f.definition.element.outputs == func.definition.element.outputs
    &&& f.definition.element.attributes@ == interface_attrs(func.definition.element.attributes@)
    &&& !f.definition.element.has_body
    &&& f.definition.leading_comments == func.definition.leading_comments
    &&& f.definition.trailing_comments@.len() == 0
    &&& f.body_statements@.len() == 0
}

/// A function as an interface declares it: `None` for modifiers,
/// constructors and functions that are neither public nor external; else
/// the same function without a body or trailing comments, with only its
/// visibility (made `external`) and mutability attributes.
pub fn transform_function_for_interface(func: CollectedFunction) -> (r: Option<CollectedFunction>)
    ensures
        match r {
            Some(f) => kept_in_interface(func) && is_interface_fn(func, f),
            None => !kept_in_interface(func),
        },
{
    let ghost old_f = func;
    let CollectedFunction { definition, body_statements: _ } = func;
    let CommentedElement { element, leading_comments, trailing_comments: _ } = definition;
    let FunctionDefinition { ty, name, params, attributes, outputs, has_body: _ } = element;
    match ty {
        FunctionTy::Modifier | FunctionTy::Constructor => {
            return None;
        },
        _ => {},
    }
    let mut exposed = false;
    let mut kept: Vec<FunctionAttribute> = Vec::new();
    let mut i: usize = 0;
    assert(attributes@.take(0) =~= Seq::<FunctionAttribute>::empty());
    while i < attributes.len()
        invariant
            i <= attributes@.len(),
            kept@ == interface_attrs(attributes@.take(i as int)),
            exposed <==> exists|j: int| 0 <= j < i && exposing(#[trigger] attributes@[j]),
        decreases attributes@.len() - i,
    {
        assert(attributes@.take(i + 1).drop_last() =~= attributes@.take(i as int));
        assert(attributes@.take(i + 1).last() == attributes@[i as int]);
        let ghost before = kept@;
        match &attributes[i] {
            FunctionAttribute::Visibility(Visibility::Public) | FunctionAttribute::Visibility(Visibility::External) => {
                kept.push(FunctionAttribute::Visibility(Visibility::External));
                exposed = true;
                assert(kept@ =~= before + seq![FunctionAttribute::Visibility(Visibility::External)]);
            },
            FunctionAttribute::Mutability(m) => {
                kept.push(FunctionAttribute::Mutability(*m));
                assert(kept@ =~= before + seq![FunctionAttribute::Mutability(*m)]);
            },
            _ => {
                assert(kept@ =~= before + Seq::<FunctionAttribute>::empty());
            },
        }
        i = i + 1;
    }
    assert(attributes@.take(i as int) =~= attributes@);
    if !exposed {
        return None;
    }
    Some(
        CollectedFunction {
            definition: CommentedElement {
                element: FunctionDefinition { ty, name, params, attributes: kept, outputs, has_body: false },
                leading_comments,
                trailing_comments: Vec::new(),
            },
            body_statements: Vec::new(),
        },
    )
}

/// Whether a state variable is public or external.
pub open spec fn public_var(v: VariableDefinition) -> bool {
    exists|i: int|
        0 <= i < v.attrs@.len() && (#[trigger] v.attrs@[i] == VariableAttribute::Visibility(Visibility::Public)
            || v.attrs@[i] == VariableAttribute::Visibility(Visibility::External))
}

/// Whether a state variable is `constant` or `immutable`: its getter is
/// `pure`, else `view`.
pub open spec fn fixed_var(v: VariableDefinition) -> bool {
    exists|i: int|
        0 <= i < v.attrs@.len() && (#[trigger] v.attrs@[i] == VariableAttribute::Constant || v.attrs@[i]
            == VariableAttribute::Immutable)
}

/// Whether a state variable is public or external.
pub fn is_public_variable(var: &VariableDefinition) -> (r: bool)
    ensures
        r == public_var(*var),
{
    let mut i: usize = 0;
    while i < var.attrs.len()
        invariant
            i <= var.attrs@.len(),
            forall|k: int|
                0 <= k < i ==> var.attrs@[k] != VariableAttribute::Visibility(Visibility::Public) && var.attrs@[k]
                    != VariableAttribute::Visibility(Visibility::External),
        decreases var.attrs@.len() - i,
    {
        match &var.attrs[i] {
            VariableAttribute::Visibility(Visibility::Public) | VariableAttribute::Visibility(Visibility::External) => {
                return true;
            },
            _ => {},
        }
        i = i + 1;
    }
    false
}

/// Whether a state variable is `constant` or `immutable`.
fn is_fixed_variable(var: &VariableDefinition) -> (r: bool)
    ensures
        r == fixed_var(*var),
{
    let mut i: usize = 0;
    while i < var.attrs.len()
        invariant
            i <= var.attrs@.len(),
            forall|k: int|
                0 <= k < i ==> var.attrs@[k] != VariableAttribute::Constant && var.attrs@[k]
                    != VariableAttribute::Immutable,
        decreases var.attrs@.len() - i,
    {
        match &var.attrs[i] {
            VariableAttribute::Constant | VariableAttribute::Immutable => {
                return true;
            },
            _ => {},
        }
        i = i + 1;
    }
    false
}

/// Whether an interface declares a getter for a variable: it is public or
/// external and has a name.
pub open spec fn has_getter(v: CommentedElement<VariableDefinition>) -> bool {
    public_var(v.element) && v.element.name is Some
}

/// The variables that get getters, in order.
pub open spec fn getter_vars(vs: Seq<CommentedElement<VariableDefinition>>) -> Seq<
    CommentedElement<VariableDefinition>,
>
    decreases vs.len(),
{
    if vs.len() == 0 {
        Seq::empty()
    } else if has_getter(vs.last()) {
        getter_vars(vs.drop_last()).push(vs.last())
    } else {
        getter_vars(vs.drop_last())
    }
}

/// The functions an interface declares, in order.
pub open spec fn kept_fns(fs: Seq<CollectedFunction>) -> Seq<CollectedFunction>
    decreases fs.len(),
{
    if fs.len() == 0 {
        Seq::empty()
    } else if kept_in_interface(fs.last()) {
        kept_fns(fs.drop_last()).push(fs.last())
    } else {
        kept_fns(fs.drop_last())
    }
}

/// Whether `g` is the getter an interface declares for the variable `v`.
pub open spec fn getter_of(v: CommentedElement<VariableDefinition>, g: CollectedFunction) -> bool {
    is_getter(v.element.name, v.element.ty, fixed_var(v.element), v.leading_comments@, g)
}

/// Whether `fs` are the functions of the interface of a body with the
/// variables `vs` and the functions `funcs`: the getters of the public
/// variables, then the public and external functions as an interface
/// declares them.
pub open spec fn interface_functions(
    vs: Seq<CommentedElement<VariableDefinition>>,
    funcs: Seq<CollectedFunction>,
    fs: Seq<CollectedFunction>,
) -> bool {
    let gv = getter_vars(vs);
    let kf = kept_fns(funcs);
    &&& fs.len() == gv.len() + kf.len()
    &&& forall|k: int| 0 <= k < gv.len() ==> getter_of(gv[k], #[trigger] fs[k])
    &&& forall|k: int| 0 <= k < kf.len() ==> is_interface_fn(kf[k], #[trigger] fs[gv.len() + k])
}

/// Whether `r` is the body of the interface of a contract with the body
/// `c`: the same types, enums, structs and errors; no `using` directives,
/// events or variables; and the functions of `interface_functions`.
pub open spec fn interface_contents(c: ContractContents, r: ContractContents) -> bool {
    &&& r.types == c.types
    &&& r.enums == c.enums
    &&& r.structs == c.structs
    &&& r.errors == c.errors
    &&& r.using_directives@.len() == 0
    &&& r.events@.len() == 0
    &&& r.variables@.len() == 0
    &&& interface_functions(c.variables@, c.functions@, r.functions@)
}

/// The body of a contract's interface: types, enums, structs and errors
/// are kept; events, `using` directives and variables go; the public and
/// external variables become getters, followed by the public and external
/// functions without their bodies.
pub fn transform_contract_contents(contents: ContractContents) -> (r: ContractContents)
    ensures
        interface_contents(contents, r),
{
    let ghost c = contents;
    let ContractContents { using_directives: _, types, enums, structs, errors, events: _, variables, functions } =
        contents;
    let ghost vs = variables@;
    let ghost fs0 = functions@;
    let mut out: Vec<CollectedFunction> = Vec::new();
    let mut rest = variables;
    let mut i: usize = 0;
    let n = rest.len();
    assert(vs.take(0) =~= Seq::<CommentedElement<VariableDefinition>>::empty());
    while rest.len() > 0
        invariant
            i <= vs.len(),
            vs.len() == n,
            rest@ == vs.subrange(i as int, vs.len() as int),
            out@.len() == getter_vars(vs.take(i as int)).len(),
            forall|k: int|
                0 <= k < out@.len() ==> getter_of(getter_vars(vs.take(i as int))[k], #[trigger] out@[k]),
        decreases rest@.len(),
    {
        assert(vs.take(i + 1).drop_last() =~= vs.take(i as int));
        assert(vs.take(i + 1).last() == vs[i as int]);
        assert(rest@[0] == vs[i as int]);
        let v = rest.remove(0);
        assert(rest@ =~= vs.subrange(i + 1, vs.len() as int));
        let ghost gv = getter_vars(vs.take(i as int));
        let public = is_public_variable(&v.element);
        let fixed = is_fixed_variable(&v.element);
        let CommentedElement { element, leading_comments, trailing_comments: _ } = v;
        let VariableDefinition { ty, attrs: _, name, initializer: _, has_type_comments: _ } = element;
        if public {
            let g = variable_to_getter_function(name, ty, fixed, leading_comments.as_slice());
            match g {
                Some(f) => {
                    out.push(f);
                    assert(getter_vars(vs.take(i + 1)) =~= gv.push(vs[i as int]));
                },
                None => {
                    assert(getter_vars(vs.take(i + 1)) =~= gv);
                },
            }
        } else {
            assert(getter_vars(vs.take(i + 1)) =~= gv);
        }
        i = i + 1;
    }
    assert(vs.take(i as int) =~= vs);
    let ghost gv = getter_vars(vs);
    let mut rest = functions;
    let mut j: usize = 0;
    let m = rest.len();
    assert(fs0.take(0) =~= Seq::<CollectedFunction>::empty());
    while rest.len() > 0
        invariant
            j <= fs0.len(),
            fs0.len() == m,
            gv == getter_vars(vs),
            rest@ == fs0.subrange(j as int, fs0.len() as int),
            out@.len() == gv.len() + kept_fns(fs0.take(j as int)).len(),
            forall|k: int| 0 <= k < gv.len() ==> getter_of(gv[k], #[trigger] out@[k]),
            forall|k: int|
                0 <= k < kept_fns(fs0.take(j as int)).len() ==> is_interface_fn(
                    kept_fns(fs0.take(j as int))[k],
                    #[trigger] out@[gv.len() + k],
                ),
        decreases rest@.len(),
    {
        assert(fs0.take(j + 1).drop_last() =~= fs0.take(j as int));
        assert(fs0.take(j + 1).last() == fs0[j as int]);
        assert(rest@[0] == fs0[j as int]);
        let f = rest.remove(0);
        assert(rest@ =~= fs0.subrange(j + 1, fs0.len() as int));
        let ghost kf = kept_fns(fs0.take(j as int));
        let ghost before = out@;
        match transform_function_for_interface(f) {
            Some(t) => {
                out.push(t);
                assert(kept_fns(fs0.take(j + 1)) =~= kf.push(fs0[j as int]));
                assert forall|k: int| 0 <= k < gv.len() implies getter_of(gv[k], #[trigger] out@[k]) by {
                    assert(out@[k] == before[k]);
                }
                assert forall|k: int|
                    0 <= k < kept_fns(fs0.take(j + 1)).len() implies is_interface_fn(
                    kept_fns(fs0.take(j + 1))[k],
                    #[trigger] out@[gv.len() + k],
                ) by {
                    if k < kf.len() {
                        assert(out@[gv.len() + k] == before[gv.len() + k]);
                    }
                }
            },
            None => {
                assert(kept_fns(fs0.take(j + 1)) =~= kf);
            },
        }
        j = j + 1;
    }
    assert(fs0.take(j as int) =~= fs0);
    ContractContents {
        using_directives: Vec::new(),
        types,
        enums,
        structs,
        errors,
        events: Vec::new(),
        variables: Vec::new(),
        functions: out,
    }
}

/// Whether `r` is the interface of the contract `c`: an interface named `I`
/// and the contract's name, without bases, with the contract's comments
/// (`@title X` becoming `@title X Interface`) and the body of
/// `interface_contents`.
pub open spec fn interface_of(c: CollectedContract, r: CollectedContract) -> bool {
    &&& r.definition.element.ty == ContractTy::Interface
    &&& match c.definition.element.name {
        Some(n) => r.definition.element.name is Some && r.definition.element.name->0@ == seq!['I'] + n@,
        None => r.definition.element.name is None,
    }
    &&& r.definition.element.base@.len() == 0
    &&& r.definition.leading_comments@.len() == c.definition.leading_comments@.len()
    &&& forall|i: int|
        0 <= i < c.definition.leading_comments@.len() ==> rewritten(
            c.definition.leading_comments@[i],
            #[trigger] r.definition.leading_comments@[i],
            true,
        )
    &&& r.definition.trailing_comments == c.definition.trailing_comments
    &&& interface_contents(c.contents, r.contents)
}

/// A contract turned into an interface: `contract X` (or `abstract
/// contract X`, or a library) becomes `interface IX` without bases, its
/// `@title` is marked as the interface's, and its body keeps what an
/// interface declares.
pub fn transform_contract(contract: CollectedContract) -> (r: CollectedContract)
    ensures
        interface_of(contract, r),
{
    let CollectedContract { definition, contents } = contract;
    let CommentedElement { element, leading_comments, trailing_comments } = definition;
    let ContractDefinition { ty: _, name, base: _ } = element;
    let new_name = match name {
        Some(n) => {
            let mut v: Vec<char> = vec!['I'];
            let nc = chars_of(n.as_str());
            push_all(&mut v, nc.as_slice());
            assert(v@ =~= seq!['I'] + n@);
            Some(string_from(v.as_slice()))
        },
        None => None,
    };
    let comments = transform_contract_comments(leading_comments.as_slice());
    let body = transform_contract_contents(contents);
    CollectedContract {
        definition: CommentedElement {
            element: ContractDefinition { ty: ContractTy::Interface, name: new_name, base: Vec::new() },
            leading_comments: comments,
            trailing_comments,
        },
        contents: body,
    }
}

/// Whether `r` is the interface of the source unit `c`: the same pragmas
/// and imports, each contract turned into its interface, and nothing else.
pub open spec fn interface_unit(c: CollectedElements, r: CollectedElements) -> bool {
    &&& r.pragmas == c.pragmas
    &&& r.imports == c.imports
    &&& r.using_directives@.len() == 0
    &&& r.errors@.len() == 0
    &&& r.types@.len() == 0
    &&& r.enums@.len() == 0
    &&& r.structs@.len() == 0
    &&& r.functions@.len() == 0
    &&& r.variables@.len() == 0
    &&& r.standalone_comments@.len() == 0
    &&& r.contracts@.len() == c.contracts@.len()
    &&& forall|k: int| 0 <= k < c.contracts@.len() ==> interface_of(c.contracts@[k], #[trigger] r.contracts@[k])
}

/// The public interface of a source unit: the pragmas and imports as they
/// are, and each contract turned into an interface (`contract X` becomes
/// `interface IX`, `@title X` becomes `@title X Interface`, events and
/// modifiers go, public variables become getters, and public and external
/// functions become external declarations without bodies).
pub fn transform_to_interface(collected: CollectedElements) -> (r: CollectedElements)
    ensures
        interface_unit(collected, r),
{
    let CollectedElements { pragmas, imports, contracts, .. } = collected;
    let ghost cs = contracts@;
    let mut out: Vec<CollectedContract> = Vec::new();
    let mut rest = contracts;
    let mut i: usize = 0;
    let n = rest.len();
    while rest.len() > 0
        invariant
            i <= cs.len(),
            cs.len() == n,
            rest@ == cs.subrange(i as int, cs.len() as int),
            out@.len() == i,
            forall|k: int| 0 <= k < i ==> interface_of(cs[k], #[trigger] out@[k]),
        decreases rest@.len(),
    {
        assert(rest@[0] == cs[i as int]);
        let c = rest.remove(0);
        assert(rest@ =~= cs.subrange(i + 1, cs.len() as int));
        let t = transform_contract(c);
        out.push(t);
        i = i + 1;
    }
    CollectedElements {
        pragmas,
        imports,
        using_directives: Vec::new(),
        errors: Vec::new(),
        types: Vec::new(),
        enums: Vec::new(),
        structs: Vec::new(),
        functions: Vec::new(),
        variables: Vec::new(),
        contracts: out,
        standalone_comments: Vec::new(),
    }
}

/// Whether no `/** */` comment becomes the bare `/**/` once its custom tags
/// are replaced (the getter's comments could not be laid out).
pub open spec fn getter_comments_ok(cs: Seq<Comment>) -> bool {
    forall|i: int|
        0 <= i < cs.len() ==> (#[trigger] cs[i] matches Comment::DocBlock(t) ==> trim(custom_tags_replaced(t@))
            != "/**/"@)
}

/// Whether the comments of every state variable of every contract can be
/// laid out on its getter.
pub open spec fn peck_ok(cs: Seq<CollectedContract>) -> bool {
    forall|k: int, j: int|
        0 <= k < cs.len() && 0 <= j < cs[k].contents.variables@.len() ==> getter_comments_ok(
            #[trigger] cs[k].contents.variables@[j].leading_comments@,
        )
}

/// The key types and the value type of a mapping that can be laid out can
/// be laid out.
proof fn lemma_mapping_keys_ok(ty: Expression)
    requires
        expr_ok(ty),
    ensures
        forall|i: int|
            0 <= i < mapping_keys(ty).0.len() ==> (#[trigger] mapping_keys(ty).0[i] matches Some(p) ==> expr_ok(p.ty)),
        expr_ok(mapping_keys(ty).1),
    decreases ty,
{
    match ty {
        Expression::Type(SolType::Mapping { key, key_name, value, value_name }) => {
            let t = SolType::Mapping { key, key_name, value, value_name };
            assert(type_ok(t));
            assert(expr_ok(*key) && expr_ok(*value));
            lemma_mapping_keys_ok(*value);
            let r = mapping_keys(*value);
            let k = seq![Some(TypedParameter { ty: *key, storage: None, name: key_name })] + r.0;
            assert forall|i: int| 0 <= i < k.len() implies (#[trigger] k[i] matches Some(p) ==> expr_ok(p.ty)) by {
                if i > 0 {
                    assert(k[i] == r.0[i - 1]);
                }
            }
        },
        _ => {},
    }
}

/// The attributes an interface keeps are visibilities and mutabilities.
proof fn lemma_interface_attrs(s: Seq<FunctionAttribute>)
    ensures
        forall|i: int|
            0 <= i < interface_attrs(s).len() ==> (#[trigger] interface_attrs(s)[i] is Visibility
                || interface_attrs(s)[i] is Mutability),
    decreases s.len(),
{
    if s.len() > 0 {
        lemma_interface_attrs(s.drop_last());
    }
}

/// A getter of a variable that can be laid out can be laid out.
proof fn lemma_getter_fn_ok(v: CommentedElement<VariableDefinition>, g: CollectedFunction)
    requires
        var_ok(v.element),
        getter_comments_ok(v.leading_comments@),
        getter_of(v, g),
    ensures
        fn_ok(g),
        fn_comments_ok(g.definition.leading_comments@),
{
    let ty = v.element.ty;
    let d = g.definition.element;
    let sig = getter_signature(ty, fixed_var(v.element));
    assert(d.params@ == sig.0 && d.outputs@ == sig.1);
    match ty {
        Expression::Type(SolType::Mapping { .. }) => {
            lemma_mapping_keys_ok(ty);
            assert(sig.0 == mapping_keys(ty).0);
        },
        Expression::Variable(_) => {
            assert(type_ok(SolType::Address));
            assert(expr_ok(Expression::Type(SolType::Address)));
        },
        _ => {},
    }
    assert forall|i: int| 0 <= i < d.params@.len() implies (#[trigger] d.params@[i] matches Some(p) ==> expr_ok(
        p.ty,
    )) by {}
    assert forall|i: int| 0 <= i < d.outputs@.len() implies (#[trigger] d.outputs@[i] matches Some(p) ==> expr_ok(
        p.ty,
    )) by {
        assert(i == 0);
    }
    assert forall|i: int| 0 <= i < d.attributes@.len() implies !(#[trigger] d.attributes@[i] is BaseOrModifier) by {
        assert(i == 0 || i == 1);
    }
    let cs = v.leading_comments@;
    let gs = g.definition.leading_comments@;
    assert forall|i: int| 0 <= i < gs.len() implies (#[trigger] gs[i] matches Comment::DocBlock(t) ==> trim(t@)
        != "/**/"@) by {
        assert(rewritten(cs[i], gs[i], false));
        match cs[i] {
            Comment::DocBlock(t) => {
                assert(getter_comments_ok(cs));
                assert(cs[i] matches Comment::DocBlock(u) ==> trim(custom_tags_replaced(u@)) != "/**/"@);
            },
            _ => {},
        }
    }
}

/// A function as an interface declares it can be laid out when the
/// function can.
proof fn lemma_kept_fn_ok(func: CollectedFunction, f: CollectedFunction)
    requires
        fn_ok(func),
        fn_comments_ok(func.definition.leading_comments@),
        is_interface_fn(func, f),
    ensures
        fn_ok(f),
        fn_comments_ok(f.definition.leading_comments@),
{
    lemma_interface_attrs(func.definition.element.attributes@);
    let a = f.definition.element.attributes@;
    assert forall|i: int| 0 <= i < a.len() implies !(#[trigger] a[i] is BaseOrModifier) by {
        assert(a[i] is Visibility || a[i] is Mutability);
    }
}

/// The variables that get getters are among the variables.
proof fn lemma_getter_vars_among(vs: Seq<CommentedElement<VariableDefinition>>)
    ensures
        forall|k: int| 0 <= k < getter_vars(vs).len() ==> vs.contains(#[trigger] getter_vars(vs)[k]),
    decreases vs.len(),
{
    if vs.len() > 0 {
        lemma_getter_vars_among(vs.drop_last());
        let p = getter_vars(vs.drop_last());
        assert forall|k: int| 0 <= k < getter_vars(vs).len() implies vs.contains(#[trigger] getter_vars(vs)[k]) by {
            if k < p.len() {
                assert(getter_vars(vs)[k] == p[k]);
                assert(vs.drop_last().contains(p[k]));
                let j = choose|j: int| 0 <= j < vs.drop_last().len() && vs.drop_last()[j] == p[k];
                assert(vs[j] == p[k]);
            } else {
                assert(getter_vars(vs)[k] == vs.last());
                assert(vs[vs.len() - 1] == vs.last());
            }
        }
    }
}

/// The functions an interface keeps are among the functions.
proof fn lemma_kept_fns_among(fs: Seq<CollectedFunction>)
    ensures
        forall|k: int| 0 <= k < kept_fns(fs).len() ==> fs.contains(#[trigger] kept_fns(fs)[k]),
    decreases fs.len(),
{
    if fs.len() > 0 {
        lemma_kept_fns_among(fs.drop_last());
        let p = kept_fns(fs.drop_last());
        assert forall|k: int| 0 <= k < kept_fns(fs).len() implies fs.contains(#[trigger] kept_fns(fs)[k]) by {
            if k < p.len() {
                assert(kept_fns(fs)[k] == p[k]);
                assert(fs.drop_last().contains(p[k]));
                let j = choose|j: int| 0 <= j < fs.drop_last().len() && fs.drop_last()[j] == p[k];
                assert(fs[j] == p[k]);
            } else {
                assert(kept_fns(fs)[k] == fs.last());
                assert(fs[fs.len() - 1] == fs.last());
            }
        }
    }
}

/// The body of an interface can be laid out when the contract's body can
/// and its variables' comments suit their getters.
proof fn lemma_interface_contents_ok(c: ContractContents, r: ContractContents)
    requires
        contents_ok(c),
        forall|j: int| 0 <= j < c.variables@.len() ==> getter_comments_ok(#[trigger] c.variables@[j].leading_comments@),
        interface_contents(c, r),
    ensures
        contents_ok(r),
{
    let gv = getter_vars(c.variables@);
    let kf = kept_fns(c.functions@);
    let fs = r.functions@;
    lemma_getter_vars_among(c.variables@);
    lemma_kept_fns_among(c.functions@);
    assert forall|i: int| 0 <= i < fs.len() implies fn_ok(#[trigger] fs[i]) && fn_comments_ok(
        fs[i].definition.leading_comments@,
    ) by {
        if i < gv.len() {
            assert(getter_of(gv[i], fs[i]));
            assert(c.variables@.contains(gv[i]));
            let j = choose|j: int| 0 <= j < c.variables@.len() && c.variables@[j] == gv[i];
            assert(var_comments_ok(c.variables@[j].leading_comments@) && var_ok(c.variables@[j].element));
            assert(getter_comments_ok(c.variables@[j].leading_comments@));
            lemma_getter_fn_ok(gv[i], fs[i]);
        } else {
            let k = i - gv.len();
            assert(fs[gv.len() + k] == fs[i]);
            assert(is_interface_fn(kf[k], fs[i]));
            assert(c.functions@.contains(kf[k]));
            let j = choose|j: int| 0 <= j < c.functions@.len() && c.functions@[j] == kf[k];
            assert(fn_ok(c.functions@[j]));
            lemma_kept_fn_ok(kf[k], fs[i]);
        }
    }
    assert(vars_ok(r.variables@));
}

/// The interface of a source unit can be laid out when the unit's pragmas
/// and contracts can and its variables' comments suit their getters.
proof fn lemma_interface_unit_ok(c: CollectedElements, r: CollectedElements)
    requires
        pragmas_ok(ordered_pragmas(c.pragmas@)),
        contracts_ok(c.contracts@),
        peck_ok(c.contracts@),
        interface_unit(c, r),
    ensures
        layout_ok(ordered_pragmas(r.pragmas@), r.standalone_comments@),
        vars_ok(r.variables@),
        fns_ok(r.functions@),
        contracts_ok(r.contracts@),
{
    assert forall|k: int| 0 <= k < r.contracts@.len() implies contents_ok(#[trigger] r.contracts@[k].contents) by {
        assert(interface_of(c.contracts@[k], r.contracts@[k]));
        assert(contents_ok(c.contracts@[k].contents));
        assert forall|j: int| 0 <= j < c.contracts@[k].contents.variables@.len() implies getter_comments_ok(
            #[trigger] c.contracts@[k].contents.variables@[j].leading_comments@,
        ) by {
            assert(peck_ok(c.contracts@));
        }
        lemma_interface_contents_ok(c.contracts@[k].contents, r.contracts@[k].contents);
    }
}

/// Extracts and prints the interface of a source unit: the unit turned
/// into its interface (`transform_to_interface`), laid out (`build_ir`) and
/// printed with the configured width and indentation. `None` when that
/// layout nests too deeply or holds too much text for the printer's
/// arithmetic.
pub fn peck_collected(collected: CollectedElements, config: FormatConfig) -> (r: Option<String>)
    requires
        pragmas_ok(ordered_pragmas(collected.pragmas@)),
        contracts_ok(collected.contracts@),
        peck_ok(collected.contracts@),
    ensures
        match r {
            Some(s) => exists|i: CollectedElements, ir: Seq<IRElement>|
                interface_unit(collected, i) && #[trigger] docs(ir, unit_docs(i)) && printable(
                    config.max_line_width as int,
                    config.indent_size as int,
                    ir,
                ) && s@ == render(config.max_line_width as int, config.indent_size as int, ir),
            None => exists|i: CollectedElements, ir: Seq<IRElement>|
                interface_unit(collected, i) && #[trigger] docs(ir, unit_docs(i)) && !printable(
                    config.max_line_width as int,
                    config.indent_size as int,
                    ir,
                ),
        },
{
    let ghost c0 = collected;
    let unit = transform_to_interface(collected);
    let ghost u = unit;
    proof {
        lemma_interface_unit_ok(c0, u);
    }
    let out = format_collected(unit, config);
    let ghost w = config.max_line_width as int;
    let ghost k = config.indent_size as int;
    match out {
        Some(s) => {
            assert(exists|i: CollectedElements, ir: Seq<IRElement>|
                interface_unit(c0, i) && #[trigger] docs(ir, unit_docs(i)) && printable(w, k, ir) && s@ == render(
                    w,
                    k,
                    ir,
                )) by {
                let ir = choose|ir: Seq<IRElement>|
                    #[trigger] docs(ir, unit_docs(u)) && printable(w, k, ir) && s@ == render(w, k, ir);
                assert(interface_unit(c0, u) && docs(ir, unit_docs(u)) && printable(w, k, ir) && s@ == render(
                    w,
                    k,
                    ir,
                ));
            }
            Some(s)
        },
        None => {
            assert(exists|i: CollectedElements, ir: Seq<IRElement>|
                interface_unit(c0, i) && #[trigger] docs(ir, unit_docs(i)) && !printable(w, k, ir)) by {
                let ir = choose|ir: Seq<IRElement>| #[trigger] docs(ir, unit_docs(u)) && !printable(w, k, ir);
                assert(interface_unit(c0, u) && docs(ir, unit_docs(u)) && !printable(w, k, ir));
            }
            None
        },
    }
}

/// A getter returns values of reference types (strings, bytes, arrays and
/// user-defined types) from memory and values of other types without a
/// data location; a mapping's getter does so for the mapping's final value
/// type.
pub proof fn law_getter_return_storage(ty: Expression, is_constant: bool)
    ensures
        return_storage(ty) == (if is_reference_type(ty) {
            Some(StorageLocation::Memory)
        } else {
            None::<StorageLocation>
        }),
        ty is Type && ty->Type_0 is Mapping ==> getter_signature(ty, is_constant).1 == seq![
            Some(
                TypedParameter {
                    ty: mapping_keys(ty).1,
                    storage: if is_reference_type(mapping_keys(ty).1) {
                        Some(StorageLocation::Memory)
                    } else {
                        None
                    },
                    name: None,
                },
            ),
        ],
{
    let v = mapping_keys(ty).1;
    match v {
        Expression::Type(t) => match t {
            SolType::String | SolType::DynamicBytes => {},
            _ => {},
        },
        _ => {},
    }
}

} // verus!
