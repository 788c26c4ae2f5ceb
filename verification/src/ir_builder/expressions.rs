//! Naming rules for parameters and return variables, and the layout of
//! expressions and types.
use vstd::prelude::*;
use crate::ast::{
    BinaryOp, Expression, FunctionAttribute, Mutability, NamedArgument, SolType, StorageLocation, TypedParameter,
    UnaryOp, Visibility,
};
use crate::ast::{elementary_type_name, mutability_keyword, unary_token, binary_token, law_binary_tokens_distinct, storage_keyword, visibility_keyword};
use crate::ir_builder::ir::{doc_match, docs, Doc, IRElement};
use crate::ir_builder::ordering::identifier_path_text;
use crate::ir_builder::types::{push_block, push_doc, push_text};
use crate::text::{
    chars_equal, chars_of, decimal, has_prefix, join, push_all, string_from, strip_suffix_chars, strip_suffix_or_keep,
};

verus! {

/// A name with a leading underscore: unchanged if it has one.
pub open spec fn normalized_name(n: Seq<char>) -> Seq<char> {
    if n.len() > 0 && n[0] == '_' {
        n
    } else {
        seq!['_'] + n
    }
}

/// Gives a parameter name a leading underscore, unless it has one.
pub fn normalize_param_name(name: &str) -> (r: String)
    ensures
        r@ == normalized_name(name@),
{
    let cs = chars_of(name);
    if cs.len() > 0 && cs[0] == '_' {
        string_from(cs.as_slice())
    } else {
        let mut out: Vec<char> = vec!['_'];
        push_all(&mut out, cs.as_slice());
        assert(out@ =~= seq!['_'] + name@);
        string_from(out.as_slice())
    }
}

/// A rename table: pairs of original and new name.
pub type Renames = Seq<(Seq<char>, Seq<char>)>;

/// The name `n` after the renames: the new name of the first pair for `n`,
/// else `n` itself.
pub open spec fn renamed(rn: Renames, n: Seq<char>) -> Seq<char>
    decreases rn.len(),
{
    if rn.len() == 0 {
        n
    } else if rn[0].0 == n {
        rn[0].1
    } else {
        renamed(rn.drop_first(), n)
    }
}

/// A mapping key or value name with a leading underscore, unless it has
/// one or is the `TODO` placeholder.
pub open spec fn prefixed_name(n: Seq<char>) -> Seq<char> {
    if (n.len() > 0 && n[0] == '_') || n == "TODO"@ {
        n
    } else {
        seq!['_'] + n
    }
}

/// An optional mapping name after a space, in text form.
pub open spec fn opt_name_text(n: Option<String>) -> Seq<char> {
    match n {
        Some(x) => seq![' '] + prefixed_name(x@),
        None => Seq::empty(),
    }
}

/// A type as one piece of text (for member-access paths).
pub open spec fn type_text(t: SolType) -> Seq<char>
    decreases t,
{
    match t {
        SolType::Address => "address"@,
        SolType::AddressPayable => "address payable"@,
        SolType::Bool => "bool"@,
        SolType::String => "string"@,
        SolType::Bytes(n) => "bytes"@ + decimal(n as nat),
        SolType::Int(n) => "int"@ + decimal(n as nat),
        SolType::Uint(n) => "uint"@ + decimal(n as nat),
        SolType::DynamicBytes => "bytes"@,
        SolType::Mapping { key, key_name, value, value_name } => "mapping("@ + expr_type_text(*key) + opt_name_text(
            key_name,
        ) + " => "@ + expr_type_text(*value) + opt_name_text(value_name) + ")"@,
        SolType::Function { .. } => "function"@,
        SolType::Rational => "rational"@,
        SolType::Payable => "payable"@,
    }
}

/// An expression in a type position as one piece of text: names, paths and
/// types; anything else is `?`.
pub open spec fn expr_type_text(e: Expression) -> Seq<char>
    decreases e,
{
    match e {
        Expression::Variable(n) => n@,
        Expression::MemberAccess(b, m) => path_text(*b, Seq::empty()) + seq!['.'] + m@,
        Expression::Type(t) => type_text(t),
        _ => "?"@,
    }
}

/// A member-access path of names and types as one piece of text, names
/// renamed.
pub open spec fn path_text(e: Expression, rn: Renames) -> Seq<char>
    decreases e,
{
    match e {
        Expression::MemberAccess(b, m) => path_text(*b, rn) + seq!['.'] + m@,
        Expression::Variable(n) => renamed(rn, n@),
        Expression::Type(t) => type_text(t),
        _ => Seq::empty(),
    }
}

/// Whether a member-access chain is made of names and types only.
pub open spec fn is_simple_path(e: Expression) -> bool
    decreases e,
{
    match e {
        Expression::MemberAccess(b, _) => is_simple_path(*b),
        Expression::Variable(_) => true,
        Expression::Type(_) => true,
        _ => false,
    }
}

/// Whether the text of a type can be formed: every mapping key and value
/// in it is a name, a type or a path of names and types.
pub open spec fn type_text_ok(t: SolType) -> bool
    decreases t,
{
    match t {
        SolType::Mapping { key, value, .. } => expr_text_ok(*key) && expr_text_ok(*value),
        _ => true,
    }
}

/// Whether the type-position text of an expression can be formed.
pub open spec fn expr_text_ok(e: Expression) -> bool
    decreases e,
{
    match e {
        Expression::MemberAccess(b, _) => path_ok(*b),
        Expression::Type(t) => type_text_ok(t),
        _ => true,
    }
}

/// Whether `e` is a path of names and types whose text can be formed.
pub open spec fn path_ok(e: Expression) -> bool
    decreases e,
{
    match e {
        Expression::MemberAccess(b, _) => path_ok(*b),
        Expression::Variable(_) => true,
        Expression::Type(t) => type_text_ok(t),
        _ => false,
    }
}

/// Whether an expression leads to a subscript or a call on one, which is
/// laid out with hard breaks among call options.
pub open spec fn is_complex(e: Expression) -> bool
    decreases e,
{
    match e {
        Expression::ArraySubscript(..) => true,
        Expression::MemberAccess(b, _) => is_complex(*b),
        Expression::FunctionCall(f, _) => is_complex(*f),
        _ => false,
    }
}

/// The text of `base[index]` when both are simple: names, member accesses
/// on simple expressions and subscripts of them.
pub open spec fn chain_text(e: Expression, rn: Renames) -> Option<Seq<char>>
    decreases e, 0int,
{
    match e {
        Expression::ArraySubscript(a, i) => with_index(base_text(*a, rn), i, rn),
        _ => None,
    }
}

/// The text of a simple expression: a name, a member access on a simple
/// expression, or a subscript chain.
pub open spec fn simple_text(e: Expression, rn: Renames) -> Option<Seq<char>>
    decreases e, 1int,
{
    match e {
        Expression::Variable(n) => Some(renamed(rn, n@)),
        Expression::MemberAccess(b, m) => match simple_text(*b, rn) {
            Some(t) => Some(t + seq!['.'] + m@),
            None => None,
        },
        Expression::ArraySubscript(..) => chain_text(e, rn),
        _ => None,
    }
}

/// The text of the array part of a subscript chain.
pub open spec fn base_text(a: Expression, rn: Renames) -> Option<Seq<char>>
    decreases a, 2int,
{
    match a {
        Expression::Variable(n) => Some(renamed(rn, n@)),
        Expression::ArraySubscript(..) => chain_text(a, rn),
        Expression::MemberAccess(b, m) => match simple_text(*b, rn) {
            Some(t) => Some(t + seq!['.'] + m@),
            None => None,
        },
        _ => None,
    }
}

/// A subscript chain's text from its base text and index.
pub open spec fn with_index(base: Option<Seq<char>>, i: Option<Box<Expression>>, rn: Renames) -> Option<Seq<char>>
    decreases i, 3int,
{
    match base {
        None => None,
        Some(bt) => match i {
            Some(x) => match simple_text(*x, rn) {
                Some(it) => Some(bt + seq!['['] + it + seq![']']),
                None => None,
            },
            None => Some(bt + "[]"@),
        },
    }
}

/// The text of a data location.
pub open spec fn storage_text(s: StorageLocation) -> Seq<char> {
    match s {
        StorageLocation::Memory => "memory"@,
        StorageLocation::Storage => "storage"@,
        StorageLocation::Calldata => "calldata"@,
    }
}

/// The text of a visibility.
pub open spec fn visibility_text(v: Visibility) -> Seq<char> {
    match v {
        Visibility::Public => "public"@,
        Visibility::Private => "private"@,
        Visibility::Internal => "internal"@,
        Visibility::External => "external"@,
    }
}

/// The text of a mutability.
pub open spec fn mutability_text(m: Mutability) -> Seq<char> {
    match m {
        Mutability::Pure => "pure"@,
        Mutability::View => "view"@,
        Mutability::Constant => "constant"@,
        Mutability::Payable => "payable"@,
    }
}

/// ` location` after a type, when a location is written.
pub open spec fn storage_docs(s: Option<StorageLocation>) -> Seq<Doc> {
    match s {
        Some(l) => seq![Doc::Text(" "@), Doc::Text(storage_text(l))],
        None => Seq::empty(),
    }
}

/// A mapping name, or `TODO` when it has none.
pub open spec fn name_or_todo(n: Option<String>) -> Seq<char> {
    match n {
        Some(x) => prefixed_name(x@),
        None => "TODO"@,
    }
}

/// Whether an expression is a mapping type.
pub open spec fn is_mapping(e: Expression) -> bool {
    e matches Expression::Type(SolType::Mapping { .. })
}

/// Whether `t[]` of a type is written as one piece of text.
pub open spec fn plain_array_type(t: SolType) -> bool {
    match t {
        SolType::Uint(_) | SolType::Int(_) | SolType::Bytes(_) | SolType::Address | SolType::Bool
        | SolType::String | SolType::DynamicBytes => true,
        _ => false,
    }
}

/// The text of a decimal literal: as written in the source when that is at
/// hand, else its digits, exponent and ` unit`.
pub open spec fn number_text(number: String, exponent: String, unit: Option<String>, source: Option<String>) -> Seq<
    char,
> {
    match source {
        Some(t) => t@,
        None => number@ + exponent@ + match unit {
            Some(u) => seq![' '] + u@,
            None => Seq::empty(),
        },
    }
}

/// Each string between `open` and a closing quote.
pub open spec fn quoted(ps: Seq<String>, open: Seq<char>) -> Seq<Seq<char>> {
    ps.map_values(|p: String| open + p@ + "\""@)
}

/// The operator text of a unary operator.
pub open spec fn unary_text(op: UnaryOp) -> Seq<char> {
    match op {
        UnaryOp::PreIncrement | UnaryOp::PostIncrement => "++"@,
        UnaryOp::PreDecrement | UnaryOp::PostDecrement => "--"@,
        UnaryOp::Not => "!"@,
        UnaryOp::BitwiseNot => "~"@,
        UnaryOp::UnaryPlus => "+"@,
        UnaryOp::Negate => "-"@,
        UnaryOp::New => "new "@,
        UnaryOp::Delete => "delete "@,
    }
}

/// Whether a unary operator comes after its operand.
pub open spec fn is_postfix(op: UnaryOp) -> bool {
    op is PostIncrement || op is PostDecrement
}

/// The operator text of a binary operator, with its surrounding spaces;
/// `&&` and `||` are written after a soft break instead.
pub open spec fn binary_text(op: BinaryOp) -> Seq<char> {
    match op {
        BinaryOp::Power => " ** "@,
        BinaryOp::Multiply => " * "@,
        BinaryOp::Divide => " / "@,
        BinaryOp::Modulo => " % "@,
        BinaryOp::Add => " + "@,
        BinaryOp::Subtract => " - "@,
        BinaryOp::ShiftLeft => " << "@,
        BinaryOp::ShiftRight => " >> "@,
        BinaryOp::Less => " < "@,
        BinaryOp::More => " > "@,
        BinaryOp::LessEqual => " <= "@,
        BinaryOp::MoreEqual => " >= "@,
        BinaryOp::Equal => " == "@,
        BinaryOp::NotEqual => " != "@,
        BinaryOp::BitwiseAnd => " & "@,
        BinaryOp::BitwiseXor => " ^ "@,
        BinaryOp::BitwiseOr => " | "@,
        BinaryOp::And => "&& "@,
        BinaryOp::Or => "|| "@,
        BinaryOp::Assign => " = "@,
        BinaryOp::AssignOr => " |= "@,
        BinaryOp::AssignAnd => " &= "@,
        BinaryOp::AssignXor => " ^= "@,
        BinaryOp::AssignShiftLeft => " <<= "@,
        BinaryOp::AssignShiftRight => " >>= "@,
        BinaryOp::AssignAdd => " += "@,
        BinaryOp::AssignSubtract => " -= "@,
        BinaryOp::AssignMultiply => " *= "@,
        BinaryOp::AssignDivide => " /= "@,
        BinaryOp::AssignModulo => " %= "@,
    }
}

/// The layout of a binary operation from the layouts of its operands:
/// equality may break after the operator, `&&` and `||` before it.
pub open spec fn binary_doc(op: BinaryOp, l: Doc, r: Doc) -> Doc {
    match op {
        BinaryOp::Equal | BinaryOp::NotEqual => Doc::Group(
            seq![l, Doc::Text(binary_text(op)), Doc::Softest, r],
        ),
        BinaryOp::And | BinaryOp::Or => Doc::Group(seq![l, Doc::Soft, Doc::Text(binary_text(op)), r]),
        _ => Doc::Group(seq![l, Doc::Text(binary_text(op)), r]),
    }
}

/// A hard break when `h`, else a soft one.
pub open spec fn break_doc(h: bool) -> Doc {
    if h {
        Doc::Hard
    } else {
        Doc::Soft
    }
}

/// Whether any call option's value is complex.
pub open spec fn any_complex(s: Seq<NamedArgument>) -> bool {
    exists|i: int| 0 <= i < s.len() && is_complex(#[trigger] s[i].expr)
}

/// The layout of `array[index]` from the layouts of its parts: `name[]` and
/// `type[]` as one text for elementary types, a subscript chain of simple
/// parts as one text, else the parts in a group.
pub open spec fn subscript_doc(a: Expression, i: Option<Box<Expression>>, rn: Renames, ad: Doc, id: Seq<Doc>) -> Doc {
    if i is None && a is Variable {
        Doc::Text(renamed(rn, a->Variable_0@) + "[]"@)
    } else if i is None && a is Type {
        if plain_array_type(a->Type_0) {
            Doc::Text(type_text(a->Type_0) + "[]"@)
        } else {
            Doc::Group(seq![ad, Doc::Text("["@), Doc::Text("]"@)])
        }
    } else {
        match with_index(base_text(a, rn), i, rn) {
            Some(t) => Doc::Text(t),
            None => Doc::Group(seq![ad, Doc::Text("["@)] + id + seq![Doc::Text("]"@)]),
        }
    }
}

/// The layout of an expression, names renamed.
pub open spec fn expr_doc(e: Expression, rn: Renames) -> Doc
    decreases e,
{
    match e {
        Expression::Type(t) => type_doc(t),
        Expression::Variable(n) => Doc::Text(renamed(rn, n@)),
        Expression::BoolLiteral(b) => Doc::Text(
            if b {
                "true"@
            } else {
                "false"@
            },
        ),
        Expression::NumberLiteral { number, exponent, unit, source } => Doc::Text(
            number_text(number, exponent, unit, source),
        ),
        Expression::RationalNumberLiteral { integer, fraction, exponent } => Doc::Text(integer@ + exponent@),
        Expression::HexNumberLiteral(h) => Doc::Text(h@),
        Expression::StringLiteral(ps) => Doc::Text(join(quoted(ps@, "\""@), " "@)),
        Expression::HexLiteral(ps) => Doc::Text(join(quoted(ps@, "hex\""@), " "@)),
        Expression::AddressLiteral(a) => Doc::Text(a@),
        Expression::ArrayLiteral(es) => if es.len() == 0 {
            Doc::Text("[]"@)
        } else {
            Doc::Group(seq![Doc::Text("["@)] + list_docs(es@, rn) + seq![Doc::Text("]"@)])
        },
        Expression::List(ps) => Doc::Group(seq![Doc::Text("("@)] + slot_docs(ps@, rn) + seq![Doc::Text(")"@)]),
        Expression::ArraySubscript(a, i) => subscript_doc(
            *a,
            i,
            rn,
            expr_doc(*a, rn),
            match i {
                Some(x) => seq![expr_doc(*x, rn)],
                None => Seq::empty(),
            },
        ),
        Expression::ArraySlice(a, from, to) => Doc::Group(
            seq![expr_doc(*a, rn), Doc::Text("["@)] + match from {
                Some(x) => seq![expr_doc(*x, rn)],
                None => Seq::empty(),
            } + seq![Doc::Text(":"@)] + match to {
                Some(x) => seq![expr_doc(*x, rn)],
                None => Seq::empty(),
            } + seq![Doc::Text("]"@)],
        ),
        Expression::MemberAccess(b, m) => if is_simple_path(e) {
            Doc::Text(path_text(e, rn))
        } else {
            Doc::Group(seq![expr_doc(*b, rn), Doc::Text("."@), Doc::Text(m@)])
        },
        Expression::FunctionCall(f, args) => Doc::Group(
            seq![expr_doc(*f, rn), Doc::Text("("@)] + (if args.len() > 0 {
                seq![Doc::Indent(seq![Doc::Softest] + list_docs(args@, rn)), Doc::Softest]
            } else {
                Seq::empty()
            }) + seq![Doc::Text(")"@)],
        ),
        Expression::NamedFunctionCall(f, args) => Doc::Group(
            seq![expr_doc(*f, rn), Doc::Text("({"@)] + named_docs(args@, args.len() as int, rn) + (if args.len()
                > 0 {
                seq![Doc::Hard]
            } else {
                Seq::empty()
            }) + seq![Doc::Text("})"@)],
        ),
        Expression::FunctionCallBlock(f, opts) => match opts {
            Some(args) => Doc::Group(
                seq![expr_doc(*f, rn), Doc::Text("{"@)] + (if args.len() > 0 {
                    seq![
                        Doc::Indent(option_docs(args@, any_complex(args@), rn)),
                        break_doc(any_complex(args@)),
                    ]
                } else {
                    Seq::empty()
                }) + seq![Doc::Text("}"@)],
            ),
            None => Doc::Group(seq![expr_doc(*f, rn), Doc::Text("{"@), Doc::Text(" /* block */ }"@)]),
        },
        Expression::Unary(op, x) => if is_postfix(op) {
            Doc::Group(seq![expr_doc(*x, rn), Doc::Text(unary_text(op))])
        } else {
            Doc::Group(seq![Doc::Text(unary_text(op)), expr_doc(*x, rn)])
        },
        Expression::Binary(op, l, r) => binary_doc(op, expr_doc(*l, rn), expr_doc(*r, rn)),
        Expression::ConditionalOperator(c, t, f) => Doc::Group(
            seq![
                expr_doc(*c, rn),
                Doc::Text(" ? "@),
                expr_doc(*t, rn),
                Doc::Text(" : "@),
                expr_doc(*f, rn),
            ],
        ),
        Expression::Parenthesis(x) => Doc::Group(
            seq![
                Doc::Text("("@),
                Doc::Indent(seq![Doc::Softest, expr_doc(*x, rn)]),
                Doc::Softest,
                Doc::Text(")"@),
            ],
        ),
    }
}

/// Expressions separated by `,` and a soft break.
pub open spec fn list_docs(s: Seq<Expression>, rn: Renames) -> Seq<Doc>
    decreases s,
{
    if s.len() == 0 {
        Seq::empty()
    } else {
        list_docs(s.drop_last(), rn) + (if s.len() > 1 {
            seq![Doc::Text(","@), Doc::Soft]
        } else {
            Seq::empty()
        }) + seq![expr_doc(s.last(), rn)]
    }
}

/// The slots of a parenthesised list separated by `,` and a soft break:
/// type, location and normalized name; an empty slot is empty.
pub open spec fn slot_docs(s: Seq<Option<TypedParameter>>, rn: Renames) -> Seq<Doc>
    decreases s,
{
    if s.len() == 0 {
        Seq::empty()
    } else {
        slot_docs(s.drop_last(), rn) + (if s.len() > 1 {
            seq![Doc::Text(","@), Doc::Soft]
        } else {
            Seq::empty()
        }) + match s.last() {
            Some(p) => seq![expr_doc(p.ty, rn)] + storage_docs(p.storage) + match p.name {
                Some(n) => seq![Doc::Text(" "@), Doc::Text(normalized_name(n@))],
                None => Seq::empty(),
            },
            None => Seq::empty(),
        }
    }
}

/// Named arguments, each on its own indented line, all but the last of
/// `total` followed by a comma.
pub open spec fn named_docs(s: Seq<NamedArgument>, total: int, rn: Renames) -> Seq<Doc>
    decreases s,
{
    if s.len() == 0 {
        Seq::empty()
    } else {
        named_docs(s.drop_last(), total, rn) + seq![
            Doc::Hard,
            Doc::Indent(
                seq![
                    Doc::Text(s.last().name@),
                    Doc::Text(": "@),
                    expr_doc(s.last().expr, rn),
                    Doc::Text(
                        if s.len() - 1 < total - 1 {
                            ","@
                        } else {
                            ""@
                        },
                    ),
                ],
            ),
        ]
    }
}

/// Call options, each after a comma (but the first) and a break of the
/// kind `hard` selects.
pub open spec fn option_docs(s: Seq<NamedArgument>, hard: bool, rn: Renames) -> Seq<Doc>
    decreases s,
{
    if s.len() == 0 {
        Seq::empty()
    } else {
        option_docs(s.drop_last(), hard, rn) + (if s.len() > 1 {
            seq![Doc::Text(","@)]
        } else {
            Seq::empty()
        }) + seq![
            break_doc(hard),
            Doc::Text(s.last().name@),
            Doc::Text(": "@),
            expr_doc(s.last().expr, rn),
        ]
    }
}

/// The layout of a type: mappings over indented lines with named (or
/// `TODO`) key and value, function types on one group.
pub open spec fn type_doc(t: SolType) -> Doc
    decreases t,
{
    match t {
        SolType::Mapping { key, key_name, value, value_name } => Doc::Group(
            seq![
                Doc::Text("mapping ("@),
                Doc::Indent(
                    seq![
                        Doc::Hard,
                        expr_doc(*key, Seq::empty()),
                        Doc::Text(" "@),
                        Doc::Text(name_or_todo(key_name)),
                        Doc::Text(" => "@),
                        expr_doc(*value, Seq::empty()),
                    ] + if is_mapping(*value) {
                        Seq::empty()
                    } else {
                        seq![Doc::Text(" "@), Doc::Text(name_or_todo(value_name))]
                    },
                ),
                Doc::Hard,
                Doc::Text(")"@),
            ],
        ),
        SolType::Function { params, attributes, outputs } => Doc::Group(
            seq![Doc::Text("function("@)] + fn_params_docs(params@) + seq![Doc::Text(")"@)] + attrs_docs(
                attributes@,
            ) + if outputs.len() > 0 {
                seq![Doc::Text(" returns ("@)] + fn_params_docs(outputs@) + seq![Doc::Text(")"@)]
            } else {
                Seq::empty()
            },
        ),
        _ => Doc::Text(type_text(t)),
    }
}

/// A parameter: type, location and name (normalized when `normalize`,
/// left out when `strip`).
pub open spec fn param_docs(p: TypedParameter, normalize: bool, strip: bool) -> Seq<Doc>
    decreases p,
{
    seq![expr_doc(p.ty, Seq::empty())] + storage_docs(p.storage) + if strip {
        Seq::empty()
    } else {
        match p.name {
            Some(n) => seq![
                Doc::Text(" "@),
                Doc::Text(
                    if normalize {
                        normalized_name(n@)
                    } else {
                        n@
                    },
                ),
            ],
            None => Seq::empty(),
        }
    }
}

/// The parameters of a function type separated by `, `.
pub open spec fn fn_params_docs(s: Seq<Option<TypedParameter>>) -> Seq<Doc>
    decreases s,
{
    if s.len() == 0 {
        Seq::empty()
    } else {
        fn_params_docs(s.drop_last()) + (if s.len() > 1 {
            seq![Doc::Text(", "@)]
        } else {
            Seq::empty()
        }) + match s.last() {
            Some(p) => param_docs(p, true, false),
            None => Seq::empty(),
        }
    }
}

/// The attributes of a function type, each after a space.
pub open spec fn attrs_docs(s: Seq<FunctionAttribute>) -> Seq<Doc>
    decreases s,
{
    if s.len() == 0 {
        Seq::empty()
    } else {
        attrs_docs(s.drop_last()) + seq![Doc::Text(" "@), attr_doc(s.last())]
    }
}

/// The layout of a function attribute.
pub open spec fn attr_doc(a: FunctionAttribute) -> Doc
    decreases a,
{
    match a {
        FunctionAttribute::Visibility(v) => Doc::Text(visibility_text(v)),
        FunctionAttribute::Mutability(m) => Doc::Text(mutability_text(m)),
        FunctionAttribute::Virtual => Doc::Text("virtual"@),
        FunctionAttribute::Immutable => Doc::Text("immutable"@),
        FunctionAttribute::Override(_) => Doc::Text("override"@),
        FunctionAttribute::BaseOrModifier(path, args) => Doc::Group(
            seq![Doc::Text(identifier_path_text(path))] + match args {
                Some(xs) => seq![Doc::Text("("@)] + comma_docs(xs@) + seq![Doc::Text(")"@)],
                None => Seq::empty(),
            },
        ),
        FunctionAttribute::Error => Doc::Text("/* error */"@),
    }
}

/// Expressions separated by `, `, names not renamed.
pub open spec fn comma_docs(s: Seq<Expression>) -> Seq<Doc>
    decreases s,
{
    if s.len() == 0 {
        Seq::empty()
    } else {
        comma_docs(s.drop_last()) + (if s.len() > 1 {
            seq![Doc::Text(", "@)]
        } else {
            Seq::empty()
        }) + seq![expr_doc(s.last(), Seq::empty())]
    }
}

/// The name `n` after the renames `rn` (original and new name pairs).
pub fn rename_lookup(rn: &[(String, String)], n: &str) -> (r: String)
    ensures
        r@ == renamed(pair_views(rn@), n@),
{
    let ghost pv = pair_views(rn@);
    let ns = chars_of(n);
    let mut i: usize = 0;
    assert(pv.skip(0) =~= pv);
    while i < rn.len()
        invariant
            i <= rn@.len(),
            pv == pair_views(rn@),
            ns@ == n@,
            renamed(pv, n@) == renamed(pv.skip(i as int), n@),
        decreases rn@.len() - i,
    {
        assert(pv.skip(i as int)[0] == pv[i as int]);
        assert(pv[i as int] == (rn@[i as int].0@, rn@[i as int].1@));
        if chars_equal(chars_of(rn[i].0.as_str()).as_slice(), ns.as_slice()) {
            return rn[i].1.clone();
        }
        assert(pv.skip(i as int).drop_first() =~= pv.skip(i + 1));
        i = i + 1;
    }
    assert(pv.skip(i as int) =~= Seq::<(Seq<char>, Seq<char>)>::empty());
    n.to_owned()
}

/// Appends a mapping name with its leading underscore, unless it has one
/// or is `TODO`.
fn push_prefixed(v: &mut Vec<char>, n: &str)
    ensures
        final(v)@ == old(v)@ + prefixed_name(n@),
{
    let cs = chars_of(n);
    let todo = chars_of("TODO");
    if !((cs.len() > 0 && cs[0] == '_') || chars_equal(cs.as_slice(), todo.as_slice())) {
        v.push('_');
    }
    let ghost mid = v@;
    push_all(v, cs.as_slice());
    proof {
        if !((n@.len() > 0 && n@[0] == '_') || n@ == "TODO"@) {
            assert(v@ =~= old(v)@ + (seq!['_'] + n@));
        }
    }
}

/// Appends an optional mapping name after a space.
fn push_opt_name(v: &mut Vec<char>, n: &Option<String>)
    ensures
        final(v)@ == old(v)@ + opt_name_text(*n),
{
    match n {
        Some(x) => {
            v.push(' ');
            let ghost mid = v@;
            push_prefixed(v, x.as_str());
            assert(v@ =~= old(v)@ + (seq![' '] + prefixed_name(x@)));
        },
        None => {
            assert(v@ =~= old(v)@ + Seq::<char>::empty());
        },
    }
}

/// Appends the text of a type.
fn push_type_text(v: &mut Vec<char>, ty: &SolType)
    requires
        type_text_ok(*ty),
    ensures
        final(v)@ == old(v)@ + type_text(*ty),
    decreases *ty,
{
    match ty {
        SolType::Address => push_all(v, chars_of("address").as_slice()),
        SolType::AddressPayable => push_all(v, chars_of("address payable").as_slice()),
        SolType::Bool => push_all(v, chars_of("bool").as_slice()),
        SolType::String => push_all(v, chars_of("string").as_slice()),
        SolType::Bytes(n) => {
            push_all(v, chars_of("bytes").as_slice());
            push_all(v, crate::text::decimal_chars(*n as u32).as_slice());
            assert(v@ =~= old(v)@ + ("bytes"@ + decimal(*n as nat)));
        },
        SolType::Int(n) => {
            push_all(v, chars_of("int").as_slice());
            push_all(v, crate::text::decimal_chars(*n as u32).as_slice());
            assert(v@ =~= old(v)@ + ("int"@ + decimal(*n as nat)));
        },
        SolType::Uint(n) => {
            push_all(v, chars_of("uint").as_slice());
            push_all(v, crate::text::decimal_chars(*n as u32).as_slice());
            assert(v@ =~= old(v)@ + ("uint"@ + decimal(*n as nat)));
        },
        SolType::DynamicBytes => push_all(v, chars_of("bytes").as_slice()),
        SolType::Mapping { key, key_name, value, value_name } => {
            push_all(v, chars_of("mapping(").as_slice());
            let ghost a = v@;
            push_expr_type_text(v, &**key);
            let ghost b = v@;
            push_opt_name(v, key_name);
            let ghost c = v@;
            push_all(v, chars_of(" => ").as_slice());
            let ghost d = v@;
            push_expr_type_text(v, &**value);
            let ghost e = v@;
            push_opt_name(v, value_name);
            let ghost f = v@;
            push_all(v, chars_of(")").as_slice());
            assert(v@ =~= old(v)@ + ("mapping("@ + expr_type_text(**key) + opt_name_text(*key_name) + " => "@
                + expr_type_text(**value) + opt_name_text(*value_name) + ")"@));
        },
        SolType::Function { .. } => push_all(v, chars_of("function").as_slice()),
        SolType::Rational => push_all(v, chars_of("rational").as_slice()),
        SolType::Payable => push_all(v, chars_of("payable").as_slice()),
    }
}

/// Appends the type-position text of an expression.
fn push_expr_type_text(v: &mut Vec<char>, e: &Expression)
    requires
        expr_text_ok(*e),
    ensures
        final(v)@ == old(v)@ + expr_type_text(*e),
    decreases *e,
{
    match e {
        Expression::Variable(n) => push_all(v, chars_of(n.as_str()).as_slice()),
        Expression::MemberAccess(b, m) => {
            let none: Vec<(String, String)> = Vec::new();
            assert(pair_views(none@) =~= Seq::<(Seq<char>, Seq<char>)>::empty());
            push_path_text(v, &**b, none.as_slice());
            v.push('.');
            let ghost mid = v@;
            push_all(v, chars_of(m.as_str()).as_slice());
            assert(v@ =~= old(v)@ + (path_text(**b, Seq::empty()) + seq!['.'] + m@));
        },
        Expression::Type(t) => push_type_text(v, t),
        _ => push_all(v, chars_of("?").as_slice()),
    }
}

/// Appends the text of a path of names and types, names renamed.
fn push_path_text(v: &mut Vec<char>, e: &Expression, rn: &[(String, String)])
    requires
        path_ok(*e),
    ensures
        final(v)@ == old(v)@ + path_text(*e, pair_views(rn@)),
    decreases *e,
{
    match e {
        Expression::MemberAccess(b, m) => {
            push_path_text(v, &**b, rn);
            v.push('.');
            let ghost mid = v@;
            push_all(v, chars_of(m.as_str()).as_slice());
            assert(v@ =~= old(v)@ + (path_text(**b, pair_views(rn@)) + seq!['.'] + m@));
        },
        Expression::Variable(n) => {
            let r = rename_lookup(rn, n.as_str());
            push_all(v, chars_of(r.as_str()).as_slice());
        },
        Expression::Type(t) => push_type_text(v, t),
        _ => {},
    }
}

/// A type as one piece of text (for member-access paths).
pub fn format_type_to_string(ty: &SolType) -> (r: String)
    requires
        type_text_ok(*ty),
    ensures
        r@ == type_text(*ty),
{
    let mut v: Vec<char> = Vec::new();
    push_type_text(&mut v, ty);
    assert(v@ =~= type_text(*ty));
    string_from(v.as_slice())
}

/// An expression in a type position as one piece of text.
pub fn format_expression_to_string(e: &Expression) -> (r: String)
    requires
        expr_text_ok(*e),
    ensures
        r@ == expr_type_text(*e),
{
    let mut v: Vec<char> = Vec::new();
    push_expr_type_text(&mut v, e);
    assert(v@ =~= expr_type_text(*e));
    string_from(v.as_slice())
}

/// A member-access chain of names and types as one piece of text, so that
/// a path such as `Lib.Config` is never broken.
pub fn collect_member_access_path(e: &Expression, rn: &[(String, String)]) -> (r: String)
    requires
        path_ok(*e),
    ensures
        r@ == path_text(*e, pair_views(rn@)),
{
    let mut v: Vec<char> = Vec::new();
    push_path_text(&mut v, e, rn);
    assert(v@ =~= path_text(*e, pair_views(rn@)));
    string_from(v.as_slice())
}

/// Whether a member-access chain is made of names and types only.
pub fn is_simple_member_path(e: &Expression) -> (b: bool)
    ensures
        b == is_simple_path(*e),
    decreases *e,
{
    match e {
        Expression::MemberAccess(b, _) => is_simple_member_path(&**b),
        Expression::Variable(_) => true,
        Expression::Type(_) => true,
        _ => false,
    }
}

/// Whether an expression leads to a subscript, which calls for hard breaks
/// among call options.
pub fn expression_is_complex(e: &Expression) -> (b: bool)
    ensures
        b == is_complex(*e),
    decreases *e,
{
    match e {
        Expression::ArraySubscript(..) => true,
        Expression::MemberAccess(b, _) => expression_is_complex(&**b),
        Expression::FunctionCall(f, _) => expression_is_complex(&**f),
        _ => false,
    }
}

/// The view of an optional string.
pub open spec fn opt_view(o: Option<String>) -> Option<Seq<char>> {
    match o {
        Some(t) => Some(t@),
        None => None,
    }
}

/// `t.m`
fn dotted(t: &String, m: &String) -> (r: String)
    ensures
        r@ == t@ + seq!['.'] + m@,
{
    let mut v = chars_of(t.as_str());
    v.push('.');
    push_all(&mut v, chars_of(m.as_str()).as_slice());
    assert(v@ =~= t@ + seq!['.'] + m@);
    string_from(v.as_slice())
}

/// The text of a simple expression: a name, a member access on a simple
/// expression, or a subscript chain of simple parts.
pub fn try_collect_simple_expr(e: &Expression, rn: &[(String, String)]) -> (r: Option<String>)
    ensures
        opt_view(r) == simple_text(*e, pair_views(rn@)),
    decreases *e, 1int,
{
    match e {
        Expression::Variable(n) => Some(rename_lookup(rn, n.as_str())),
        Expression::MemberAccess(b, m) => match try_collect_simple_expr(&**b, rn) {
            Some(t) => Some(dotted(&t, m)),
            None => None,
        },
        Expression::ArraySubscript(..) => subscript_chain_of(e, rn),
        _ => None,
    }
}

/// The text of a subscript expression whose parts are simple.
fn subscript_chain_of(e: &Expression, rn: &[(String, String)]) -> (r: Option<String>)
    ensures
        opt_view(r) == chain_text(*e, pair_views(rn@)),
    decreases *e, 0int,
{
    match e {
        Expression::ArraySubscript(a, i) => {
            let base = subscript_base(&**a, rn);
            apply_index(base, i, rn)
        },
        _ => None,
    }
}

/// The text of the array part of a subscript chain.
fn subscript_base(a: &Expression, rn: &[(String, String)]) -> (r: Option<String>)
    ensures
        opt_view(r) == base_text(*a, pair_views(rn@)),
    decreases *a, 2int,
{
    match a {
        Expression::Variable(n) => Some(rename_lookup(rn, n.as_str())),
        Expression::ArraySubscript(..) => subscript_chain_of(a, rn),
        Expression::MemberAccess(b, m) => match try_collect_simple_expr(&**b, rn) {
            Some(t) => Some(dotted(&t, m)),
            None => None,
        },
        _ => None,
    }
}

/// A subscript chain's text from its base text and index.
fn apply_index(base: Option<String>, i: &Option<Box<Expression>>, rn: &[(String, String)]) -> (r: Option<String>)
    ensures
        opt_view(r) == with_index(opt_view(base), *i, pair_views(rn@)),
    decreases *i, 3int,
{
    match base {
        None => None,
        Some(bt) => {
            let mut v = chars_of(bt.as_str());
            match i {
                Some(x) => match try_collect_simple_expr(&**x, rn) {
                    Some(it) => {
                        v.push('[');
                        push_all(&mut v, chars_of(it.as_str()).as_slice());
                        v.push(']');
                        assert(v@ =~= bt@ + seq!['['] + it@ + seq![']']);
                        Some(string_from(v.as_slice()))
                    },
                    None => None,
                },
                None => {
                    push_all(&mut v, chars_of("[]").as_slice());
                    Some(string_from(v.as_slice()))
                },
            }
        },
    }
}

/// The text of `array[index]` when both are simple (names, member
/// accesses and subscripts of them), so that an access chain such as
/// `a[x][y]` is never broken; `None` otherwise.
pub fn try_collect_subscript_chain(array: &Expression, index: &Option<Box<Expression>>, rn: &[(String, String)]) -> (r:
    Option<String>)
    ensures
        opt_view(r) == with_index(base_text(*array, pair_views(rn@)), *index, pair_views(rn@)),
{
    let base = subscript_base(array, rn);
    apply_index(base, index, rn)
}

/// Whether the layout of `e` can be formed: every member-access path of
/// names and types in it has a text (see `path_ok`).
pub open spec fn expr_ok(e: Expression) -> bool
    decreases e,
{
    match e {
        Expression::Type(t) => type_ok(t),
        Expression::ArrayLiteral(es) => forall|i: int| 0 <= i < es@.len() ==> expr_ok(#[trigger] es@[i]),
        Expression::List(ps) => forall|i: int|
            0 <= i < ps@.len() ==> (#[trigger] ps@[i] matches Some(p) ==> expr_ok(p.ty)),
        Expression::ArraySubscript(a, i) => expr_ok(*a) && match i {
            Some(x) => expr_ok(*x),
            None => true,
        },
        Expression::ArraySlice(a, from, to) => expr_ok(*a) && match from {
            Some(x) => expr_ok(*x),
            None => true,
        } && match to {
            Some(x) => expr_ok(*x),
            None => true,
        },
        Expression::MemberAccess(b, _) => if is_simple_path(e) {
            path_ok(e)
        } else {
            expr_ok(*b)
        },
        Expression::FunctionCall(f, args) => expr_ok(*f) && forall|i: int|
            0 <= i < args@.len() ==> expr_ok(#[trigger] args@[i]),
        Expression::NamedFunctionCall(f, args) => expr_ok(*f) && forall|i: int|
            0 <= i < args@.len() ==> expr_ok(#[trigger] args@[i].expr),
        Expression::FunctionCallBlock(f, opts) => expr_ok(*f) && match opts {
            Some(args) => forall|i: int| 0 <= i < args@.len() ==> expr_ok(#[trigger] args@[i].expr),
            None => true,
        },
        Expression::Unary(_, x) => expr_ok(*x),
        Expression::Binary(_, l, r) => expr_ok(*l) && expr_ok(*r),
        Expression::ConditionalOperator(c, t, f) => expr_ok(*c) && expr_ok(*t) && expr_ok(*f),
        Expression::Parenthesis(x) => expr_ok(*x),
        _ => true,
    }
}

/// Whether the layout of a type can be formed.
pub open spec fn type_ok(t: SolType) -> bool
    decreases t,
{
    match t {
        SolType::Mapping { key, value, .. } => expr_ok(*key) && expr_ok(*value),
        SolType::Function { params, attributes, outputs } => (forall|i: int|
            0 <= i < params@.len() ==> (#[trigger] params@[i] matches Some(p) ==> expr_ok(p.ty))) && (forall|
            i: int,
        |
            0 <= i < outputs@.len() ==> (#[trigger] outputs@[i] matches Some(p) ==> expr_ok(p.ty))) && (forall|
            i: int,
        |
            0 <= i < attributes@.len() ==> (#[trigger] attributes@[i] matches FunctionAttribute::BaseOrModifier(
                _,
                Some(args),
            ) ==> forall|j: int| 0 <= j < args@.len() ==> expr_ok(#[trigger] args@[j]))),
        _ => true,
    }
}

/// A data location.
pub fn format_storage_location(storage: &StorageLocation) -> (r: IRElement)
    ensures
        doc_match(r, Doc::Text(storage_text(*storage))),
{
    IRElement::text(
        match storage {
            StorageLocation::Memory => "memory",
            StorageLocation::Storage => "storage",
            StorageLocation::Calldata => "calldata",
        },
    )
}

/// A visibility.
pub fn format_visibility(vis: &Visibility) -> (r: IRElement)
    ensures
        doc_match(r, Doc::Text(visibility_text(*vis))),
{
    IRElement::text(
        match vis {
            Visibility::Public => "public",
            Visibility::Private => "private",
            Visibility::Internal => "internal",
            Visibility::External => "external",
        },
    )
}

/// A mutability.
pub fn format_mutability(m: &Mutability) -> (r: IRElement)
    ensures
        doc_match(r, Doc::Text(mutability_text(*m))),
{
    IRElement::text(
        match m {
            Mutability::Pure => "pure",
            Mutability::View => "view",
            Mutability::Constant => "constant",
            Mutability::Payable => "payable",
        },
    )
}

/// A decimal literal: as written in the source when that is at hand, else
/// its digits, exponent and ` unit`.
pub fn format_number_literal(number: &String, exponent: &String, unit: &Option<String>, source: &Option<String>) -> (r:
    IRElement)
    ensures
        doc_match(r, Doc::Text(number_text(*number, *exponent, *unit, *source))),
{
    match source {
        Some(t) => IRElement::text(t.as_str()),
        None => {
            let mut v = chars_of(number.as_str());
            push_all(&mut v, chars_of(exponent.as_str()).as_slice());
            match unit {
                Some(u) => {
                    let ghost mid = v@;
                    v.push(' ');
                    push_all(&mut v, chars_of(u.as_str()).as_slice());
                    assert(v@ =~= mid + (seq![' '] + u@));
                },
                None => {
                    assert(v@ =~= v@ + Seq::<char>::empty());
                },
            }
            IRElement::text(string_from(v.as_slice()).as_str())
        },
    }
}

/// A rational literal: its integer part and its exponent part (the
/// fractional part is not written).
pub fn format_rational_number_literal(integer: &String, fraction: &String, exponent: &String) -> (r: IRElement)
    ensures
        doc_match(r, Doc::Text(integer@ + exponent@)),
{
    let mut v = chars_of(integer.as_str());
    let ev = chars_of(exponent.as_str());
    let fv = chars_of(fraction.as_str());
    if ev.len() > 0 || fv.len() > 0 {
        push_all(&mut v, ev.as_slice());
    } else {
        proof {
            assert(exponent@.len() == 0);
            assert(v@ =~= integer@ + exponent@);
        }
    }
    IRElement::text(string_from(v.as_slice()).as_str())
}

/// Each string between `open` and a closing quote.
fn quoted_strings(ps: &Vec<String>, open: &str) -> (r: Vec<String>)
    ensures
        crate::text::str_views(r@) == quoted(ps@, open@),
{
    let mut r: Vec<String> = Vec::new();
    let mut i: usize = 0;
    proof {
        reveal_strlit("\"");
    }
    while i < ps.len()
        invariant
            i <= ps@.len(),
            r@.len() == i,
            "\""@ == seq!['"'],
            forall|j: int| 0 <= j < i ==> (#[trigger] r@[j])@ == open@ + ps@[j]@ + "\""@,
        decreases ps@.len() - i,
    {
        let mut v = chars_of(open);
        push_all(&mut v, chars_of(ps[i].as_str()).as_slice());
        v.push('"');
        assert(v@ =~= open@ + ps@[i as int]@ + "\""@);
        r.push(string_from(v.as_slice()));
        i = i + 1;
    }
    assert(crate::text::str_views(r@) =~= quoted(ps@, open@));
    r
}

/// Adjacent string literals, each quoted, separated by spaces.
pub fn format_string_literal(strings: &Vec<String>) -> (r: IRElement)
    ensures
        doc_match(r, Doc::Text(join(quoted(strings@, "\""@), " "@))),
{
    let parts = quoted_strings(strings, "\"");
    let joined = crate::text::join_strings(&parts, chars_of(" ").as_slice());
    IRElement::text(string_from(joined.as_slice()).as_str())
}

/// Adjacent hex literals, each as `hex"..."`, separated by spaces.
pub fn format_hex_literal(hexes: &Vec<String>) -> (r: IRElement)
    ensures
        doc_match(r, Doc::Text(join(quoted(hexes@, "hex\""@), " "@))),
{
    let parts = quoted_strings(hexes, "hex\"");
    let joined = crate::text::join_strings(&parts, chars_of(" ").as_slice());
    IRElement::text(string_from(joined.as_slice()).as_str())
}

/// The layout of an optional expression: none, or the expression's.
pub open spec fn opt_expr_docs(o: Option<Box<Expression>>, rn: Renames) -> Seq<Doc> {
    match o {
        Some(x) => seq![expr_doc(*x, rn)],
        None => Seq::empty(),
    }
}

/// ` name` of a parameter unless `strip`, normalized when `normalize`.
pub open spec fn param_name_docs(name: Option<String>, normalize: bool, strip: bool) -> Seq<Doc> {
    if strip {
        Seq::empty()
    } else {
        match name {
            Some(n) => seq![
                Doc::Text(" "@),
                Doc::Text(
                    if normalize {
                        normalized_name(n@)
                    } else {
                        n@
                    },
                ),
            ],
            None => Seq::empty(),
        }
    }
}

/// `(args)` of a base or modifier, when arguments are given.
pub open spec fn modifier_args_docs(args: Option<Vec<Expression>>) -> Seq<Doc> {
    match args {
        Some(xs) => seq![Doc::Text("("@)] + comma_docs(xs@) + seq![Doc::Text(")"@)],
        None => Seq::empty(),
    }
}

/// A group of the elements `v`.
pub(crate) fn group_of(v: Vec<IRElement>, Ghost(ds): Ghost<Seq<Doc>>) -> (r: IRElement)
    requires
        docs(v@, ds),
    ensures
        doc_match(r, Doc::Group(ds)),
{
    IRElement::Group(v)
}

/// An indentation block of the elements `v`.
pub(crate) fn indent_of(v: Vec<IRElement>, Ghost(ds): Ghost<Seq<Doc>>) -> (r: IRElement)
    requires
        docs(v@, ds),
    ensures
        doc_match(r, Doc::Indent(ds)),
{
    IRElement::Indent(v)
}

/// Two elements.
pub(crate) fn elems2(a: IRElement, b: IRElement, Ghost(da): Ghost<Doc>, Ghost(db): Ghost<Doc>) -> (v: Vec<IRElement>)
    requires
        doc_match(a, da),
        doc_match(b, db),
    ensures
        docs(v@, seq![da, db]),
{
    let mut v: Vec<IRElement> = Vec::new();
    push_doc(&mut v, a, Ghost(Seq::empty()), Ghost(da));
    let ghost d1 = seq![da];
    push_doc(&mut v, b, Ghost(d1), Ghost(db));
    assert(seq![da].push(db) =~= seq![da, db]);
    v
}

/// Three elements.
pub(crate) fn elems3(a: IRElement, b: IRElement, c: IRElement, Ghost(da): Ghost<Doc>, Ghost(db): Ghost<Doc>, Ghost(dc): Ghost<Doc>) -> (v:
    Vec<IRElement>)
    requires
        doc_match(a, da),
        doc_match(b, db),
        doc_match(c, dc),
    ensures
        docs(v@, seq![da, db, dc]),
{
    let mut v = elems2(a, b, Ghost(da), Ghost(db));
    let ghost d2 = seq![da, db];
    push_doc(&mut v, c, Ghost(d2), Ghost(dc));
    assert(seq![da, db].push(dc) =~= seq![da, db, dc]);
    v
}

/// Four elements.
pub(crate) fn elems4(
    a: IRElement,
    b: IRElement,
    c: IRElement,
    d: IRElement,
    Ghost(da): Ghost<Doc>,
    Ghost(db): Ghost<Doc>,
    Ghost(dc): Ghost<Doc>,
    Ghost(dd): Ghost<Doc>,
) -> (v: Vec<IRElement>)
    requires
        doc_match(a, da),
        doc_match(b, db),
        doc_match(c, dc),
        doc_match(d, dd),
    ensures
        docs(v@, seq![da, db, dc, dd]),
{
    let mut v = elems3(a, b, c, Ghost(da), Ghost(db), Ghost(dc));
    let ghost d3 = seq![da, db, dc];
    push_doc(&mut v, d, Ghost(d3), Ghost(dd));
    assert(seq![da, db, dc].push(dd) =~= seq![da, db, dc, dd]);
    v
}

/// The operator text of a unary operator.
fn unary_str(op: UnaryOp) -> (r: &'static str)
    ensures
        r@ == unary_text(op),
{
    match op {
        UnaryOp::PreIncrement | UnaryOp::PostIncrement => "++",
        UnaryOp::PreDecrement | UnaryOp::PostDecrement => "--",
        UnaryOp::Not => "!",
        UnaryOp::BitwiseNot => "~",
        UnaryOp::UnaryPlus => "+",
        UnaryOp::Negate => "-",
        UnaryOp::New => "new ",
        UnaryOp::Delete => "delete ",
    }
}

/// The operator text of a binary operator.
fn binary_str(op: BinaryOp) -> (r: &'static str)
    ensures
        r@ == binary_text(op),
{
    match op {
        BinaryOp::Power => " ** ",
        BinaryOp::Multiply => " * ",
        BinaryOp::Divide => " / ",
        BinaryOp::Modulo => " % ",
        BinaryOp::Add => " + ",
        BinaryOp::Subtract => " - ",
        BinaryOp::ShiftLeft => " << ",
        BinaryOp::ShiftRight => " >> ",
        BinaryOp::Less => " < ",
        BinaryOp::More => " > ",
        BinaryOp::LessEqual => " <= ",
        BinaryOp::MoreEqual => " >= ",
        BinaryOp::Equal => " == ",
        BinaryOp::NotEqual => " != ",
        BinaryOp::BitwiseAnd => " & ",
        BinaryOp::BitwiseXor => " ^ ",
        BinaryOp::BitwiseOr => " | ",
        BinaryOp::And => "&& ",
        BinaryOp::Or => "|| ",
        BinaryOp::Assign => " = ",
        BinaryOp::AssignOr => " |= ",
        BinaryOp::AssignAnd => " &= ",
        BinaryOp::AssignXor => " ^= ",
        BinaryOp::AssignShiftLeft => " <<= ",
        BinaryOp::AssignShiftRight => " >>= ",
        BinaryOp::AssignAdd => " += ",
        BinaryOp::AssignSubtract => " -= ",
        BinaryOp::AssignMultiply => " *= ",
        BinaryOp::AssignDivide => " /= ",
        BinaryOp::AssignModulo => " %= ",
    }
}

/// Whether any call option's value is complex.
fn any_complex_option(args: &Vec<NamedArgument>) -> (b: bool)
    ensures
        b == any_complex(args@),
{
    let mut i: usize = 0;
    while i < args.len()
        invariant
            i <= args@.len(),
            forall|j: int| 0 <= j < i ==> !is_complex(#[trigger] args@[j].expr),
        decreases args@.len() - i,
    {
        if expression_is_complex(&args[i].expr) {
            return true;
        }
        i = i + 1;
    }
    false
}

/// A mapping name with its leading underscore, or `TODO` without one.
fn name_or_todo_text(n: &Option<String>) -> (r: String)
    ensures
        r@ == name_or_todo(*n),
{
    match n {
        Some(x) => {
            let mut v: Vec<char> = Vec::new();
            push_prefixed(&mut v, x.as_str());
            assert(v@ =~= prefixed_name(x@));
            string_from(v.as_slice())
        },
        None => "TODO".to_owned(),
    }
}

/// Whether `t[]` of a type is written as one piece of text.
fn is_plain_array_type(t: &SolType) -> (b: bool)
    ensures
        b == plain_array_type(*t),
{
    match t {
        SolType::Uint(_) | SolType::Int(_) | SolType::Bytes(_) | SolType::Address | SolType::Bool
        | SolType::String | SolType::DynamicBytes => true,
        _ => false,
    }
}

/// `array[index]`, given the layouts of the array and of the index: `name[]`
/// and `type[]` of an elementary type as one text, a subscript chain of
/// simple parts as one text, else the parts in a group.
fn format_array_subscript(
    array: &Expression,
    index: &Option<Box<Expression>>,
    renames: &[(String, String)],
    array_ir: IRElement,
    index_ir: Vec<IRElement>,
    Ghost(ad): Ghost<Doc>,
    Ghost(id): Ghost<Seq<Doc>>,
) -> (r: IRElement)
    requires
        doc_match(array_ir, ad),
        docs(index_ir@, id),
    ensures
        doc_match(r, subscript_doc(*array, *index, pair_views(renames@), ad, id)),
{
    let ghost rn = pair_views(renames@);
    if index.is_none() {
        match array {
            Expression::Variable(n) => {
                let mut v = chars_of(rename_lookup(renames, n.as_str()).as_str());
                push_all(&mut v, chars_of("[]").as_slice());
                return IRElement::text(string_from(v.as_slice()).as_str());
            },
            Expression::Type(t) => {
                if is_plain_array_type(t) {
                    let mut v = chars_of(format_type_to_string(t).as_str());
                    push_all(&mut v, chars_of("[]").as_slice());
                    return IRElement::text(string_from(v.as_slice()).as_str());
                } else {
                    let v = elems3(
                        array_ir,
                        IRElement::text("["),
                        IRElement::text("]"),
                        Ghost(ad),
                        Ghost(Doc::Text("["@)),
                        Ghost(Doc::Text("]"@)),
                    );
                    let ghost gd = seq![ad, Doc::Text("["@), Doc::Text("]"@)];
                    return group_of(v, Ghost(gd));
                }
            },
            _ => {},
        }
    }
    match try_collect_subscript_chain(array, index, renames) {
        Some(t) => IRElement::text(t.as_str()),
        None => {
            let mut v = elems2(array_ir, IRElement::text("["), Ghost(ad), Ghost(Doc::Text("["@)));
            let ghost pre = seq![ad, Doc::Text("["@)];
            push_block(&mut v, index_ir, Ghost(pre), Ghost(id));
            push_text(&mut v, "]", Ghost(pre + id));
            let ghost all = pre + id + seq![Doc::Text("]"@)];
            assert((pre + id).push(Doc::Text("]"@)) =~= all);
            group_of(v, Ghost(all))
        },
    }
}

/// An expression with no renames.
pub fn format_expression(expr: &Expression) -> (r: IRElement)
    requires
        expr_ok(*expr),
    ensures
        doc_match(r, expr_doc(*expr, Seq::empty())),
{
    let none: Vec<(String, String)> = Vec::new();
    assert(pair_views(none@) =~= Seq::<(Seq<char>, Seq<char>)>::empty());
    format_expression_with_renames(expr, none.as_slice())
}

/// The layout of an expression, names renamed by `renames`: operators with
/// their spaces, calls with indented arguments, equality breaking after
/// the operator and `&&`, `||` before it, paths and simple subscript
/// chains as one unbreakable text.
pub fn format_expression_with_renames(expr: &Expression, renames: &[(String, String)]) -> (r: IRElement)
    requires
        expr_ok(*expr),
    ensures
        doc_match(r, expr_doc(*expr, pair_views(renames@))),
    decreases *expr,
{
    let ghost rn = pair_views(renames@);
    match expr {
        Expression::Type(t) => format_type(t),
        Expression::Variable(n) => {
            let t = rename_lookup(renames, n.as_str());
            IRElement::text(t.as_str())
        },
        Expression::BoolLiteral(b) => IRElement::text(
            if *b {
                "true"
            } else {
                "false"
            },
        ),
        Expression::NumberLiteral { number, exponent, unit, source } => format_number_literal(
            number,
            exponent,
            unit,
            source,
        ),
        Expression::RationalNumberLiteral { integer, fraction, exponent } => format_rational_number_literal(
            integer,
            fraction,
            exponent,
        ),
        Expression::HexNumberLiteral(h) => IRElement::text(h.as_str()),
        Expression::StringLiteral(ps) => format_string_literal(ps),
        Expression::HexLiteral(ps) => format_hex_literal(ps),
        Expression::AddressLiteral(a) => IRElement::text(a.as_str()),
        Expression::ArrayLiteral(es) => {
            if es.len() == 0 {
                IRElement::text("[]")
            } else {
                let inner = format_list(es, renames);
                let mut v: Vec<IRElement> = Vec::new();
                push_text(&mut v, "[", Ghost(Seq::empty()));
                let ghost d0 = seq![Doc::Text("["@)];
                assert(Seq::<Doc>::empty().push(Doc::Text("["@)) =~= d0);
                push_block(&mut v, inner, Ghost(d0), Ghost(list_docs(es@, rn)));
                push_text(&mut v, "]", Ghost(d0 + list_docs(es@, rn)));
                let ghost all = d0 + list_docs(es@, rn) + seq![Doc::Text("]"@)];
                assert((d0 + list_docs(es@, rn)).push(Doc::Text("]"@)) =~= all);
                group_of(v, Ghost(all))
            }
        },
        Expression::List(ps) => {
            let inner = format_slots(ps, renames);
            let mut v: Vec<IRElement> = Vec::new();
            push_text(&mut v, "(", Ghost(Seq::empty()));
            let ghost d0 = seq![Doc::Text("("@)];
            assert(Seq::<Doc>::empty().push(Doc::Text("("@)) =~= d0);
            push_block(&mut v, inner, Ghost(d0), Ghost(slot_docs(ps@, rn)));
            push_text(&mut v, ")", Ghost(d0 + slot_docs(ps@, rn)));
            let ghost all = d0 + slot_docs(ps@, rn) + seq![Doc::Text(")"@)];
            assert((d0 + slot_docs(ps@, rn)).push(Doc::Text(")"@)) =~= all);
            group_of(v, Ghost(all))
        },
        Expression::ArraySubscript(a, i) => {
            let ad = format_expression_with_renames(&**a, renames);
            let mut id: Vec<IRElement> = Vec::new();
            let ghost idd: Seq<Doc> = opt_expr_docs(*i, rn);
            match i {
                Some(x) => {
                    let xd = format_expression_with_renames(&**x, renames);
                    push_doc(&mut id, xd, Ghost(Seq::empty()), Ghost(expr_doc(**x, rn)));
                    assert(Seq::<Doc>::empty().push(expr_doc(**x, rn)) =~= idd);
                },
                None => {},
            }
            format_array_subscript(&**a, i, renames, ad, id, Ghost(expr_doc(**a, rn)), Ghost(idd))
        },
        Expression::ArraySlice(a, from, to) => {
            let ad = format_expression_with_renames(&**a, renames);
            let mut v: Vec<IRElement> = Vec::new();
            push_doc(&mut v, ad, Ghost(Seq::empty()), Ghost(expr_doc(**a, rn)));
            let ghost mut ds = seq![expr_doc(**a, rn)];
            assert(Seq::<Doc>::empty().push(expr_doc(**a, rn)) =~= ds);
            push_text(&mut v, "[", Ghost(ds));
            proof {
                ds = ds.push(Doc::Text("["@));
            }
            let ghost d1 = ds;
            match from {
                Some(x) => {
                    let xd = format_expression_with_renames(&**x, renames);
                    push_doc(&mut v, xd, Ghost(ds), Ghost(expr_doc(**x, rn)));
                    proof {
                        ds = ds.push(expr_doc(**x, rn));
                    }
                },
                None => {},
            }
            let ghost fd: Seq<Doc> = opt_expr_docs(*from, rn);
            assert(ds =~= d1 + fd);
            push_text(&mut v, ":", Ghost(ds));
            proof {
                ds = ds.push(Doc::Text(":"@));
            }
            let ghost d2 = ds;
            match to {
                Some(x) => {
                    let xd = format_expression_with_renames(&**x, renames);
                    push_doc(&mut v, xd, Ghost(ds), Ghost(expr_doc(**x, rn)));
                    proof {
                        ds = ds.push(expr_doc(**x, rn));
                    }
                },
                None => {},
            }
            let ghost td: Seq<Doc> = opt_expr_docs(*to, rn);
            assert(ds =~= d2 + td);
            push_text(&mut v, "]", Ghost(ds));
            proof {
                ds = ds.push(Doc::Text("]"@));
            }
            assert(ds =~= seq![expr_doc(**a, rn), Doc::Text("["@)] + fd + seq![Doc::Text(":"@)] + td + seq![
                Doc::Text("]"@),
            ]);
            group_of(v, Ghost(ds))
        },
        Expression::MemberAccess(b, m) => {
            if is_simple_member_path(expr) {
                let t = collect_member_access_path(expr, renames);
                IRElement::text(t.as_str())
            } else {
                let bd = format_expression_with_renames(&**b, renames);
                let v = elems3(
                    bd,
                    IRElement::text("."),
                    IRElement::text(m.as_str()),
                    Ghost(expr_doc(**b, rn)),
                    Ghost(Doc::Text("."@)),
                    Ghost(Doc::Text(m@)),
                );
                let ghost gd = seq![expr_doc(**b, rn), Doc::Text("."@), Doc::Text(m@)];
                group_of(v, Ghost(gd))
            }
        },
        Expression::FunctionCall(f, args) => {
            let fd = format_expression_with_renames(&**f, renames);
            let mut v = elems2(fd, IRElement::text("("), Ghost(expr_doc(**f, rn)), Ghost(Doc::Text("("@)));
            let ghost d0 = seq![expr_doc(**f, rn), Doc::Text("("@)];
            let ghost mid: Seq<Doc> = if args.len() > 0 {
                seq![Doc::Indent(seq![Doc::Softest] + list_docs(args@, rn)), Doc::Softest]
            } else {
                Seq::empty()
            };
            if args.len() > 0 {
                let inner = format_list(args, renames);
                let mut iv: Vec<IRElement> = Vec::new();
                push_doc(&mut iv, IRElement::SoftestLineBreak, Ghost(Seq::empty()), Ghost(Doc::Softest));
                let ghost s0 = seq![Doc::Softest];
                assert(Seq::<Doc>::empty().push(Doc::Softest) =~= s0);
                push_block(&mut iv, inner, Ghost(s0), Ghost(list_docs(args@, rn)));
                let ind = indent_of(iv, Ghost(s0 + list_docs(args@, rn)));
                push_doc(&mut v, ind, Ghost(d0), Ghost(Doc::Indent(s0 + list_docs(args@, rn))));
                push_doc(
                    &mut v,
                    IRElement::SoftestLineBreak,
                    Ghost(d0.push(Doc::Indent(s0 + list_docs(args@, rn)))),
                    Ghost(Doc::Softest),
                );
                assert(d0.push(Doc::Indent(s0 + list_docs(args@, rn))).push(Doc::Softest) =~= d0 + mid);
            } else {
                assert(d0 =~= d0 + mid);
            }
            push_text(&mut v, ")", Ghost(d0 + mid));
            let ghost all = d0 + mid + seq![Doc::Text(")"@)];
            assert((d0 + mid).push(Doc::Text(")"@)) =~= all);
            group_of(v, Ghost(all))
        },
        Expression::NamedFunctionCall(f, args) => {
            let fd = format_expression_with_renames(&**f, renames);
            let mut v = elems2(fd, IRElement::text("({"), Ghost(expr_doc(**f, rn)), Ghost(Doc::Text("({"@)));
            let ghost d0 = seq![expr_doc(**f, rn), Doc::Text("({"@)];
            let inner = format_named_args(args, renames);
            let ghost nd = named_docs(args@, args@.len() as int, rn);
            push_block(&mut v, inner, Ghost(d0), Ghost(nd));
            let ghost hd: Seq<Doc> = if args.len() > 0 {
                seq![Doc::Hard]
            } else {
                Seq::empty()
            };
            if args.len() > 0 {
                push_doc(&mut v, IRElement::HardLineBreak, Ghost(d0 + nd), Ghost(Doc::Hard));
                assert((d0 + nd).push(Doc::Hard) =~= d0 + nd + hd);
            } else {
                assert(d0 + nd =~= d0 + nd + hd);
            }
            push_text(&mut v, "})", Ghost(d0 + nd + hd));
            let ghost all = d0 + nd + hd + seq![Doc::Text("})"@)];
            assert((d0 + nd + hd).push(Doc::Text("})"@)) =~= all);
            group_of(v, Ghost(all))
        },
        Expression::FunctionCallBlock(f, opts) => {
            let fd = format_expression_with_renames(&**f, renames);
            match opts {
                Some(args) => {
                    let mut v = elems2(fd, IRElement::text("{"), Ghost(expr_doc(**f, rn)), Ghost(Doc::Text("{"@)));
                    let ghost d0 = seq![expr_doc(**f, rn), Doc::Text("{"@)];
                    let hard = any_complex_option(args);
                    let ghost mid: Seq<Doc> = if args.len() > 0 {
                        seq![Doc::Indent(option_docs(args@, hard, rn)), break_doc(hard)]
                    } else {
                        Seq::empty()
                    };
                    if args.len() > 0 {
                        let inner = format_call_options(args, hard, renames);
                        let ind = indent_of(inner, Ghost(option_docs(args@, hard, rn)));
                        push_doc(&mut v, ind, Ghost(d0), Ghost(Doc::Indent(option_docs(args@, hard, rn))));
                        let brk = if hard {
                            IRElement::HardLineBreak
                        } else {
                            IRElement::SoftLineBreak
                        };
                        push_doc(
                            &mut v,
                            brk,
                            Ghost(d0.push(Doc::Indent(option_docs(args@, hard, rn)))),
                            Ghost(break_doc(hard)),
                        );
                        assert(d0.push(Doc::Indent(option_docs(args@, hard, rn))).push(break_doc(hard)) =~= d0
                            + mid);
                    } else {
                        assert(d0 =~= d0 + mid);
                    }
                    push_text(&mut v, "}", Ghost(d0 + mid));
                    let ghost all = d0 + mid + seq![Doc::Text("}"@)];
                    assert((d0 + mid).push(Doc::Text("}"@)) =~= all);
                    group_of(v, Ghost(all))
                },
                None => {
                    let v = elems3(
                        fd,
                        IRElement::text("{"),
                        IRElement::text(" /* block */ }"),
                        Ghost(expr_doc(**f, rn)),
                        Ghost(Doc::Text("{"@)),
                        Ghost(Doc::Text(" /* block */ }"@)),
                    );
                    let ghost gd = seq![expr_doc(**f, rn), Doc::Text("{"@), Doc::Text(" /* block */ }"@)];
                    group_of(v, Ghost(gd))
                },
            }
        },
        Expression::Unary(op, x) => {
            let xd = format_expression_with_renames(&**x, renames);
            let t = IRElement::text(unary_str(*op));
            match op {
                UnaryOp::PostIncrement | UnaryOp::PostDecrement => {
                    let v = elems2(xd, t, Ghost(expr_doc(**x, rn)), Ghost(Doc::Text(unary_text(*op))));
                    let ghost gd = seq![expr_doc(**x, rn), Doc::Text(unary_text(*op))];
                    group_of(v, Ghost(gd))
                },
                _ => {
                    let v = elems2(t, xd, Ghost(Doc::Text(unary_text(*op))), Ghost(expr_doc(**x, rn)));
                    let ghost gd = seq![Doc::Text(unary_text(*op)), expr_doc(**x, rn)];
                    group_of(v, Ghost(gd))
                },
            }
        },
        Expression::Binary(op, l, r) => {
            let ld = format_expression_with_renames(&**l, renames);
            let rd = format_expression_with_renames(&**r, renames);
            let t = IRElement::text(binary_str(*op));
            let ghost dl = expr_doc(**l, rn);
            let ghost dr = expr_doc(**r, rn);
            let ghost dt = Doc::Text(binary_text(*op));
            match op {
                BinaryOp::Equal | BinaryOp::NotEqual => {
                    let v = elems4(ld, t, IRElement::SoftestLineBreak, rd, Ghost(dl), Ghost(dt), Ghost(Doc::Softest), Ghost(dr));
                    let ghost gd = seq![dl, dt, Doc::Softest, dr];
                    group_of(v, Ghost(gd))
                },
                BinaryOp::And | BinaryOp::Or => {
                    let v = elems4(ld, IRElement::SoftLineBreak, t, rd, Ghost(dl), Ghost(Doc::Soft), Ghost(dt), Ghost(dr));
                    let ghost gd = seq![dl, Doc::Soft, dt, dr];
                    group_of(v, Ghost(gd))
                },
                _ => {
                    let v = elems3(ld, t, rd, Ghost(dl), Ghost(dt), Ghost(dr));
                    let ghost gd = seq![dl, dt, dr];
                    group_of(v, Ghost(gd))
                },
            }
        },
        Expression::ConditionalOperator(c, t, f) => {
            let cd = format_expression_with_renames(&**c, renames);
            let td = format_expression_with_renames(&**t, renames);
            let fd = format_expression_with_renames(&**f, renames);
            let mut v = elems4(
                cd,
                IRElement::text(" ? "),
                td,
                IRElement::text(" : "),
                Ghost(expr_doc(**c, rn)),
                Ghost(Doc::Text(" ? "@)),
                Ghost(expr_doc(**t, rn)),
                Ghost(Doc::Text(" : "@)),
            );
            let ghost d4 = seq![expr_doc(**c, rn), Doc::Text(" ? "@), expr_doc(**t, rn), Doc::Text(" : "@)];
            push_doc(&mut v, fd, Ghost(d4), Ghost(expr_doc(**f, rn)));
            let ghost gd = seq![
                expr_doc(**c, rn),
                Doc::Text(" ? "@),
                expr_doc(**t, rn),
                Doc::Text(" : "@),
                expr_doc(**f, rn),
            ];
            assert(d4.push(expr_doc(**f, rn)) =~= gd);
            group_of(v, Ghost(gd))
        },
        Expression::Parenthesis(x) => {
            let xd = format_expression_with_renames(&**x, renames);
            let iv = elems2(IRElement::SoftestLineBreak, xd, Ghost(Doc::Softest), Ghost(expr_doc(**x, rn)));
            let ghost id = seq![Doc::Softest, expr_doc(**x, rn)];
            let ind = indent_of(iv, Ghost(id));
            let v = elems4(
                IRElement::text("("),
                ind,
                IRElement::SoftestLineBreak,
                IRElement::text(")"),
                Ghost(Doc::Text("("@)),
                Ghost(Doc::Indent(id)),
                Ghost(Doc::Softest),
                Ghost(Doc::Text(")"@)),
            );
            let ghost gd = seq![Doc::Text("("@), Doc::Indent(id), Doc::Softest, Doc::Text(")"@)];
            group_of(v, Ghost(gd))
        },
    }
}

/// Expressions separated by `,` and a soft break.
fn format_list(es: &Vec<Expression>, renames: &[(String, String)]) -> (r: Vec<IRElement>)
    requires
        forall|i: int| 0 <= i < es@.len() ==> expr_ok(#[trigger] es@[i]),
    ensures
        docs(r@, list_docs(es@, pair_views(renames@))),
    decreases es@,
{
    let ghost rn = pair_views(renames@);
    let mut v: Vec<IRElement> = Vec::new();
    let mut i: usize = 0;
    assert(es@.take(0) =~= Seq::<Expression>::empty());
    while i < es.len()
        invariant
            i <= es@.len(),
            rn == pair_views(renames@),
            forall|j: int| 0 <= j < es@.len() ==> expr_ok(#[trigger] es@[j]),
            docs(v@, list_docs(es@.take(i as int), rn)),
        decreases es@.len() - i,
    {
        let ghost pre = list_docs(es@.take(i as int), rn);
        assert(es@.take(i + 1).drop_last() =~= es@.take(i as int));
        assert(es@.take(i + 1).last() == es@[i as int]);
        let ghost sep: Seq<Doc> = if i + 1 > 1 {
            seq![Doc::Text(","@), Doc::Soft]
        } else {
            Seq::empty()
        };
        if i > 0 {
            push_text(&mut v, ",", Ghost(pre));
            push_doc(&mut v, IRElement::SoftLineBreak, Ghost(pre.push(Doc::Text(","@))), Ghost(Doc::Soft));
            assert(pre.push(Doc::Text(","@)).push(Doc::Soft) =~= pre + sep);
        } else {
            assert(pre =~= pre + sep);
        }
        let x = format_expression_with_renames(&es[i], renames);
        push_doc(&mut v, x, Ghost(pre + sep), Ghost(expr_doc(es@[i as int], rn)));
        assert((pre + sep).push(expr_doc(es@[i as int], rn)) =~= list_docs(es@.take(i + 1), rn));
        i = i + 1;
    }
    assert(es@.take(i as int) =~= es@);
    v
}

/// Appends ` location` when a data location is written.
pub(crate) fn push_storage(v: &mut Vec<IRElement>, storage: &Option<StorageLocation>, Ghost(ds): Ghost<Seq<Doc>>)
    requires
        docs(old(v)@, ds),
    ensures
        docs(final(v)@, ds + storage_docs(*storage)),
{
    match storage {
        Some(l) => {
            push_text(v, " ", Ghost(ds));
            let sd = format_storage_location(l);
            push_doc(v, sd, Ghost(ds.push(Doc::Text(" "@))), Ghost(Doc::Text(storage_text(*l))));
            assert(ds.push(Doc::Text(" "@)).push(Doc::Text(storage_text(*l))) =~= ds + storage_docs(*storage));
        },
        None => {
            assert(ds =~= ds + storage_docs(*storage));
        },
    }
}

/// The slots of a parenthesised list separated by `,` and a soft break.
fn format_slots(ps: &Vec<Option<TypedParameter>>, renames: &[(String, String)]) -> (r: Vec<IRElement>)
    requires
        forall|i: int| 0 <= i < ps@.len() ==> (#[trigger] ps@[i] matches Some(p) ==> expr_ok(p.ty)),
    ensures
        docs(r@, slot_docs(ps@, pair_views(renames@))),
    decreases ps@,
{
    let ghost rn = pair_views(renames@);
    let mut v: Vec<IRElement> = Vec::new();
    let mut i: usize = 0;
    assert(ps@.take(0) =~= Seq::<Option<TypedParameter>>::empty());
    while i < ps.len()
        invariant
            i <= ps@.len(),
            rn == pair_views(renames@),
            forall|j: int| 0 <= j < ps@.len() ==> (#[trigger] ps@[j] matches Some(p) ==> expr_ok(p.ty)),
            docs(v@, slot_docs(ps@.take(i as int), rn)),
        decreases ps@.len() - i,
    {
        let ghost pre = slot_docs(ps@.take(i as int), rn);
        assert(ps@.take(i + 1).drop_last() =~= ps@.take(i as int));
        assert(ps@.take(i + 1).last() == ps@[i as int]);
        let ghost sep: Seq<Doc> = if i + 1 > 1 {
            seq![Doc::Text(","@), Doc::Soft]
        } else {
            Seq::empty()
        };
        if i > 0 {
            push_text(&mut v, ",", Ghost(pre));
            push_doc(&mut v, IRElement::SoftLineBreak, Ghost(pre.push(Doc::Text(","@))), Ghost(Doc::Soft));
            assert(pre.push(Doc::Text(","@)).push(Doc::Soft) =~= pre + sep);
        } else {
            assert(pre =~= pre + sep);
        }
        let ghost el: Seq<Doc> = match ps@[i as int] {
            Some(p) => seq![expr_doc(p.ty, rn)] + storage_docs(p.storage) + match p.name {
                Some(n) => seq![Doc::Text(" "@), Doc::Text(normalized_name(n@))],
                None => Seq::empty(),
            },
            None => Seq::empty(),
        };
        match &ps[i] {
            Some(p) => {
                let td = format_expression_with_renames(&p.ty, renames);
                push_doc(&mut v, td, Ghost(pre + sep), Ghost(expr_doc(p.ty, rn)));
                let ghost d1 = (pre + sep).push(expr_doc(p.ty, rn));
                push_storage(&mut v, &p.storage, Ghost(d1));
                let ghost d2 = d1 + storage_docs(p.storage);
                match &p.name {
                    Some(n) => {
                        push_text(&mut v, " ", Ghost(d2));
                        let nn = normalize_param_name(n.as_str());
                        push_text(&mut v, nn.as_str(), Ghost(d2.push(Doc::Text(" "@))));
                        assert(d2.push(Doc::Text(" "@)).push(Doc::Text(normalized_name(n@))) =~= pre + sep + el);
                    },
                    None => {
                        assert(d2 =~= pre + sep + el);
                    },
                }
            },
            None => {
                assert(pre + sep =~= pre + sep + el);
            },
        }
        assert(pre + sep + el =~= slot_docs(ps@.take(i + 1), rn));
        i = i + 1;
    }
    assert(ps@.take(i as int) =~= ps@);
    v
}

/// Named arguments, each on its own indented line, all but the last
/// followed by a comma.
fn format_named_args(args: &Vec<NamedArgument>, renames: &[(String, String)]) -> (r: Vec<IRElement>)
    requires
        forall|i: int| 0 <= i < args@.len() ==> expr_ok(#[trigger] args@[i].expr),
    ensures
        docs(r@, named_docs(args@, args@.len() as int, pair_views(renames@))),
    decreases args@,
{
    let ghost rn = pair_views(renames@);
    let ghost total = args@.len() as int;
    let mut v: Vec<IRElement> = Vec::new();
    let mut i: usize = 0;
    assert(args@.take(0) =~= Seq::<NamedArgument>::empty());
    while i < args.len()
        invariant
            i <= args@.len(),
            rn == pair_views(renames@),
            total == args@.len(),
            forall|j: int| 0 <= j < args@.len() ==> expr_ok(#[trigger] args@[j].expr),
            docs(v@, named_docs(args@.take(i as int), total, rn)),
        decreases args@.len() - i,
    {
        let ghost pre = named_docs(args@.take(i as int), total, rn);
        assert(args@.take(i + 1).drop_last() =~= args@.take(i as int));
        assert(args@.take(i + 1).last() == args@[i as int]);
        push_doc(&mut v, IRElement::HardLineBreak, Ghost(pre), Ghost(Doc::Hard));
        let xd = format_expression_with_renames(&args[i].expr, renames);
        let last = i + 1 == args.len();
        let comma = IRElement::text(
            if last {
                ""
            } else {
                ","
            },
        );
        let ghost cd = Doc::Text(
            if (i + 1) - 1 < total - 1 {
                ","@
            } else {
                ""@
            },
        );
        let iv = elems4(
            IRElement::text(args[i].name.as_str()),
            IRElement::text(": "),
            xd,
            comma,
            Ghost(Doc::Text(args@[i as int].name@)),
            Ghost(Doc::Text(": "@)),
            Ghost(expr_doc(args@[i as int].expr, rn)),
            Ghost(cd),
        );
        let ghost idd = seq![
            Doc::Text(args@[i as int].name@),
            Doc::Text(": "@),
            expr_doc(args@[i as int].expr, rn),
            cd,
        ];
        let ind = indent_of(iv, Ghost(idd));
        push_doc(&mut v, ind, Ghost(pre.push(Doc::Hard)), Ghost(Doc::Indent(idd)));
        assert(pre.push(Doc::Hard).push(Doc::Indent(idd)) =~= named_docs(args@.take(i + 1), total, rn));
        i = i + 1;
    }
    assert(args@.take(i as int) =~= args@);
    v
}

/// Call options, each after a comma (but the first) and a hard break when
/// `hard`, else a soft one.
fn format_call_options(args: &Vec<NamedArgument>, hard: bool, renames: &[(String, String)]) -> (r: Vec<IRElement>)
    requires
        forall|i: int| 0 <= i < args@.len() ==> expr_ok(#[trigger] args@[i].expr),
    ensures
        docs(r@, option_docs(args@, hard, pair_views(renames@))),
    decreases args@,
{
    let ghost rn = pair_views(renames@);
    let mut v: Vec<IRElement> = Vec::new();
    let mut i: usize = 0;
    assert(args@.take(0) =~= Seq::<NamedArgument>::empty());
    while i < args.len()
        invariant
            i <= args@.len(),
            rn == pair_views(renames@),
            forall|j: int| 0 <= j < args@.len() ==> expr_ok(#[trigger] args@[j].expr),
            docs(v@, option_docs(args@.take(i as int), hard, rn)),
        decreases args@.len() - i,
    {
        let ghost pre = option_docs(args@.take(i as int), hard, rn);
        assert(args@.take(i + 1).drop_last() =~= args@.take(i as int));
        assert(args@.take(i + 1).last() == args@[i as int]);
        let ghost sep: Seq<Doc> = if i + 1 > 1 {
            seq![Doc::Text(","@)]
        } else {
            Seq::empty()
        };
        if i > 0 {
            push_text(&mut v, ",", Ghost(pre));
            assert(pre.push(Doc::Text(","@)) =~= pre + sep);
        } else {
            assert(pre =~= pre + sep);
        }
        let brk = if hard {
            IRElement::HardLineBreak
        } else {
            IRElement::SoftLineBreak
        };
        let xd = format_expression_with_renames(&args[i].expr, renames);
        let ev = elems4(
            brk,
            IRElement::text(args[i].name.as_str()),
            IRElement::text(": "),
            xd,
            Ghost(break_doc(hard)),
            Ghost(Doc::Text(args@[i as int].name@)),
            Ghost(Doc::Text(": "@)),
            Ghost(expr_doc(args@[i as int].expr, rn)),
        );
        let ghost ed = seq![
            break_doc(hard),
            Doc::Text(args@[i as int].name@),
            Doc::Text(": "@),
            expr_doc(args@[i as int].expr, rn),
        ];
        push_block(&mut v, ev, Ghost(pre + sep), Ghost(ed));
        assert(pre + sep + ed =~= option_docs(args@.take(i + 1), hard, rn));
        i = i + 1;
    }
    assert(args@.take(i as int) =~= args@);
    v
}

/// The layout of a type: a mapping over indented lines with its key and
/// value named (`TODO` where a name is missing, none after a nested
/// mapping), a function type in one group, else the type's text.
pub fn format_type(ty: &SolType) -> (r: IRElement)
    requires
        type_ok(*ty),
    ensures
        doc_match(r, type_doc(*ty)),
    decreases *ty,
{
    match ty {
        SolType::Mapping { key, key_name, value, value_name } => {
            let none: Vec<(String, String)> = Vec::new();
            assert(pair_views(none@) =~= Seq::<(Seq<char>, Seq<char>)>::empty());
            let kd = format_expression_with_renames(&**key, none.as_slice());
            let vd = format_expression_with_renames(&**value, none.as_slice());
            let kn = name_or_todo_text(key_name);
            let mut iv = elems4(
                IRElement::HardLineBreak,
                kd,
                IRElement::text(" "),
                IRElement::text(kn.as_str()),
                Ghost(Doc::Hard),
                Ghost(expr_doc(**key, Seq::empty())),
                Ghost(Doc::Text(" "@)),
                Ghost(Doc::Text(name_or_todo(*key_name))),
            );
            let ghost d4 = seq![
                Doc::Hard,
                expr_doc(**key, Seq::empty()),
                Doc::Text(" "@),
                Doc::Text(name_or_todo(*key_name)),
            ];
            push_text(&mut iv, " => ", Ghost(d4));
            push_doc(&mut iv, vd, Ghost(d4.push(Doc::Text(" => "@))), Ghost(expr_doc(**value, Seq::empty())));
            let ghost d6 = d4.push(Doc::Text(" => "@)).push(expr_doc(**value, Seq::empty()));
            let nested = match &**value {
                Expression::Type(SolType::Mapping { .. }) => true,
                _ => false,
            };
            let ghost tail: Seq<Doc> = if is_mapping(**value) {
                Seq::empty()
            } else {
                seq![Doc::Text(" "@), Doc::Text(name_or_todo(*value_name))]
            };
            if !nested {
                let vn = name_or_todo_text(value_name);
                push_text(&mut iv, " ", Ghost(d6));
                push_text(&mut iv, vn.as_str(), Ghost(d6.push(Doc::Text(" "@))));
                assert(d6.push(Doc::Text(" "@)).push(Doc::Text(name_or_todo(*value_name))) =~= d6 + tail);
            } else {
                assert(d6 =~= d6 + tail);
            }
            let ghost inner = seq![
                Doc::Hard,
                expr_doc(**key, Seq::empty()),
                Doc::Text(" "@),
                Doc::Text(name_or_todo(*key_name)),
                Doc::Text(" => "@),
                expr_doc(**value, Seq::empty()),
            ] + tail;
            assert(d6 + tail =~= inner);
            let ind = indent_of(iv, Ghost(inner));
            let v = elems4(
                IRElement::text("mapping ("),
                ind,
                IRElement::HardLineBreak,
                IRElement::text(")"),
                Ghost(Doc::Text("mapping ("@)),
                Ghost(Doc::Indent(inner)),
                Ghost(Doc::Hard),
                Ghost(Doc::Text(")"@)),
            );
            let ghost gd = seq![Doc::Text("mapping ("@), Doc::Indent(inner), Doc::Hard, Doc::Text(")"@)];
            group_of(v, Ghost(gd))
        },
        SolType::Function { params, attributes, outputs } => {
            let mut v: Vec<IRElement> = Vec::new();
            push_text(&mut v, "function(", Ghost(Seq::empty()));
            let ghost d0 = seq![Doc::Text("function("@)];
            assert(Seq::<Doc>::empty().push(Doc::Text("function("@)) =~= d0);
            let pv = format_fn_params(params);
            push_block(&mut v, pv, Ghost(d0), Ghost(fn_params_docs(params@)));
            let ghost d1 = d0 + fn_params_docs(params@);
            push_text(&mut v, ")", Ghost(d1));
            let ghost d2 = d1.push(Doc::Text(")"@));
            let av = format_attrs(attributes);
            push_block(&mut v, av, Ghost(d2), Ghost(attrs_docs(attributes@)));
            let ghost d3 = d2 + attrs_docs(attributes@);
            let ghost od: Seq<Doc> = if outputs.len() > 0 {
                seq![Doc::Text(" returns ("@)] + fn_params_docs(outputs@) + seq![Doc::Text(")"@)]
            } else {
                Seq::empty()
            };
            if outputs.len() > 0 {
                push_text(&mut v, " returns (", Ghost(d3));
                let ov = format_fn_params(outputs);
                push_block(&mut v, ov, Ghost(d3.push(Doc::Text(" returns ("@))), Ghost(fn_params_docs(outputs@)));
                push_text(&mut v, ")", Ghost(d3.push(Doc::Text(" returns ("@)) + fn_params_docs(outputs@)));
                assert((d3.push(Doc::Text(" returns ("@)) + fn_params_docs(outputs@)).push(Doc::Text(")"@)) =~= d3
                    + od);
            } else {
                assert(d3 =~= d3 + od);
            }
            let ghost all = seq![Doc::Text("function("@)] + fn_params_docs(params@) + seq![Doc::Text(")"@)]
                + attrs_docs(attributes@) + od;
            assert(d3 + od =~= all);
            group_of(v, Ghost(all))
        },
        _ => {
            let t = format_type_to_string(ty);
            IRElement::text(t.as_str())
        },
    }
}

/// The parameters of a function type separated by `, `.
pub(crate) fn format_fn_params(ps: &Vec<Option<TypedParameter>>) -> (r: Vec<IRElement>)
    requires
        forall|i: int| 0 <= i < ps@.len() ==> (#[trigger] ps@[i] matches Some(p) ==> expr_ok(p.ty)),
    ensures
        docs(r@, fn_params_docs(ps@)),
    decreases ps@,
{
    let mut v: Vec<IRElement> = Vec::new();
    let mut i: usize = 0;
    assert(ps@.take(0) =~= Seq::<Option<TypedParameter>>::empty());
    while i < ps.len()
        invariant
            i <= ps@.len(),
            forall|j: int| 0 <= j < ps@.len() ==> (#[trigger] ps@[j] matches Some(p) ==> expr_ok(p.ty)),
            docs(v@, fn_params_docs(ps@.take(i as int))),
        decreases ps@.len() - i,
    {
        let ghost pre = fn_params_docs(ps@.take(i as int));
        assert(ps@.take(i + 1).drop_last() =~= ps@.take(i as int));
        assert(ps@.take(i + 1).last() == ps@[i as int]);
        let ghost sep: Seq<Doc> = if i + 1 > 1 {
            seq![Doc::Text(", "@)]
        } else {
            Seq::empty()
        };
        if i > 0 {
            push_text(&mut v, ", ", Ghost(pre));
            assert(pre.push(Doc::Text(", "@)) =~= pre + sep);
        } else {
            assert(pre =~= pre + sep);
        }
        let ghost el: Seq<Doc> = match ps@[i as int] {
            Some(p) => param_docs(p, true, false),
            None => Seq::empty(),
        };
        match &ps[i] {
            Some(p) => {
                let pd = format_parameter_with_options(p, true, false);
                push_block(&mut v, pd, Ghost(pre + sep), Ghost(el));
            },
            None => {
                assert(pre + sep =~= pre + sep + el);
            },
        }
        assert(pre + sep + el =~= fn_params_docs(ps@.take(i + 1)));
        i = i + 1;
    }
    assert(ps@.take(i as int) =~= ps@);
    v
}

/// A parameter: its type, its data location and its name, the name given
/// a leading underscore when `normalize` and left out when `strip_name`.
pub fn format_parameter_with_options(param: &TypedParameter, normalize: bool, strip_name: bool) -> (r: Vec<IRElement>)
    requires
        expr_ok(param.ty),
    ensures
        docs(r@, param_docs(*param, normalize, strip_name)),
    decreases *param,
{
    let none: Vec<(String, String)> = Vec::new();
    assert(pair_views(none@) =~= Seq::<(Seq<char>, Seq<char>)>::empty());
    let td = format_expression_with_renames(&param.ty, none.as_slice());
    let mut v: Vec<IRElement> = Vec::new();
    push_doc(&mut v, td, Ghost(Seq::empty()), Ghost(expr_doc(param.ty, Seq::empty())));
    let ghost d0 = seq![expr_doc(param.ty, Seq::empty())];
    assert(Seq::<Doc>::empty().push(expr_doc(param.ty, Seq::empty())) =~= d0);
    push_storage(&mut v, &param.storage, Ghost(d0));
    let ghost d1 = d0 + storage_docs(param.storage);
    let ghost nd: Seq<Doc> = param_name_docs(param.name, normalize, strip_name);
    if !strip_name {
        match &param.name {
            Some(n) => {
                push_text(&mut v, " ", Ghost(d1));
                if normalize {
                    let nn = normalize_param_name(n.as_str());
                    push_text(&mut v, nn.as_str(), Ghost(d1.push(Doc::Text(" "@))));
                } else {
                    push_text(&mut v, n.as_str(), Ghost(d1.push(Doc::Text(" "@))));
                }
                assert(d1.push(Doc::Text(" "@)).push(nd[1]) =~= d1 + nd);
            },
            None => {
                assert(d1 =~= d1 + nd);
            },
        }
    } else {
        assert(d1 =~= d1 + nd);
    }
    v
}

/// A parameter with its name given a leading underscore.
pub fn format_parameter(param: &TypedParameter) -> (r: Vec<IRElement>)
    requires
        expr_ok(param.ty),
    ensures
        docs(r@, param_docs(*param, true, false)),
{
    format_parameter_with_options(param, true, false)
}

/// The attributes of a function type, each after a space.
fn format_attrs(attrs: &Vec<FunctionAttribute>) -> (r: Vec<IRElement>)
    requires
        forall|i: int|
            0 <= i < attrs@.len() ==> (#[trigger] attrs@[i] matches FunctionAttribute::BaseOrModifier(_, Some(args))
                ==> forall|j: int| 0 <= j < args@.len() ==> expr_ok(#[trigger] args@[j])),
    ensures
        docs(r@, attrs_docs(attrs@)),
    decreases attrs@,
{
    let mut v: Vec<IRElement> = Vec::new();
    let mut i: usize = 0;
    assert(attrs@.take(0) =~= Seq::<FunctionAttribute>::empty());
    while i < attrs.len()
        invariant
            i <= attrs@.len(),
            forall|k: int|
                0 <= k < attrs@.len() ==> (#[trigger] attrs@[k] matches FunctionAttribute::BaseOrModifier(
                    _,
                    Some(args),
                ) ==> forall|j: int| 0 <= j < args@.len() ==> expr_ok(#[trigger] args@[j])),
            docs(v@, attrs_docs(attrs@.take(i as int))),
        decreases attrs@.len() - i,
    {
        let ghost pre = attrs_docs(attrs@.take(i as int));
        assert(attrs@.take(i + 1).drop_last() =~= attrs@.take(i as int));
        assert(attrs@.take(i + 1).last() == attrs@[i as int]);
        push_text(&mut v, " ", Ghost(pre));
        let ad = format_function_attribute(&attrs[i]);
        push_doc(&mut v, ad, Ghost(pre.push(Doc::Text(" "@))), Ghost(attr_doc(attrs@[i as int])));
        assert(pre.push(Doc::Text(" "@)).push(attr_doc(attrs@[i as int])) =~= attrs_docs(attrs@.take(i + 1)));
        i = i + 1;
    }
    assert(attrs@.take(i as int) =~= attrs@);
    v
}

/// A function attribute: visibility, mutability, a keyword, or a base or
/// modifier with its arguments.
pub fn format_function_attribute(attr: &FunctionAttribute) -> (r: IRElement)
    requires
        attr matches FunctionAttribute::BaseOrModifier(_, Some(args)) ==> forall|j: int|
            0 <= j < args@.len() ==> expr_ok(#[trigger] args@[j]),
    ensures
        doc_match(r, attr_doc(*attr)),
    decreases *attr,
{
    match attr {
        FunctionAttribute::Visibility(vis) => format_visibility(vis),
        FunctionAttribute::Mutability(m) => format_mutability(m),
        FunctionAttribute::Virtual => IRElement::text("virtual"),
        FunctionAttribute::Immutable => IRElement::text("immutable"),
        FunctionAttribute::Override(_) => IRElement::text("override"),
        FunctionAttribute::BaseOrModifier(path, args) => {
            let name = crate::ir_builder::ordering::format_identifier_path(path);
            let mut v: Vec<IRElement> = Vec::new();
            push_text(&mut v, name.as_str(), Ghost(Seq::empty()));
            let ghost d0 = seq![Doc::Text(identifier_path_text(*path))];
            assert(Seq::<Doc>::empty().push(Doc::Text(identifier_path_text(*path))) =~= d0);
            let ghost ad: Seq<Doc> = modifier_args_docs(*args);
            match args {
                Some(xs) => {
                    push_text(&mut v, "(", Ghost(d0));
                    let cv = format_comma_args(xs);
                    push_block(&mut v, cv, Ghost(d0.push(Doc::Text("("@))), Ghost(comma_docs(xs@)));
                    push_text(&mut v, ")", Ghost(d0.push(Doc::Text("("@)) + comma_docs(xs@)));
                    assert((d0.push(Doc::Text("("@)) + comma_docs(xs@)).push(Doc::Text(")"@)) =~= d0 + ad);
                },
                None => {
                    assert(d0 =~= d0 + ad);
                },
            }
            group_of(v, Ghost(d0 + ad))
        },
        FunctionAttribute::Error => IRElement::text("/* error */"),
    }
}

/// Expressions separated by `, `, names not renamed.
fn format_comma_args(args: &Vec<Expression>) -> (r: Vec<IRElement>)
    requires
        forall|j: int| 0 <= j < args@.len() ==> expr_ok(#[trigger] args@[j]),
    ensures
        docs(r@, comma_docs(args@)),
    decreases args@,
{
    let none: Vec<(String, String)> = Vec::new();
    assert(pair_views(none@) =~= Seq::<(Seq<char>, Seq<char>)>::empty());
    let mut v: Vec<IRElement> = Vec::new();
    let mut i: usize = 0;
    assert(args@.take(0) =~= Seq::<Expression>::empty());
    while i < args.len()
        invariant
            i <= args@.len(),
            pair_views(none@) == Seq::<(Seq<char>, Seq<char>)>::empty(),
            forall|j: int| 0 <= j < args@.len() ==> expr_ok(#[trigger] args@[j]),
            docs(v@, comma_docs(args@.take(i as int))),
        decreases args@.len() - i,
    {
        let ghost pre = comma_docs(args@.take(i as int));
        assert(args@.take(i + 1).drop_last() =~= args@.take(i as int));
        assert(args@.take(i + 1).last() == args@[i as int]);
        let ghost sep: Seq<Doc> = if i + 1 > 1 {
            seq![Doc::Text(", "@)]
        } else {
            Seq::empty()
        };
        if i > 0 {
            push_text(&mut v, ", ", Ghost(pre));
            assert(pre.push(Doc::Text(", "@)) =~= pre + sep);
        } else {
            assert(pre =~= pre + sep);
        }
        let x = format_expression_with_renames(&args[i], none.as_slice());
        push_doc(&mut v, x, Ghost(pre + sep), Ghost(expr_doc(args@[i as int], Seq::empty())));
        assert((pre + sep).push(expr_doc(args@[i as int], Seq::empty())) =~= comma_docs(args@.take(i + 1)));
        i = i + 1;
    }
    assert(args@.take(i as int) =~= args@);
    v
}

/// The output-variable name for a return variable: one trailing underscore
/// removed, `Output` appended, then normalized (`value_` → `_valueOutput`).
pub open spec fn output_var_name(n: Seq<char>) -> Seq<char> {
    normalized_name(strip_suffix_or_keep(n, seq!['_']) + "Output"@)
}

/// The output-variable name for a return variable.
pub fn transform_return_var_name(name: &str) -> (r: String)
    ensures
        r@ == output_var_name(name@),
{
    let cs = chars_of(name);
    let underscore: Vec<char> = vec!['_'];
    assert(underscore@ =~= seq!['_']);
    let mut base = strip_suffix_chars(cs.as_slice(), underscore.as_slice());
    push_all(&mut base, chars_of("Output").as_slice());
    let joined = string_from(base.as_slice());
    normalize_param_name(joined.as_str())
}

/// The renames of a parameter list: each named parameter without a leading
/// underscore maps to its normalized name; a name is listed once.
pub open spec fn rename_pairs(names: Seq<Option<String>>) -> Seq<(Seq<char>, Seq<char>)>
    decreases names.len(),
{
    if names.len() == 0 {
        Seq::empty()
    } else {
        let pre = rename_pairs(names.drop_last());
        match names.last() {
            Some(n) => if normalized_name(n@) != n@ && !(exists|k: int|
                0 <= k < pre.len() && #[trigger] pre[k].0 == n@) {
                pre.push((n@, normalized_name(n@)))
            } else {
                pre
            },
            None => pre,
        }
    }
}

/// The views of rename pairs.
pub open spec fn pair_views(v: Seq<(String, String)>) -> Seq<(Seq<char>, Seq<char>)> {
    v.map_values(|p: (String, String)| (p.0@, p.1@))
}

/// Builds the parameter rename map (original name to normalized name) for
/// the names of a parameter list, as pairs in order of first appearance.
pub fn build_param_rename_map(params: &[Option<String>]) -> (r: Vec<(String, String)>)
    ensures
        pair_views(r@) == rename_pairs(params@),
{
    let mut r: Vec<(String, String)> = Vec::new();
    let mut i: usize = 0;
    while i < params.len()
        invariant
            i <= params@.len(),
            pair_views(r@) == rename_pairs(params@.take(i as int)),
        decreases params@.len() - i,
    {
        assert(params@.take(i + 1).drop_last() =~= params@.take(i as int));
        assert(params@.take(i + 1).last() == params@[i as int]);
        match &params[i] {
            Some(n) => {
                let normalized = normalize_param_name(n.as_str());
                let same = crate::text::chars_equal(
                    chars_of(normalized.as_str()).as_slice(),
                    chars_of(n.as_str()).as_slice(),
                );
                if !same {
                    let ghost pv = pair_views(r@);
                    let mut found = false;
                    let mut j: usize = 0;
                    while j < r.len()
                        invariant
                            j <= r@.len(),
                            pv == pair_views(r@),
                            found <==> exists|k: int| 0 <= k < j && #[trigger] pv[k].0 == n@,
                        decreases r@.len() - j,
                    {
                        assert(pv[j as int].0 == r@[j as int].0@);
                        if crate::text::chars_equal(
                            chars_of(r[j].0.as_str()).as_slice(),
                            chars_of(n.as_str()).as_slice(),
                        ) {
                            found = true;
                        }
                        j = j + 1;
                    }
                    if !found {
                        let ghost nv = (n@, normalized@);
                        r.push((n.clone(), normalized));
                        assert(pair_views(r@) =~= pv.push(nv));
                    }
                }
            },
            None => {},
        }
        i = i + 1;
    }
    assert(params@.take(i as int) =~= params@);
    r
}

/// The operator between the operands of `l op r`: its Solidity spelling
/// with a space on each side, or, for `&&` and `||` (whose line may break
/// before them), followed by a space.
pub open spec fn spaced_token(op: BinaryOp) -> Seq<char> {
    if op is And || op is Or {
        binary_token(op) + " "@
    } else {
        " "@ + binary_token(op) + " "@
    }
}

/// Each binary operator is written with the spelling the source has for it.
proof fn lemma_binary_text_spelled(op: BinaryOp)
    ensures
        binary_text(op) == spaced_token(op),
{
    match op {
        BinaryOp::Power => {
            reveal_strlit("**");
            reveal_strlit(" ");
            reveal_strlit(" ** ");
            assert(" ** "@ =~= " "@ + "**"@ + " "@);
        },
        BinaryOp::Multiply => {
            reveal_strlit("*");
            reveal_strlit(" ");
            reveal_strlit(" * ");
            assert(" * "@ =~= " "@ + "*"@ + " "@);
        },
        BinaryOp::Divide => {
            reveal_strlit("/");
            reveal_strlit(" ");
            reveal_strlit(" / ");
            assert(" / "@ =~= " "@ + "/"@ + " "@);
        },
        BinaryOp::Modulo => {
            reveal_strlit("%");
            reveal_strlit(" ");
            reveal_strlit(" % ");
            assert(" % "@ =~= " "@ + "%"@ + " "@);
        },
        BinaryOp::Add => {
            reveal_strlit("+");
            reveal_strlit(" ");
            reveal_strlit(" + ");
            assert(" + "@ =~= " "@ + "+"@ + " "@);
        },
        BinaryOp::Subtract => {
            reveal_strlit("-");
            reveal_strlit(" ");
            reveal_strlit(" - ");
            assert(" - "@ =~= " "@ + "-"@ + " "@);
        },
        BinaryOp::ShiftLeft => {
            reveal_strlit("<<");
            reveal_strlit(" ");
            reveal_strlit(" << ");
            assert(" << "@ =~= " "@ + "<<"@ + " "@);
        },
        BinaryOp::ShiftRight => {
            reveal_strlit(">>");
            reveal_strlit(" ");
            reveal_strlit(" >> ");
            assert(" >> "@ =~= " "@ + ">>"@ + " "@);
        },
        BinaryOp::Less => {
            reveal_strlit("<");
            reveal_strlit(" ");
            reveal_strlit(" < ");
            assert(" < "@ =~= " "@ + "<"@ + " "@);
        },
        BinaryOp::More => {
            reveal_strlit(">");
            reveal_strlit(" ");
            reveal_strlit(" > ");
            assert(" > "@ =~= " "@ + ">"@ + " "@);
        },
        BinaryOp::LessEqual => {
            reveal_strlit("<=");
            reveal_strlit(" ");
            reveal_strlit(" <= ");
            assert(" <= "@ =~= " "@ + "<="@ + " "@);
        },
        BinaryOp::MoreEqual => {
            reveal_strlit(">=");
            reveal_strlit(" ");
            reveal_strlit(" >= ");
            assert(" >= "@ =~= " "@ + ">="@ + " "@);
        },
        BinaryOp::Equal => {
            reveal_strlit("==");
            reveal_strlit(" ");
            reveal_strlit(" == ");
            assert(" == "@ =~= " "@ + "=="@ + " "@);
        },
        BinaryOp::NotEqual => {
            reveal_strlit("!=");
            reveal_strlit(" ");
            reveal_strlit(" != ");
            assert(" != "@ =~= " "@ + "!="@ + " "@);
        },
        BinaryOp::BitwiseAnd => {
            reveal_strlit("&");
            reveal_strlit(" ");
            reveal_strlit(" & ");
            assert(" & "@ =~= " "@ + "&"@ + " "@);
        },
        BinaryOp::BitwiseXor => {
            reveal_strlit("^");
            reveal_strlit(" ");
            reveal_strlit(" ^ ");
            assert(" ^ "@ =~= " "@ + "^"@ + " "@);
        },
        BinaryOp::BitwiseOr => {
            reveal_strlit("|");
            reveal_strlit(" ");
            reveal_strlit(" | ");
            assert(" | "@ =~= " "@ + "|"@ + " "@);
        },
        BinaryOp::And => {
            reveal_strlit("&&");
            reveal_strlit(" ");
            reveal_strlit("&& ");
            assert("&& "@ =~= "&&"@ + " "@);
        },
        BinaryOp::Or => {
            reveal_strlit("||");
            reveal_strlit(" ");
            reveal_strlit("|| ");
            assert("|| "@ =~= "||"@ + " "@);
        },
        BinaryOp::Assign => {
            reveal_strlit("=");
            reveal_strlit(" ");
            reveal_strlit(" = ");
            assert(" = "@ =~= " "@ + "="@ + " "@);
        },
        BinaryOp::AssignOr => {
            reveal_strlit("|=");
            reveal_strlit(" ");
            reveal_strlit(" |= ");
            assert(" |= "@ =~= " "@ + "|="@ + " "@);
        },
        BinaryOp::AssignAnd => {
            reveal_strlit("&=");
            reveal_strlit(" ");
            reveal_strlit(" &= ");
            assert(" &= "@ =~= " "@ + "&="@ + " "@);
        },
        BinaryOp::AssignXor => {
            reveal_strlit("^=");
            reveal_strlit(" ");
            reveal_strlit(" ^= ");
            assert(" ^= "@ =~= " "@ + "^="@ + " "@);
        },
        BinaryOp::AssignShiftLeft => {
            reveal_strlit("<<=");
            reveal_strlit(" ");
            reveal_strlit(" <<= ");
            assert(" <<= "@ =~= " "@ + "<<="@ + " "@);
        },
        BinaryOp::AssignShiftRight => {
            reveal_strlit(">>=");
            reveal_strlit(" ");
            reveal_strlit(" >>= ");
            assert(" >>= "@ =~= " "@ + ">>="@ + " "@);
        },
        BinaryOp::AssignAdd => {
            reveal_strlit("+=");
            reveal_strlit(" ");
            reveal_strlit(" += ");
            assert(" += "@ =~= " "@ + "+="@ + " "@);
        },
        BinaryOp::AssignSubtract => {
            reveal_strlit("-=");
            reveal_strlit(" ");
            reveal_strlit(" -= ");
            assert(" -= "@ =~= " "@ + "-="@ + " "@);
        },
        BinaryOp::AssignMultiply => {
            reveal_strlit("*=");
            reveal_strlit(" ");
            reveal_strlit(" *= ");
            assert(" *= "@ =~= " "@ + "*="@ + " "@);
        },
        BinaryOp::AssignDivide => {
            reveal_strlit("/=");
            reveal_strlit(" ");
            reveal_strlit(" /= ");
            assert(" /= "@ =~= " "@ + "/="@ + " "@);
        },
        BinaryOp::AssignModulo => {
            reveal_strlit("%=");
            reveal_strlit(" ");
            reveal_strlit(" %= ");
            assert(" %= "@ =~= " "@ + "%="@ + " "@);
        },
    }
}

/// `l op r` is laid out as a group holding the operands around the
/// operator written with its Solidity spelling, and distinct operators are
/// written differently.
pub proof fn law_binary_operator_spelling(op: BinaryOp, other: BinaryOp, l: Expression, r: Expression, rn: Renames)
    ensures
        expr_doc(Expression::Binary(op, Box::new(l), Box::new(r)), rn) is Group,
        expr_doc(Expression::Binary(op, Box::new(l), Box::new(r)), rn)->Group_0.contains(
            Doc::Text(spaced_token(op)),
        ),
        other != op ==> binary_text(other) != binary_text(op),
{
    lemma_binary_text_spelled(op);
    lemma_binary_text_spelled(other);
    let d = expr_doc(Expression::Binary(op, Box::new(l), Box::new(r)), rn);
    let ds = d->Group_0;
    assert(ds[1] == Doc::Text(binary_text(op)) || ds[2] == Doc::Text(binary_text(op)));
    if ds[1] == Doc::Text(binary_text(op)) {
        assert(ds.contains(ds[1]));
    } else {
        assert(ds.contains(ds[2]));
    }
    if other != op {
        law_binary_tokens_distinct(other, op);
        if binary_text(other) == binary_text(op) {
            lemma_spaced_token_reads_back(other);
            lemma_spaced_token_reads_back(op);
        }
    }
}

/// The spelling can be read back from the spaced operator: it is what
/// lies between the spaces.
proof fn lemma_spaced_token_reads_back(op: BinaryOp)
    ensures
        spaced_token(op)[0] == ' ' ==> !(op is And || op is Or) && spaced_token(op).subrange(
            1,
            spaced_token(op).len() - 1,
        ) == binary_token(op),
        spaced_token(op)[0] != ' ' ==> (op is And || op is Or) && spaced_token(op).subrange(
            0,
            spaced_token(op).len() - 1,
        ) == binary_token(op),
{
    reveal_strlit(" ");
    reveal_strlit("&&");
    reveal_strlit("||");
    let t = binary_token(op);
    if op is And || op is Or {
        assert(spaced_token(op).subrange(0, spaced_token(op).len() - 1) =~= t);
        assert(t[0] != ' ');
    } else {
        assert(spaced_token(op).subrange(1, spaced_token(op).len() - 1) =~= t);
    }
}

/// Each data location is written with its own keyword: the text of a
/// location is the keyword it is spelled with in the source, and distinct
/// locations are written differently.
pub proof fn law_storage_keywords(s: StorageLocation, t: StorageLocation)
    ensures
        storage_text(s) == storage_keyword(s),
        s != t ==> storage_text(s) != storage_text(t),
{
    reveal_strlit("memory");
    reveal_strlit("storage");
    reveal_strlit("calldata");
    assert("memory"@.len() != "storage"@.len());
    assert("memory"@.len() != "calldata"@.len());
    assert("storage"@[0] != "calldata"@[0]);
}

/// Each visibility is written with its own keyword, and distinct
/// visibilities are written differently.
pub proof fn law_visibility_keywords(v: Visibility, w: Visibility)
    ensures
        visibility_text(v) == visibility_keyword(v),
        v != w ==> visibility_text(v) != visibility_text(w),
{
    reveal_strlit("public");
    reveal_strlit("private");
    reveal_strlit("internal");
    reveal_strlit("external");
    assert("public"@.len() != "private"@.len());
    assert("public"@.len() != "internal"@.len());
    assert("public"@.len() != "external"@.len());
    assert("private"@.len() != "internal"@.len());
    assert("private"@.len() != "external"@.len());
    assert("internal"@[0] != "external"@[0]);
}

/// Each unary operator is written with its Solidity spelling; the keyword
/// operators `new` and `delete` are followed by a space.
pub proof fn law_unary_operator_spelling(op: UnaryOp)
    ensures
        unary_text(op) == (if op is New || op is Delete {
            unary_token(op) + " "@
        } else {
            unary_token(op)
        }),
{
    reveal_strlit("new");
    reveal_strlit("delete");
    reveal_strlit("new ");
    reveal_strlit("delete ");
    reveal_strlit(" ");
    assert("new "@ =~= "new"@ + " "@);
    assert("delete "@ =~= "delete"@ + " "@);
}

/// Each state mutability is written with its own keyword, and distinct
/// mutabilities are written differently.
pub proof fn law_mutability_keywords(m: Mutability, n: Mutability)
    ensures
        mutability_text(m) == mutability_keyword(m),
        m != n ==> mutability_text(m) != mutability_text(n),
{
    reveal_strlit("pure");
    reveal_strlit("view");
    reveal_strlit("constant");
    reveal_strlit("payable");
    assert("pure"@[0] != "view"@[0]);
    assert("pure"@.len() != "constant"@.len());
    assert("pure"@.len() != "payable"@.len());
    assert("view"@.len() != "constant"@.len());
    assert("view"@.len() != "payable"@.len());
    assert("constant"@.len() != "payable"@.len());
}

/// An elementary type is written as its Solidity name.
pub proof fn law_elementary_type_names(t: SolType)
    ensures
        elementary_type_name(t) matches Some(n) ==> type_doc(t) == Doc::Text(n) && type_text(t) == n,
{
}

} // verus!
