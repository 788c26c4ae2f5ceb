//! The layout of a function definition: its signature, and its body with
//! parameters, locals and return variables renamed.
use vstd::prelude::*;
use crate::ast::{
    CollectedFunction, CommentedStatement, Expression, FunctionAttribute, FunctionDefinition, FunctionTy, Statement,
    TypedParameter,
};
use crate::ir_builder::expressions::{
    elems2, elems4, expr_ok, group_of, indent_of, mutability_text, normalized_name, output_var_name, pair_views,
    param_docs, rename_pairs, visibility_text, Renames,
};
use crate::ir_builder::types::{push_block, push_doc, push_text};
use crate::ir_builder::statements::{contains_name, insert_rename_pair, returns_of, scope_of, types_view, ReturnVarContext};
use crate::ir_builder::ir::{doc_match, docs, Doc, IRElement};
use crate::ir_builder::ordering::identifier_path_text;
use crate::ir_builder::statements::{cstmt_laid, cstmt_ok, insert_rename, returns_ok, rlist_docs, Returns, Scope};
use crate::ir_builder::usages::cstmts_uses;
use crate::model::IdentifierPath;
use crate::text::{chars_of, join, str_views};

verus! {

/// The names of parameters; `None` where a parameter or its name is
/// missing.
pub open spec fn param_names(ps: Seq<Option<TypedParameter>>) -> Seq<Option<String>> {
    ps.map_values(
        |o: Option<TypedParameter>|
            match o {
                Some(p) => p.name,
                None => None,
            },
    )
}

/// The keyword and name of a function.
pub open spec fn kind_docs(ty: FunctionTy, name: Option<String>) -> Seq<Doc> {
    let named = seq![Doc::Text(" "@)] + match name {
        Some(n) => seq![Doc::Text(n@)],
        None => Seq::empty(),
    };
    match ty {
        FunctionTy::Constructor => seq![Doc::Text("constructor"@)],
        FunctionTy::Function => seq![Doc::Text("function"@)] + named,
        FunctionTy::Fallback => seq![Doc::Text("fallback"@)],
        FunctionTy::Receive => seq![Doc::Text("receive"@)],
        FunctionTy::Modifier => seq![Doc::Text("modifier"@)] + named,
    }
}

/// The parameters of a function, each on its own line after a comma (but
/// the first).
pub open spec fn param_lines(ps: Seq<Option<TypedParameter>>) -> Seq<Doc>
    decreases ps.len(),
{
    if ps.len() == 0 {
        Seq::empty()
    } else {
        param_lines(ps.drop_last()) + (if ps.len() > 1 {
            seq![Doc::Text(","@)]
        } else {
            Seq::empty()
        }) + seq![Doc::Hard] + match ps.last() {
            Some(p) => param_docs(p, true, false),
            None => Seq::empty(),
        }
    }
}

/// Paths separated by `, `.
pub open spec fn path_list_docs(ps: Seq<IdentifierPath>) -> Seq<Doc>
    decreases ps.len(),
{
    if ps.len() == 0 {
        Seq::empty()
    } else {
        path_list_docs(ps.drop_last()) + (if ps.len() > 1 {
            seq![Doc::Text(", "@)]
        } else {
            Seq::empty()
        }) + seq![Doc::Text(identifier_path_text(ps.last()))]
    }
}

/// A function attribute, modifier arguments renamed; `override` lists the
/// contracts it names.
pub open spec fn fattr_doc(a: FunctionAttribute, rn: Renames) -> Doc {
    match a {
        FunctionAttribute::Visibility(v) => Doc::Text(visibility_text(v)),
        FunctionAttribute::Mutability(m) => Doc::Text(mutability_text(m)),
        FunctionAttribute::Virtual => Doc::Text("virtual"@),
        FunctionAttribute::Immutable => Doc::Text("immutable"@),
        FunctionAttribute::Override(paths) => if paths.len() == 0 {
            Doc::Text("override"@)
        } else {
            Doc::Group(seq![Doc::Text("override("@)] + path_list_docs(paths@) + seq![Doc::Text(")"@)])
        },
        FunctionAttribute::BaseOrModifier(path, args) => Doc::Group(
            seq![Doc::Text(identifier_path_text(path))] + match args {
                Some(xs) => seq![Doc::Text("("@)] + rlist_docs(xs@, rn) + seq![Doc::Text(")"@)],
                None => Seq::empty(),
            },
        ),
        FunctionAttribute::Error => Doc::Text("/* error */"@),
    }
}

/// Function attributes separated by spaces.
pub open spec fn fattrs_docs(s: Seq<FunctionAttribute>, rn: Renames) -> Seq<Doc>
    decreases s.len(),
{
    if s.len() == 0 {
        Seq::empty()
    } else {
        fattrs_docs(s.drop_last(), rn) + (if s.len() > 1 {
            seq![Doc::Text(" "@)]
        } else {
            Seq::empty()
        }) + seq![fattr_doc(s.last(), rn)]
    }
}

/// Return parameters separated by `, `, without their names.
pub open spec fn out_docs(rs: Seq<Option<TypedParameter>>) -> Seq<Doc>
    decreases rs.len(),
{
    if rs.len() == 0 {
        Seq::empty()
    } else {
        out_docs(rs.drop_last()) + (if rs.len() > 1 {
            seq![Doc::Text(", "@)]
        } else {
            Seq::empty()
        }) + match rs.last() {
            Some(r) => param_docs(r, false, true),
            None => Seq::empty(),
        }
    }
}

/// Whether a function's body is absent or holds nothing: no statements, or
/// one empty block.
pub open spec fn is_empty_body(f: CollectedFunction) -> bool {
    f.body_statements.len() == 0 || (f.body_statements.len() == 1 && match f.body_statements@[0].statement {
        Statement::Block(ss) => ss.len() == 0,
        _ => false,
    })
}

/// The opening brace after the signature: `{ }` for an empty body.
pub open spec fn brace_text(f: CollectedFunction) -> Seq<char> {
    if is_empty_body(f) {
        " { }"@
    } else {
        " {"@
    }
}

/// The tail of a signature: the attributes (breaking onto a continuation
/// line as a whole, with the brace when there are no return parameters),
/// the return parameters, and the brace.
pub open spec fn sig_tail_docs(f: CollectedFunction, pr: Renames) -> Seq<Doc> {
    let d = f.definition.element;
    let has_outs = d.outputs.len() > 0;
    let brace_with_attrs = d.attributes.len() > 0 && !has_outs && d.has_body;
    (if d.attributes.len() > 0 {
        seq![
            Doc::Group(
                seq![
                    Doc::SoftCont,
                    Doc::Group(
                        fattrs_docs(d.attributes@, pr) + if brace_with_attrs {
                            seq![Doc::Text(brace_text(f))]
                        } else {
                            Seq::empty()
                        },
                    ),
                ],
            ),
        ]
    } else {
        Seq::empty()
    }) + (if has_outs {
        seq![
            Doc::Text(" returns ("@),
            Doc::Indent(seq![Doc::Softest, Doc::Group(out_docs(d.outputs@))]),
            Doc::Softest,
            Doc::Text(")"@),
        ]
    } else {
        Seq::empty()
    }) + (if d.has_body && !brace_with_attrs {
        seq![Doc::Text(brace_text(f))]
    } else {
        Seq::empty()
    })
}

/// The signature: keyword and name, ` (`, the parameters on indented lines,
/// `)`, and the tail in one group.
pub open spec fn signature_docs(f: CollectedFunction, pr: Renames) -> Seq<Doc> {
    let d = f.definition.element;
    kind_docs(d.ty, d.name) + seq![Doc::Text(" ("@)] + (if d.params.len() > 0 {
        seq![Doc::Indent(param_lines(d.params@)), Doc::Hard]
    } else {
        Seq::empty()
    }) + seq![Doc::Text(")"@)] + (if sig_tail_docs(f, pr).len() > 0 {
        seq![Doc::Group(sig_tail_docs(f, pr))]
    } else {
        Seq::empty()
    })
}

/// The named return variables with their parameters, the last declared
/// first.
pub open spec fn ret_types(outs: Seq<Option<TypedParameter>>) -> Seq<(Seq<char>, TypedParameter)>
    decreases outs.len(),
{
    if outs.len() == 0 {
        Seq::empty()
    } else {
        (match outs.last() {
            Some(p) => match p.name {
                Some(n) => seq![(n@, p)],
                None => Seq::empty(),
            },
            None => Seq::empty(),
        }) + ret_types(outs.drop_last())
    }
}

/// The distinct names of the return variables, in order.
pub open spec fn ret_names(outs: Seq<Option<TypedParameter>>) -> Seq<Seq<char>>
    decreases outs.len(),
{
    if outs.len() == 0 {
        Seq::empty()
    } else {
        let pre = ret_names(outs.drop_last());
        match outs.last() {
            Some(p) => match p.name {
                Some(n) => if pre.contains(n@) {
                    pre
                } else {
                    pre.push(n@)
                },
                None => pre,
            },
            None => pre,
        }
    }
}

/// The renames of a body: the parameters' normalizations, then each named
/// return variable renamed to its output name.
pub open spec fn body_renames(pr: Renames, outs: Seq<Option<TypedParameter>>) -> Renames
    decreases outs.len(),
{
    if outs.len() == 0 {
        pr
    } else {
        let pre = body_renames(pr, outs.drop_last());
        match outs.last() {
            Some(p) => match p.name {
                Some(n) => insert_rename(pre, n@, output_var_name(n@)),
                None => pre,
            },
            None => pre,
        }
    }
}

/// The return variables as the body's statements see them: a sole return
/// variable used once in the body is assigned once and returned directly.
pub open spec fn body_returns(f: CollectedFunction) -> Returns {
    let outs = f.definition.element.outputs@;
    let names = ret_names(outs);
    Returns {
        types: ret_types(outs),
        single: if names.len() == 1 && cstmts_uses(f.body_statements@, names[0]) == 1 {
            seq![names[0]]
        } else {
            Seq::empty()
        },
    }
}

/// The statements of a body: those collected in its block when the body
/// is one block, else its statements.
pub open spec fn body_statements_of(f: CollectedFunction) -> Seq<CommentedStatement> {
    if f.body_statements.len() == 1 && f.body_statements@[0].statement is Block
        && f.body_statements@[0].nested_statements is Some {
        f.body_statements@[0].nested_statements->Some_0@
    } else {
        f.body_statements@
    }
}

/// Whether a blank line goes before statement `i`: it has leading comments,
/// or it and the statement before it are both `if`s.
pub open spec fn blank_before(ss: Seq<CommentedStatement>, i: int) -> bool {
    i > 0 && (ss[i].leading_comments.len() > 0 || (ss[i].statement is If && ss[i - 1].statement is If))
}

/// The statements of a body separated by line breaks (and a blank line
/// where `blank_before` says so), threading the scope.
pub open spec fn body_laid(ss: Seq<CommentedStatement>, st: Scope, rv: Returns) -> (Seq<Doc>, Scope)
    decreases ss.len(),
{
    if ss.len() == 0 {
        (Seq::empty(), st)
    } else {
        let p = body_laid(ss.drop_last(), st, rv);
        let i = ss.len() - 1;
        let q = cstmt_laid(ss.last(), p.1, rv);
        (
            p.0 + (if i > 0 {
                seq![Doc::Hard] + if blank_before(ss, i) {
                    seq![Doc::Hard]
                } else {
                    Seq::empty()
                }
            } else {
                Seq::empty()
            }) + q.0,
            q.1,
        )
    }
}

/// The first pair's new name for `n`, if it is renamed.
pub open spec fn rename_get(rn: Renames, n: Seq<char>) -> Option<Seq<char>>
    decreases rn.len(),
{
    if rn.len() == 0 {
        None
    } else if rn[0].0 == n {
        Some(rn[0].1)
    } else {
        rename_get(rn.drop_first(), n)
    }
}

/// The names of the declared return variables in declaration order, as
/// the renames give them (normalized when not renamed).
pub open spec fn returned_names(outs: Seq<Option<TypedParameter>>, declared: Seq<Seq<char>>, rn: Renames) -> Seq<
    Seq<char>,
>
    decreases outs.len(),
{
    if outs.len() == 0 {
        Seq::empty()
    } else {
        returned_names(outs.drop_last(), declared, rn) + match outs.last() {
            Some(p) => match p.name {
                Some(n) => if declared.contains(n@) {
                    seq![
                        match rename_get(rn, n@) {
                            Some(v) => v,
                            None => normalized_name(n@),
                        },
                    ]
                } else {
                    Seq::empty()
                },
                None => Seq::empty(),
            },
            None => Seq::empty(),
        }
    }
}

/// The closing `return` of declared return variables: `return x;` for one,
/// `return (x, y);` otherwise.
pub open spec fn return_text(names: Seq<Seq<char>>) -> Seq<char> {
    if names.len() == 1 {
        "return "@ + names[0] + ";"@
    } else {
        "return ("@ + join(names, ", "@) + ");"@
    }
}

/// The layout of a function definition: the signature; `;` without a body;
/// nothing more for an empty body; else the statements on an indented
/// block (a blank line first when the first has comments), the closing
/// `return` of the return variables declared in it, and `}`.
pub open spec fn fn_def_docs(f: CollectedFunction) -> Seq<Doc> {
    let d = f.definition.element;
    let pr = rename_pairs(param_names(d.params@));
    let sig = signature_docs(f, pr);
    if !d.has_body {
        sig + seq![Doc::Text(";"@)]
    } else if is_empty_body(f) {
        sig
    } else {
        let ss = body_statements_of(f);
        sig + seq![Doc::Hard] + (if ss.len() > 0 && ss[0].leading_comments.len() > 0 {
            seq![Doc::Hard]
        } else {
            Seq::empty()
        }) + seq![Doc::Indent(body_docs(f)), Doc::Hard, Doc::Text("}"@)]
    }
}

/// The indented part of a body: its statements, then the closing `return`
/// of the return variables they declared.
pub open spec fn body_docs(f: CollectedFunction) -> Seq<Doc> {
    let d = f.definition.element;
    let pr = rename_pairs(param_names(d.params@));
    let b = body_laid(
        body_statements_of(f),
        Scope { renames: body_renames(pr, d.outputs@), declared: Seq::empty() },
        body_returns(f),
    );
    b.0 + if b.1.declared.len() > 0 {
        seq![Doc::Hard, Doc::Text(return_text(returned_names(d.outputs@, b.1.declared, b.1.renames)))]
    } else {
        Seq::empty()
    }
}

/// Whether every type and expression of a function can be laid out.
pub open spec fn fn_ok(f: CollectedFunction) -> bool {
    let d = f.definition.element;
    &&& forall|i: int| 0 <= i < d.params@.len() ==> (#[trigger] d.params@[i] matches Some(p) ==> expr_ok(p.ty))
    &&& forall|i: int| 0 <= i < d.outputs@.len() ==> (#[trigger] d.outputs@[i] matches Some(p) ==> expr_ok(p.ty))
    &&& forall|i: int|
        0 <= i < d.attributes@.len() ==> (#[trigger] d.attributes@[i] matches FunctionAttribute::BaseOrModifier(
            _,
            Some(args),
        ) ==> forall|j: int| 0 <= j < args@.len() ==> expr_ok(#[trigger] args@[j]))
    &&& forall|i: int| 0 <= i < f.body_statements@.len() ==> cstmt_ok(#[trigger] f.body_statements@[i])
}


/// The names of parameters; `None` where a parameter or its name is
/// missing.
pub(crate) fn param_name_list(ps: &Vec<Option<TypedParameter>>) -> (r: Vec<Option<String>>)
    ensures
        r@ == param_names(ps@),
{
    let mut r: Vec<Option<String>> = Vec::new();
    let mut i: usize = 0;
    while i < ps.len()
        invariant
            i <= ps@.len(),
            r@ == param_names(ps@).take(i as int),
        decreases ps@.len() - i,
    {
        let n = match &ps[i] {
            Some(p) => match &p.name {
                Some(x) => Some(x.clone()),
                None => None,
            },
            None => None,
        };
        r.push(n);
        assert(r@ =~= param_names(ps@).take(i + 1));
        i = i + 1;
    }
    assert(param_names(ps@).take(i as int) =~= param_names(ps@));
    r
}

/// Appends the keyword and name of a function.
fn push_kind(v: &mut Vec<IRElement>, ty: FunctionTy, name: &Option<String>, Ghost(ds): Ghost<Seq<Doc>>)
    requires
        docs(old(v)@, ds),
    ensures
        docs(final(v)@, ds + kind_docs(ty, *name)),
{
    let kw = match ty {
        FunctionTy::Constructor => "constructor",
        FunctionTy::Function => "function",
        FunctionTy::Fallback => "fallback",
        FunctionTy::Receive => "receive",
        FunctionTy::Modifier => "modifier",
    };
    push_text(v, kw, Ghost(ds));
    match ty {
        FunctionTy::Function | FunctionTy::Modifier => {
            push_text(v, " ", Ghost(ds.push(Doc::Text(kw@))));
            match name {
                Some(n) => {
                    push_text(v, n.as_str(), Ghost(ds.push(Doc::Text(kw@)).push(Doc::Text(" "@))));
                    assert(ds.push(Doc::Text(kw@)).push(Doc::Text(" "@)).push(Doc::Text(n@)) =~= ds + kind_docs(
                        ty,
                        *name,
                    ));
                },
                None => {
                    assert(ds.push(Doc::Text(kw@)).push(Doc::Text(" "@)) =~= ds + kind_docs(ty, *name));
                },
            }
        },
        _ => {
            assert(ds.push(Doc::Text(kw@)) =~= ds + kind_docs(ty, *name));
        },
    }
}

/// The parameters of a function, each on its own line.
fn format_param_lines(ps: &Vec<Option<TypedParameter>>) -> (r: Vec<IRElement>)
    requires
        forall|i: int| 0 <= i < ps@.len() ==> (#[trigger] ps@[i] matches Some(p) ==> expr_ok(p.ty)),
    ensures
        docs(r@, param_lines(ps@)),
{
    let mut v: Vec<IRElement> = Vec::new();
    let mut i: usize = 0;
    assert(ps@.take(0) =~= Seq::<Option<TypedParameter>>::empty());
    while i < ps.len()
        invariant
            i <= ps@.len(),
            forall|j: int| 0 <= j < ps@.len() ==> (#[trigger] ps@[j] matches Some(p) ==> expr_ok(p.ty)),
            docs(v@, param_lines(ps@.take(i as int))),
        decreases ps@.len() - i,
    {
        let ghost pre = param_lines(ps@.take(i as int));
        assert(ps@.take(i + 1).drop_last() =~= ps@.take(i as int));
        assert(ps@.take(i + 1).last() == ps@[i as int]);
        let ghost sep: Seq<Doc> = if i + 1 > 1 {
            seq![Doc::Text(","@)]
        } else {
            Seq::empty()
        };
        if i > 0 {
            push_text(&mut v, ",", Ghost(pre));
            assert(pre.push(Doc::Text(","@)) =~= pre + sep);
        } else {
            assert(pre =~= pre + sep);
        }
        push_doc(&mut v, IRElement::HardLineBreak, Ghost(pre + sep), Ghost(Doc::Hard));
        let ghost d1 = (pre + sep).push(Doc::Hard);
        match &ps[i] {
            Some(p) => {
                let pv = crate::ir_builder::expressions::format_parameter(p);
                push_block(&mut v, pv, Ghost(d1), Ghost(param_docs(*p, true, false)));
                assert(d1 + param_docs(*p, true, false) =~= param_lines(ps@.take(i + 1)));
            },
            None => {
                assert(d1 =~= param_lines(ps@.take(i + 1)));
            },
        }
        i = i + 1;
    }
    assert(ps@.take(i as int) =~= ps@);
    v
}

/// Appends modifier arguments separated by `, `, names renamed.
fn push_modifier_args(v: &mut Vec<IRElement>, xs: &Vec<Expression>, renames: &[(String, String)], Ghost(ds): Ghost<Seq<Doc>>)
    requires
        docs(old(v)@, ds),
        forall|j: int| 0 <= j < xs@.len() ==> expr_ok(#[trigger] xs@[j]),
    ensures
        docs(final(v)@, ds + rlist_docs(xs@, pair_views(renames@))),
{
    let ghost rn = pair_views(renames@);
    let mut i: usize = 0;
    assert(xs@.take(0) =~= Seq::<Expression>::empty());
    assert(ds =~= ds + rlist_docs(xs@.take(0), rn));
    while i < xs.len()
        invariant
            i <= xs@.len(),
            rn == pair_views(renames@),
            forall|j: int| 0 <= j < xs@.len() ==> expr_ok(#[trigger] xs@[j]),
            docs(v@, ds + rlist_docs(xs@.take(i as int), rn)),
        decreases xs@.len() - i,
    {
        let ghost pre = ds + rlist_docs(xs@.take(i as int), rn);
        assert(xs@.take(i + 1).drop_last() =~= xs@.take(i as int));
        assert(xs@.take(i + 1).last() == xs@[i as int]);
        let ghost sep: Seq<Doc> = if i + 1 > 1 {
            seq![Doc::Text(", "@)]
        } else {
            Seq::empty()
        };
        if i > 0 {
            push_text(v, ", ", Ghost(pre));
            assert(pre.push(Doc::Text(", "@)) =~= pre + sep);
        } else {
            assert(pre =~= pre + sep);
        }
        let x = crate::ir_builder::expressions::format_expression_with_renames(&xs[i], renames);
        push_doc(v, x, Ghost(pre + sep), Ghost(crate::ir_builder::expressions::expr_doc(xs@[i as int], rn)));
        assert((pre + sep).push(crate::ir_builder::expressions::expr_doc(xs@[i as int], rn)) =~= ds + rlist_docs(
            xs@.take(i + 1),
            rn,
        ));
        i = i + 1;
    }
    assert(xs@.take(i as int) =~= xs@);
}

/// A base constructor or modifier with its arguments, names renamed.
fn format_base_or_modifier(path: &IdentifierPath, args: &Option<Vec<Expression>>, renames: &[(String, String)]) -> (r:
    IRElement)
    requires
        args matches Some(xs) ==> forall|j: int| 0 <= j < xs@.len() ==> expr_ok(#[trigger] xs@[j]),
    ensures
        doc_match(r, fattr_doc(FunctionAttribute::BaseOrModifier(*path, *args), pair_views(renames@))),
{
    let ghost rn = pair_views(renames@);
    let name = crate::ir_builder::ordering::format_identifier_path(path);
    let mut v: Vec<IRElement> = Vec::new();
    push_text(&mut v, name.as_str(), Ghost(Seq::empty()));
    let ghost d0 = seq![Doc::Text(identifier_path_text(*path))];
    assert(Seq::<Doc>::empty().push(Doc::Text(identifier_path_text(*path))) =~= d0);
    match args {
        Some(xs) => {
            push_text(&mut v, "(", Ghost(d0));
            push_modifier_args(&mut v, xs, renames, Ghost(d0.push(Doc::Text("("@))));
            push_text(&mut v, ")", Ghost(d0.push(Doc::Text("("@)) + rlist_docs(xs@, rn)));
            let ghost all = d0 + (seq![Doc::Text("("@)] + rlist_docs(xs@, rn) + seq![Doc::Text(")"@)]);
            assert((d0.push(Doc::Text("("@)) + rlist_docs(xs@, rn)).push(Doc::Text(")"@)) =~= all);
            group_of(v, Ghost(all))
        },
        None => {
            assert(d0 =~= d0 + Seq::<Doc>::empty());
            group_of(v, Ghost(d0))
        },
    }
}

/// A function attribute, modifier arguments renamed; `override` lists the
/// contracts it names.
pub fn format_function_attribute(attr: &FunctionAttribute, renames: &[(String, String)]) -> (r: IRElement)
    requires
        attr matches FunctionAttribute::BaseOrModifier(_, Some(args)) ==> forall|j: int|
            0 <= j < args@.len() ==> expr_ok(#[trigger] args@[j]),
    ensures
        doc_match(r, fattr_doc(*attr, pair_views(renames@))),
{
    match attr {
        FunctionAttribute::Visibility(vis) => crate::ir_builder::expressions::format_visibility(vis),
        FunctionAttribute::Mutability(m) => crate::ir_builder::expressions::format_mutability(m),
        FunctionAttribute::Virtual => IRElement::text("virtual"),
        FunctionAttribute::Immutable => IRElement::text("immutable"),
        FunctionAttribute::Override(paths) => {
            if paths.len() == 0 {
                IRElement::text("override")
            } else {
                let mut v: Vec<IRElement> = Vec::new();
                push_text(&mut v, "override(", Ghost(Seq::empty()));
                let ghost d0 = seq![Doc::Text("override("@)];
                assert(Seq::<Doc>::empty().push(Doc::Text("override("@)) =~= d0);
                let mut i: usize = 0;
                assert(paths@.take(0) =~= Seq::<IdentifierPath>::empty());
                assert(d0 =~= d0 + path_list_docs(paths@.take(0)));
                while i < paths.len()
                    invariant
                        i <= paths@.len(),
                        docs(v@, d0 + path_list_docs(paths@.take(i as int))),
                    decreases paths@.len() - i,
                {
                    let ghost pre = d0 + path_list_docs(paths@.take(i as int));
                    assert(paths@.take(i + 1).drop_last() =~= paths@.take(i as int));
                    assert(paths@.take(i + 1).last() == paths@[i as int]);
                    let ghost sep: Seq<Doc> = if i + 1 > 1 {
                        seq![Doc::Text(", "@)]
                    } else {
                        Seq::empty()
                    };
                    if i > 0 {
                        push_text(&mut v, ", ", Ghost(pre));
                        assert(pre.push(Doc::Text(", "@)) =~= pre + sep);
                    } else {
                        assert(pre =~= pre + sep);
                    }
                    let t = crate::ir_builder::ordering::format_identifier_path(&paths[i]);
                    push_text(&mut v, t.as_str(), Ghost(pre + sep));
                    assert((pre + sep).push(Doc::Text(identifier_path_text(paths@[i as int]))) =~= d0 + path_list_docs(
                        paths@.take(i + 1),
                    ));
                    i = i + 1;
                }
                assert(paths@.take(i as int) =~= paths@);
                push_text(&mut v, ")", Ghost(d0 + path_list_docs(paths@)));
                let ghost all = seq![Doc::Text("override("@)] + path_list_docs(paths@) + seq![Doc::Text(")"@)];
                assert((d0 + path_list_docs(paths@)).push(Doc::Text(")"@)) =~= all);
                group_of(v, Ghost(all))
            }
        },
        FunctionAttribute::BaseOrModifier(path, args) => format_base_or_modifier(path, args, renames),
        FunctionAttribute::Error => IRElement::text("/* error */"),
    }
}

/// Function attributes separated by spaces.
fn format_fn_attributes(attrs: &Vec<FunctionAttribute>, renames: &[(String, String)]) -> (r: Vec<IRElement>)
    requires
        forall|i: int|
            0 <= i < attrs@.len() ==> (#[trigger] attrs@[i] matches FunctionAttribute::BaseOrModifier(_, Some(args))
                ==> forall|j: int| 0 <= j < args@.len() ==> expr_ok(#[trigger] args@[j])),
    ensures
        docs(r@, fattrs_docs(attrs@, pair_views(renames@))),
{
    let ghost rn = pair_views(renames@);
    let mut v: Vec<IRElement> = Vec::new();
    let mut i: usize = 0;
    assert(attrs@.take(0) =~= Seq::<FunctionAttribute>::empty());
    while i < attrs.len()
        invariant
            i <= attrs@.len(),
            rn == pair_views(renames@),
            forall|k: int|
                0 <= k < attrs@.len() ==> (#[trigger] attrs@[k] matches FunctionAttribute::BaseOrModifier(
                    _,
                    Some(args),
                ) ==> forall|j: int| 0 <= j < args@.len() ==> expr_ok(#[trigger] args@[j])),
            docs(v@, fattrs_docs(attrs@.take(i as int), rn)),
        decreases attrs@.len() - i,
    {
        let ghost pre = fattrs_docs(attrs@.take(i as int), rn);
        assert(attrs@.take(i + 1).drop_last() =~= attrs@.take(i as int));
        assert(attrs@.take(i + 1).last() == attrs@[i as int]);
        let ghost sep: Seq<Doc> = if i + 1 > 1 {
            seq![Doc::Text(" "@)]
        } else {
            Seq::empty()
        };
        if i > 0 {
            push_text(&mut v, " ", Ghost(pre));
            assert(pre.push(Doc::Text(" "@)) =~= pre + sep);
        } else {
            assert(pre =~= pre + sep);
        }
        let a = format_function_attribute(&attrs[i], renames);
        push_doc(&mut v, a, Ghost(pre + sep), Ghost(fattr_doc(attrs@[i as int], rn)));
        assert((pre + sep).push(fattr_doc(attrs@[i as int], rn)) =~= fattrs_docs(attrs@.take(i + 1), rn));
        i = i + 1;
    }
    assert(attrs@.take(i as int) =~= attrs@);
    v
}

/// Return parameters separated by `, `, without their names.
fn format_outputs(rs: &Vec<Option<TypedParameter>>) -> (r: Vec<IRElement>)
    requires
        forall|i: int| 0 <= i < rs@.len() ==> (#[trigger] rs@[i] matches Some(p) ==> expr_ok(p.ty)),
    ensures
        docs(r@, out_docs(rs@)),
{
    let mut v: Vec<IRElement> = Vec::new();
    let mut i: usize = 0;
    assert(rs@.take(0) =~= Seq::<Option<TypedParameter>>::empty());
    while i < rs.len()
        invariant
            i <= rs@.len(),
            forall|j: int| 0 <= j < rs@.len() ==> (#[trigger] rs@[j] matches Some(p) ==> expr_ok(p.ty)),
            docs(v@, out_docs(rs@.take(i as int))),
        decreases rs@.len() - i,
    {
        let ghost pre = out_docs(rs@.take(i as int));
        assert(rs@.take(i + 1).drop_last() =~= rs@.take(i as int));
        assert(rs@.take(i + 1).last() == rs@[i as int]);
        let ghost sep: Seq<Doc> = if i + 1 > 1 {
            seq![Doc::Text(", "@)]
        } else {
            Seq::empty()
        };
        if i > 0 {
            push_text(&mut v, ", ", Ghost(pre));
            assert(pre.push(Doc::Text(", "@)) =~= pre + sep);
        } else {
            assert(pre =~= pre + sep);
        }
        match &rs[i] {
            Some(p) => {
                let pv = crate::ir_builder::expressions::format_parameter_with_options(p, false, true);
                push_block(&mut v, pv, Ghost(pre + sep), Ghost(param_docs(*p, false, true)));
                assert(pre + sep + param_docs(*p, false, true) =~= out_docs(rs@.take(i + 1)));
            },
            None => {
                assert(pre + sep =~= out_docs(rs@.take(i + 1)));
            },
        }
        i = i + 1;
    }
    assert(rs@.take(i as int) =~= rs@);
    v
}

/// Whether a function's body is absent or holds nothing.
fn body_is_empty(f: &CollectedFunction) -> (b: bool)
    ensures
        b == is_empty_body(*f),
{
    if f.body_statements.len() == 0 {
        true
    } else if f.body_statements.len() == 1 {
        match &f.body_statements[0].statement {
            Statement::Block(ss) => ss.len() == 0,
            _ => false,
        }
    } else {
        false
    }
}

/// The signature of a function (see `signature_docs`).
fn build_signature(f: &CollectedFunction, pr: &[(String, String)]) -> (r: Vec<IRElement>)
    requires
        fn_ok(*f),
    ensures
        docs(r@, signature_docs(*f, pair_views(pr@))),
{
    let ghost rn = pair_views(pr@);
    let d = &f.definition.element;
    let mut v: Vec<IRElement> = Vec::new();
    push_kind(&mut v, d.ty, &d.name, Ghost(Seq::empty()));
    let ghost d0 = Seq::<Doc>::empty() + kind_docs(d.ty, d.name);
    push_text(&mut v, " (", Ghost(d0));
    let ghost d1 = d0.push(Doc::Text(" ("@));
    let ghost pd: Seq<Doc> = if d.params.len() > 0 {
        seq![Doc::Indent(param_lines(d.params@)), Doc::Hard]
    } else {
        Seq::empty()
    };
    if d.params.len() > 0 {
        let lines = format_param_lines(&d.params);
        let ind = indent_of(lines, Ghost(param_lines(d.params@)));
        let part = elems2(ind, IRElement::HardLineBreak, Ghost(Doc::Indent(param_lines(d.params@))), Ghost(Doc::Hard));
        push_block(&mut v, part, Ghost(d1), Ghost(pd));
    } else {
        assert(d1 =~= d1 + pd);
    }
    push_text(&mut v, ")", Ghost(d1 + pd));
    let ghost d2 = (d1 + pd).push(Doc::Text(")"@));
    let empty_body = body_is_empty(f);
    let brace = if empty_body {
        " { }"
    } else {
        " {"
    };
    assert(brace@ == brace_text(*f));
    let has_outs = d.outputs.len() > 0;
    let brace_with_attrs = d.attributes.len() > 0 && !has_outs && d.has_body;
    let mut tail: Vec<IRElement> = Vec::new();
    let ghost ad: Seq<Doc> = if d.attributes.len() > 0 {
        seq![
            Doc::Group(
                seq![
                    Doc::SoftCont,
                    Doc::Group(
                        fattrs_docs(d.attributes@, rn) + if brace_with_attrs {
                            seq![Doc::Text(brace_text(*f))]
                        } else {
                            Seq::empty()
                        },
                    ),
                ],
            ),
        ]
    } else {
        Seq::empty()
    };
    if d.attributes.len() > 0 {
        let mut av = format_fn_attributes(&d.attributes, pr);
        let ghost inner = fattrs_docs(d.attributes@, rn) + if brace_with_attrs {
            seq![Doc::Text(brace_text(*f))]
        } else {
            Seq::empty()
        };
        if brace_with_attrs {
            push_text(&mut av, brace, Ghost(fattrs_docs(d.attributes@, rn)));
            assert(fattrs_docs(d.attributes@, rn).push(Doc::Text(brace_text(*f))) =~= inner);
        } else {
            assert(fattrs_docs(d.attributes@, rn) =~= inner);
        }
        let ag = group_of(av, Ghost(inner));
        let pair = elems2(IRElement::SoftLineBreakWithContinuation, ag, Ghost(Doc::SoftCont), Ghost(Doc::Group(inner)));
        let ghost gd = seq![Doc::SoftCont, Doc::Group(inner)];
        let outer = group_of(pair, Ghost(gd));
        push_doc(&mut tail, outer, Ghost(Seq::empty()), Ghost(Doc::Group(gd)));
        assert(Seq::<Doc>::empty().push(Doc::Group(gd)) =~= ad);
    } else {
        assert(tail@ =~= Seq::<IRElement>::empty());
    }
    let ghost od: Seq<Doc> = if has_outs {
        seq![
            Doc::Text(" returns ("@),
            Doc::Indent(seq![Doc::Softest, Doc::Group(out_docs(d.outputs@))]),
            Doc::Softest,
            Doc::Text(")"@),
        ]
    } else {
        Seq::empty()
    };
    if has_outs {
        let ov = format_outputs(&d.outputs);
        let og = group_of(ov, Ghost(out_docs(d.outputs@)));
        let iv = elems2(IRElement::SoftestLineBreak, og, Ghost(Doc::Softest), Ghost(Doc::Group(out_docs(d.outputs@))));
        let ghost id = seq![Doc::Softest, Doc::Group(out_docs(d.outputs@))];
        let ind = indent_of(iv, Ghost(id));
        let part = elems4(
            IRElement::text(" returns ("),
            ind,
            IRElement::SoftestLineBreak,
            IRElement::text(")"),
            Ghost(Doc::Text(" returns ("@)),
            Ghost(Doc::Indent(id)),
            Ghost(Doc::Softest),
            Ghost(Doc::Text(")"@)),
        );
        push_block(&mut tail, part, Ghost(ad), Ghost(od));
    } else {
        assert(ad =~= ad + od);
    }
    let ghost bd: Seq<Doc> = if d.has_body && !brace_with_attrs {
        seq![Doc::Text(brace_text(*f))]
    } else {
        Seq::empty()
    };
    if d.has_body && !brace_with_attrs {
        push_text(&mut tail, brace, Ghost(ad + od));
        assert((ad + od).push(Doc::Text(brace_text(*f))) =~= ad + od + bd);
    } else {
        assert(ad + od =~= ad + od + bd);
    }
    assert(ad + od + bd =~= sig_tail_docs(*f, rn));
    let ghost td = sig_tail_docs(*f, rn);
    if tail.len() > 0 {
        let tg = group_of(tail, Ghost(td));
        push_doc(&mut v, tg, Ghost(d2), Ghost(Doc::Group(td)));
        assert(d2.push(Doc::Group(td)) =~= signature_docs(*f, rn));
    } else {
        proof {
            crate::ir_builder::ir::lemma_docs(tail@, td);
        }
        assert(d2 =~= signature_docs(*f, rn));
    }
    v
}


/// The named return variables with their parameters, the last declared
/// first.
fn return_types<'a>(outs: &'a Vec<Option<TypedParameter>>) -> (r: Vec<(String, &'a TypedParameter)>)
    requires
        forall|i: int| 0 <= i < outs@.len() ==> (#[trigger] outs@[i] matches Some(p) ==> expr_ok(p.ty)),
    ensures
        types_view(r@) == ret_types(outs@),
        forall|j: int| 0 <= j < r@.len() ==> expr_ok((#[trigger] r@[j]).1.ty),
{
    let mut r: Vec<(String, &'a TypedParameter)> = Vec::new();
    let mut i: usize = 0;
    assert(outs@.take(0) =~= Seq::<Option<TypedParameter>>::empty());
    assert(types_view(r@) =~= Seq::<(Seq<char>, TypedParameter)>::empty());
    while i < outs.len()
        invariant
            i <= outs@.len(),
            forall|k: int| 0 <= k < outs@.len() ==> (#[trigger] outs@[k] matches Some(p) ==> expr_ok(p.ty)),
            types_view(r@) == ret_types(outs@.take(i as int)),
            forall|j: int| 0 <= j < r@.len() ==> expr_ok((#[trigger] r@[j]).1.ty),
        decreases outs@.len() - i,
    {
        assert(outs@.take(i + 1).drop_last() =~= outs@.take(i as int));
        assert(outs@.take(i + 1).last() == outs@[i as int]);
        match &outs[i] {
            Some(p) => match &p.name {
                Some(n) => {
                    let ghost old_r = r@;
                    r.insert(0, (n.clone(), p));
                    assert(types_view(r@) =~= seq![(n@, *p)] + types_view(old_r));
                    assert forall|j: int| 0 <= j < r@.len() implies expr_ok((#[trigger] r@[j]).1.ty) by {
                        if j > 0 {
                            assert(r@[j] == old_r[j - 1]);
                        }
                    }
                },
                None => {},
            },
            None => {},
        }
        i = i + 1;
    }
    assert(outs@.take(i as int) =~= outs@);
    r
}

/// The distinct names of the return variables, in order.
fn return_names(outs: &Vec<Option<TypedParameter>>) -> (r: Vec<String>)
    ensures
        str_views(r@) == ret_names(outs@),
{
    let mut r: Vec<String> = Vec::new();
    let mut i: usize = 0;
    assert(outs@.take(0) =~= Seq::<Option<TypedParameter>>::empty());
    assert(str_views(r@) =~= Seq::<Seq<char>>::empty());
    while i < outs.len()
        invariant
            i <= outs@.len(),
            str_views(r@) == ret_names(outs@.take(i as int)),
        decreases outs@.len() - i,
    {
        assert(outs@.take(i + 1).drop_last() =~= outs@.take(i as int));
        assert(outs@.take(i + 1).last() == outs@[i as int]);
        match &outs[i] {
            Some(p) => match &p.name {
                Some(n) => {
                    if !contains_name(&r, n.as_str()) {
                        let ghost old_r = r@;
                        r.push(n.clone());
                        assert(str_views(r@) =~= str_views(old_r).push(n@));
                    }
                },
                None => {},
            },
            None => {},
        }
        i = i + 1;
    }
    assert(outs@.take(i as int) =~= outs@);
    r
}

/// Renames each named return variable to its output name.
fn apply_body_renames(renames: &mut Vec<(String, String)>, outs: &Vec<Option<TypedParameter>>)
    ensures
        pair_views(final(renames)@) == body_renames(pair_views(old(renames)@), outs@),
{
    let ghost pr = pair_views(renames@);
    let mut i: usize = 0;
    assert(outs@.take(0) =~= Seq::<Option<TypedParameter>>::empty());
    while i < outs.len()
        invariant
            i <= outs@.len(),
            pair_views(renames@) == body_renames(pr, outs@.take(i as int)),
        decreases outs@.len() - i,
    {
        assert(outs@.take(i + 1).drop_last() =~= outs@.take(i as int));
        assert(outs@.take(i + 1).last() == outs@[i as int]);
        match &outs[i] {
            Some(p) => match &p.name {
                Some(n) => {
                    let o = crate::ir_builder::expressions::transform_return_var_name(n.as_str());
                    insert_rename_pair(renames, n.clone(), o);
                },
                None => {},
            },
            None => {},
        }
        i = i + 1;
    }
    assert(outs@.take(i as int) =~= outs@);
}

/// The first pair's new name for `n`, if it is renamed.
fn rename_get_text(rn: &[(String, String)], n: &str) -> (r: Option<String>)
    ensures
        crate::ir_builder::expressions::opt_view(r) == rename_get(pair_views(rn@), n@),
{
    let ghost pv = pair_views(rn@);
    let ns = chars_of(n);
    let mut i: usize = 0;
    assert(pv.skip(0) =~= pv);
    while i < rn.len()
        invariant
            i <= rn@.len(),
            pv == pair_views(rn@),
            ns@ == n@,
            rename_get(pv, n@) == rename_get(pv.skip(i as int), n@),
        decreases rn@.len() - i,
    {
        assert(pv.skip(i as int)[0] == pv[i as int]);
        if crate::text::chars_equal(chars_of(rn[i].0.as_str()).as_slice(), ns.as_slice()) {
            return Some(rn[i].1.clone());
        }
        assert(pv.skip(i as int).drop_first() =~= pv.skip(i + 1));
        i = i + 1;
    }
    assert(pv.skip(i as int) =~= Seq::<(Seq<char>, Seq<char>)>::empty());
    None
}

/// The names of the declared return variables in declaration order, as
/// the renames give them.
fn returned_name_list(outs: &Vec<Option<TypedParameter>>, declared: &Vec<String>, rn: &[(String, String)]) -> (r: Vec<
    String,
>)
    ensures
        str_views(r@) == returned_names(outs@, str_views(declared@), pair_views(rn@)),
{
    let ghost dv = str_views(declared@);
    let ghost pv = pair_views(rn@);
    let mut r: Vec<String> = Vec::new();
    let mut i: usize = 0;
    assert(outs@.take(0) =~= Seq::<Option<TypedParameter>>::empty());
    assert(str_views(r@) =~= Seq::<Seq<char>>::empty());
    while i < outs.len()
        invariant
            i <= outs@.len(),
            dv == str_views(declared@),
            pv == pair_views(rn@),
            str_views(r@) == returned_names(outs@.take(i as int), dv, pv),
        decreases outs@.len() - i,
    {
        assert(outs@.take(i + 1).drop_last() =~= outs@.take(i as int));
        assert(outs@.take(i + 1).last() == outs@[i as int]);
        let ghost old_r = r@;
        match &outs[i] {
            Some(p) => match &p.name {
                Some(n) => {
                    if contains_name(declared, n.as_str()) {
                        let x = match rename_get_text(rn, n.as_str()) {
                            Some(v) => v,
                            None => crate::ir_builder::expressions::normalize_param_name(n.as_str()),
                        };
                        r.push(x);
                        assert(str_views(r@) =~= str_views(old_r) + seq![
                            match rename_get(pv, n@) {
                                Some(v) => v,
                                None => normalized_name(n@),
                            },
                        ]);
                    } else {
                        assert(str_views(r@) =~= str_views(old_r) + Seq::<Seq<char>>::empty());
                    }
                },
                None => {
                    assert(str_views(r@) =~= str_views(old_r) + Seq::<Seq<char>>::empty());
                },
            },
            None => {
                assert(str_views(r@) =~= str_views(old_r) + Seq::<Seq<char>>::empty());
            },
        }
        i = i + 1;
    }
    assert(outs@.take(i as int) =~= outs@);
    r
}

/// `return x;` for one name, `return (x, y);` otherwise.
fn return_statement_text(names: &Vec<String>) -> (r: String)
    ensures
        r@ == return_text(str_views(names@)),
{
    let mut v: Vec<char> = Vec::new();
    if names.len() == 1 {
        crate::text::push_all(&mut v, chars_of("return ").as_slice());
        crate::text::push_all(&mut v, chars_of(names[0].as_str()).as_slice());
        crate::text::push_all(&mut v, chars_of(";").as_slice());
        assert(str_views(names@)[0] == names@[0]@);
        assert(v@ =~= "return "@ + str_views(names@)[0] + ";"@);
    } else {
        crate::text::push_all(&mut v, chars_of("return (").as_slice());
        let j = crate::text::join_strings(names, chars_of(", ").as_slice());
        crate::text::push_all(&mut v, j.as_slice());
        crate::text::push_all(&mut v, chars_of(");").as_slice());
        assert(v@ =~= "return ("@ + join(str_views(names@), ", "@) + ");"@);
    }
    crate::text::string_from(v.as_slice())
}

/// Whether a blank line goes before statement `i` of a body.
pub fn needs_blank_line_before_statement(statements: &Vec<CommentedStatement>, index: usize) -> (b: bool)
    requires
        index < statements@.len(),
    ensures
        b == blank_before(statements@, index as int),
{
    if index == 0 {
        return false;
    }
    if statements[index].leading_comments.len() > 0 {
        return true;
    }
    match &statements[index].statement {
        Statement::If(..) => match &statements[index - 1].statement {
            Statement::If(..) => true,
            _ => false,
        },
        _ => false,
    }
}

/// The statements of a body separated by line breaks (and blank lines where
/// `blank_before` says so).
fn format_body_statements(stmts: &Vec<CommentedStatement>, renames: &mut Vec<(String, String)>, ctx: &mut ReturnVarContext<'_>) -> (r: Vec<IRElement>)
    requires
        forall|j: int| 0 <= j < stmts@.len() ==> cstmt_ok(#[trigger] stmts@[j]),
        returns_ok(returns_of(*old(ctx))),
    ensures
        docs(r@, body_laid(stmts@, scope_of(old(renames)@, old(ctx).declared_return_vars@), returns_of(*old(ctx))).0),
        scope_of(final(renames)@, final(ctx).declared_return_vars@) == body_laid(
            stmts@,
            scope_of(old(renames)@, old(ctx).declared_return_vars@),
            returns_of(*old(ctx)),
        ).1,
        final(ctx).return_var_types == old(ctx).return_var_types,
        final(ctx).single_assignment_vars == old(ctx).single_assignment_vars,
{
    let ghost st0 = scope_of(renames@, ctx.declared_return_vars@);
    let ghost rv = returns_of(*ctx);
    let ghost types0 = ctx.return_var_types;
    let ghost single0 = ctx.single_assignment_vars;
    let mut body: Vec<IRElement> = Vec::new();
    let mut i: usize = 0;
    assert(stmts@.take(0) =~= Seq::<CommentedStatement>::empty());
    while i < stmts.len()
        invariant
            i <= stmts@.len(),
            forall|j: int| 0 <= j < stmts@.len() ==> cstmt_ok(#[trigger] stmts@[j]),
            returns_ok(rv),
            ctx.return_var_types == types0,
            ctx.single_assignment_vars == single0,
            rv == returns_of(*ctx),
            docs(body@, body_laid(stmts@.take(i as int), st0, rv).0),
            scope_of(renames@, ctx.declared_return_vars@) == body_laid(stmts@.take(i as int), st0, rv).1,
        decreases stmts@.len() - i,
    {
        let ghost p = body_laid(stmts@.take(i as int), st0, rv);
        assert(stmts@.take(i + 1).drop_last() =~= stmts@.take(i as int));
        assert(stmts@.take(i + 1).last() == stmts@[i as int]);
        let ghost sep: Seq<Doc> = if i > 0 {
            seq![Doc::Hard] + if blank_before(stmts@.take(i + 1), i as int) {
                seq![Doc::Hard]
            } else {
                Seq::empty()
            }
        } else {
            Seq::empty()
        };
        assert(blank_before(stmts@.take(i + 1), i as int) == blank_before(stmts@, i as int));
        if i > 0 {
            push_doc(&mut body, IRElement::HardLineBreak, Ghost(p.0), Ghost(Doc::Hard));
            if needs_blank_line_before_statement(stmts, i) {
                push_doc(&mut body, IRElement::HardLineBreak, Ghost(p.0.push(Doc::Hard)), Ghost(Doc::Hard));
                assert(p.0.push(Doc::Hard).push(Doc::Hard) =~= p.0 + sep);
            } else {
                assert(p.0.push(Doc::Hard) =~= p.0 + sep);
            }
        } else {
            assert(p.0 =~= p.0 + sep);
        }
        let ghost q = cstmt_laid(stmts@[i as int], p.1, rv);
        let sd = crate::ir_builder::statements::build_statement_ir_full(&stmts[i], renames, ctx);
        push_block(&mut body, sd, Ghost(p.0 + sep), Ghost(q.0));
        assert(p.0 + sep + q.0 =~= body_laid(stmts@.take(i + 1), st0, rv).0);
        i = i + 1;
    }
    assert(stmts@.take(i as int) =~= stmts@);
    body
}

/// The indented part of a body (see `body_docs`).
#[verifier::spinoff_prover]
fn build_body_ir(func: &CollectedFunction) -> (r: Vec<IRElement>)
    requires
        fn_ok(*func),
    ensures
        docs(r@, body_docs(*func)),
{
    let d = &func.definition.element;
    let names = param_name_list(&d.params);
    let param_renames = crate::ir_builder::expressions::build_param_rename_map(names.as_slice());
    let ghost pr = rename_pairs(param_names(d.params@));
    let types = return_types(&d.outputs);
    let rnames = return_names(&d.outputs);
    let mut single: Vec<String> = Vec::new();
    if rnames.len() == 1 {
        let c = crate::ir_builder::usages::count_usages_in_statements(&func.body_statements, rnames[0].as_str());
        if c == 1 {
            single.push(rnames[0].clone());
        }
    }
    let mut ctx = ReturnVarContext {
        return_var_types: types,
        declared_return_vars: Vec::new(),
        single_assignment_vars: single,
    };
    assert(returns_of(ctx) == body_returns(*func)) by {
        if rnames@.len() == 1 {
            assert(str_views(rnames@)[0] == rnames@[0]@);
        }
        assert(str_views(ctx.single_assignment_vars@) =~= body_returns(*func).single);
    }
    let mut renames: Vec<(String, String)> = Vec::new();
    let mut k: usize = 0;
    while k < param_renames.len()
        invariant
            k <= param_renames@.len(),
            renames@ == param_renames@.take(k as int),
        decreases param_renames@.len() - k,
    {
        renames.push((param_renames[k].0.clone(), param_renames[k].1.clone()));
        assert(renames@ =~= param_renames@.take(k + 1));
        k = k + 1;
    }
    assert(param_renames@.take(k as int) =~= param_renames@);
    apply_body_renames(&mut renames, &d.outputs);
    let ghost st0 = Scope { renames: body_renames(pr, d.outputs@), declared: Seq::empty() };
    assert(str_views(ctx.declared_return_vars@) =~= Seq::<Seq<char>>::empty());
    assert(scope_of(renames@, ctx.declared_return_vars@) == st0);
    let ghost rv = body_returns(*func);
    let use_nested = func.body_statements.len() == 1 && match &func.body_statements[0].statement {
        Statement::Block(_) => true,
        _ => false,
    } && match &func.body_statements[0].nested_statements {
        Some(_) => true,
        None => false,
    };
    let stmts: &Vec<CommentedStatement> = if use_nested {
        match &func.body_statements[0].nested_statements {
            Some(n) => n,
            None => &func.body_statements,
        }
    } else {
        &func.body_statements
    };
    assert(stmts@ == body_statements_of(*func));
    assert forall|i: int| 0 <= i < stmts@.len() implies cstmt_ok(#[trigger] stmts@[i]) by {
        if use_nested {
            assert(cstmt_ok(func.body_statements@[0]));
        }
    }
    let mut body = format_body_statements(stmts, &mut renames, &mut ctx);
    let ghost b = body_laid(stmts@, st0, rv);
    let ghost tail: Seq<Doc> = if b.1.declared.len() > 0 {
        seq![Doc::Hard, Doc::Text(return_text(returned_names(d.outputs@, b.1.declared, b.1.renames)))]
    } else {
        Seq::empty()
    };
    if ctx.declared_return_vars.len() > 0 {
        let rn_list = returned_name_list(&d.outputs, &ctx.declared_return_vars, renames.as_slice());
        let t = return_statement_text(&rn_list);
        push_doc(&mut body, IRElement::HardLineBreak, Ghost(b.0), Ghost(Doc::Hard));
        push_text(&mut body, t.as_str(), Ghost(b.0.push(Doc::Hard)));
        assert(b.0.push(Doc::Hard).push(Doc::Text(t@)) =~= b.0 + tail);
    } else {
        assert(b.0 =~= b.0 + tail);
    }
    body
}

/// A function definition (see `fn_def_docs`).
pub fn build_function_definition(func: &CollectedFunction) -> (r: Vec<IRElement>)
    requires
        fn_ok(*func),
    ensures
        docs(r@, fn_def_docs(*func)),
{
    let d = &func.definition.element;
    let names = param_name_list(&d.params);
    let param_renames = crate::ir_builder::expressions::build_param_rename_map(names.as_slice());
    let mut v = build_signature(func, param_renames.as_slice());
    let ghost sig = signature_docs(*func, rename_pairs(param_names(d.params@)));
    if !d.has_body {
        push_text(&mut v, ";", Ghost(sig));
        assert(sig.push(Doc::Text(";"@)) =~= sig + seq![Doc::Text(";"@)]);
        return v;
    }
    if body_is_empty(func) {
        return v;
    }
    let body = build_body_ir(func);
    let ghost ss = body_statements_of(*func);
    push_doc(&mut v, IRElement::HardLineBreak, Ghost(sig), Ghost(Doc::Hard));
    let ghost fc: Seq<Doc> = if ss.len() > 0 && ss[0].leading_comments.len() > 0 {
        seq![Doc::Hard]
    } else {
        Seq::empty()
    };
    let first_commented = match &func.body_statements[0].nested_statements {
        Some(n) => if func.body_statements.len() == 1 && match &func.body_statements[0].statement {
            Statement::Block(_) => true,
            _ => false,
        } {
            n.len() > 0 && n[0].leading_comments.len() > 0
        } else {
            func.body_statements[0].leading_comments.len() > 0
        },
        None => func.body_statements[0].leading_comments.len() > 0,
    };
    if first_commented {
        push_doc(&mut v, IRElement::HardLineBreak, Ghost(sig.push(Doc::Hard)), Ghost(Doc::Hard));
        assert(sig.push(Doc::Hard).push(Doc::Hard) =~= sig + seq![Doc::Hard] + fc);
    } else {
        assert(sig.push(Doc::Hard) =~= sig + seq![Doc::Hard] + fc);
    }
    let ghost d1 = sig + seq![Doc::Hard] + fc;
    let ind = indent_of(body, Ghost(body_docs(*func)));
    push_doc(&mut v, ind, Ghost(d1), Ghost(Doc::Indent(body_docs(*func))));
    push_doc(&mut v, IRElement::HardLineBreak, Ghost(d1.push(Doc::Indent(body_docs(*func)))), Ghost(Doc::Hard));
    push_text(&mut v, "}", Ghost(d1.push(Doc::Indent(body_docs(*func))).push(Doc::Hard)));
    assert(d1.push(Doc::Indent(body_docs(*func))).push(Doc::Hard).push(Doc::Text("}"@)) =~= fn_def_docs(*func));
    v
}

} // verus!
