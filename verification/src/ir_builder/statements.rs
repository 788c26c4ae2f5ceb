//! The layout of statements, with the renaming of parameters, locals and
//! return variables that it carries from one statement to the next.
use vstd::prelude::*;
use crate::ast::{
    jump_keyword,
    BinaryOp, CatchClause, CommentedStatement, Expression, NamedArgument, Statement, TypedParameter, VariableDeclaration, YulBlock,
};
use crate::ir_builder::expressions::{
    elems2, elems3, elems4, expr_doc, expr_ok, fn_params_docs, group_of, indent_of, normalized_name, pair_views,
    param_docs, renamed, storage_docs, Renames,
};
use crate::ir_builder::ir::{doc_match, docs, Doc, IRElement};
use crate::ir_builder::ordering::identifier_path_text;
use crate::ir_builder::types::{push_block, push_doc, push_text};
use crate::ir_builder::yul::{yblock_docs, yblock_laid};
use crate::ir_builder::comments::{with_comments, with_comments_docs};
use crate::ir_builder::lemma_docs_append;
use crate::model::IdentifierPath;
use crate::text::{chars_of, str_views, utf8_len};

verus! {

/// What the layout of a statement carries to the next one: the renames in
/// force and the return variables declared so far.
pub struct Scope {
    pub renames: Renames,
    pub declared: Seq<Seq<char>>,
}

/// The return variables of the enclosing function: each with its
/// parameter, and those that are assigned once.
pub struct Returns {
    pub types: Seq<(Seq<char>, TypedParameter)>,
    pub single: Seq<Seq<char>>,
}

/// No return variables.
pub open spec fn no_returns() -> Returns {
    Returns { types: Seq::empty(), single: Seq::empty() }
}

/// A scope with the renames `rn` and nothing declared.
pub open spec fn fresh(rn: Renames) -> Scope {
    Scope { renames: rn, declared: Seq::empty() }
}

/// The parameter of return variable `n`, if it is one.
pub open spec fn ret_param(types: Seq<(Seq<char>, TypedParameter)>, n: Seq<char>) -> Option<TypedParameter>
    decreases types.len(),
{
    if types.len() == 0 {
        None
    } else if types[0].0 == n {
        Some(types[0].1)
    } else {
        ret_param(types.drop_first(), n)
    }
}

/// The renames with `k` renamed to `v`: the pair for `k` replaced, or added
/// at the end.
pub open spec fn insert_rename(rn: Renames, k: Seq<char>, v: Seq<char>) -> Renames
    decreases rn.len(),
{
    if rn.len() == 0 {
        seq![(k, v)]
    } else if rn[0].0 == k {
        rn.update(0, (k, v))
    } else {
        seq![rn[0]] + insert_rename(rn.drop_first(), k, v)
    }
}

/// The name a declared local is written with: a one-byte name as it is,
/// any other normalized.
pub open spec fn def_name_text(n: Seq<char>) -> Seq<char> {
    if utf8_len(n) == 1 {
        n
    } else {
        normalized_name(n)
    }
}

/// The renames after declaring local `n`.
pub open spec fn def_rename(rn: Renames, n: Seq<char>) -> Renames {
    if utf8_len(n) != 1 && normalized_name(n) != n {
        insert_rename(rn, n, normalized_name(n))
    } else {
        rn
    }
}

/// The renames after a name of a tuple assignment: names longer than one
/// byte are normalized.
pub open spec fn assign_rename(rn: Renames, n: Seq<char>) -> Renames {
    if utf8_len(n) > 1 && normalized_name(n) != n {
        insert_rename(rn, n, normalized_name(n))
    } else {
        rn
    }
}

/// The renames after the names of a tuple assignment's left side.
pub open spec fn tuple_assign_renames(ps: Seq<Option<TypedParameter>>, rn: Renames) -> Renames
    decreases ps.len(),
{
    if ps.len() == 0 {
        rn
    } else {
        let r = tuple_assign_renames(ps.drop_last(), rn);
        match ps.last() {
            Some(p) => match p.name {
                Some(n) => assign_rename(r, n@),
                None => r,
            },
            None => r,
        }
    }
}

/// The slots of a tuple declaration separated by `, ` (type, location and
/// name), and the renames after its names.
pub open spec fn tuple_decl_laid(ps: Seq<Option<TypedParameter>>, rn: Renames) -> (Seq<Doc>, Renames)
    decreases ps.len(),
{
    if ps.len() == 0 {
        (Seq::empty(), rn)
    } else {
        let pre = tuple_decl_laid(ps.drop_last(), rn);
        let sep: Seq<Doc> = if ps.len() > 1 {
            seq![Doc::Text(", "@)]
        } else {
            Seq::empty()
        };
        match ps.last() {
            Some(p) => (
                pre.0 + sep + seq![expr_doc(p.ty, Seq::empty())] + storage_docs(p.storage) + match p.name {
                    Some(n) => seq![Doc::Text(" "@), Doc::Text(def_name_text(n@))],
                    None => Seq::empty(),
                },
                match p.name {
                    Some(n) => def_rename(pre.1, n@),
                    None => pre.1,
                },
            ),
            None => (pre.0 + sep, pre.1),
        }
    }
}

/// The head of a variable definition (type, location and name, or the
/// tuple of slots) and the renames after it.
pub open spec fn decl_head(decl: VariableDeclaration, rn: Renames) -> (Seq<Doc>, Renames) {
    match decl.ty {
        Expression::List(ps) => {
            let t = tuple_decl_laid(ps@, rn);
            (seq![Doc::Text("("@)] + t.0 + seq![Doc::Text(")"@)], t.1)
        },
        _ => (
            seq![expr_doc(decl.ty, Seq::empty())] + storage_docs(decl.storage) + seq![Doc::Text(" "@)] + match decl.name {
                Some(n) => seq![Doc::Text(def_name_text(n@))],
                None => Seq::empty(),
            },
            match decl.name {
                Some(n) => def_rename(rn, n@),
                None => rn,
            },
        ),
    }
}

/// A variable definition in one group: the head, ` = ` and the initializer
/// indented after a softest break, and `;`; with the renames after it.
pub open spec fn vardef_laid(decl: VariableDeclaration, init: Option<Expression>, rn: Renames) -> (Seq<Doc>, Renames) {
    let h = decl_head(decl, rn);
    (seq![Doc::Group(h.0 + init_docs(init, h.1) + seq![Doc::Text(";"@)])], h.1)
}

/// ` = ` and the initializer, indented after a softest break.
pub open spec fn init_docs(init: Option<Expression>, rn: Renames) -> Seq<Doc> {
    match init {
        Some(x) => seq![Doc::Text(" = "@), Doc::Softest, Doc::Indent(seq![expr_doc(x, rn)])],
        None => Seq::empty(),
    }
}

/// An expression statement. A tuple assignment first normalizes the names
/// on its left side. An assignment to a return variable becomes `return
/// value;` when the variable is assigned once, a declaration of it (type,
/// location, normalized name) on its first assignment, and stays an
/// assignment after that.
pub open spec fn expression_laid(e: Expression, st: Scope, rv: Returns) -> (Seq<Doc>, Scope) {
    let rn1 = match e {
        Expression::Binary(BinaryOp::Assign, l, _) => match *l {
            Expression::List(ps) => tuple_assign_renames(ps@, st.renames),
            _ => st.renames,
        },
        _ => st.renames,
    };
    let plain = (seq![expr_doc(e, rn1), Doc::Text(";"@)], Scope { renames: rn1, declared: st.declared });
    match e {
        Expression::Binary(BinaryOp::Assign, l, r) => match *l {
            Expression::Variable(v) => match ret_param(rv.types, v@) {
                Some(p) => if rv.single.contains(v@) {
                    (
                        seq![Doc::Text("return"@), Doc::Text(" "@), expr_doc(*r, rn1), Doc::Text(";"@)],
                        Scope { renames: rn1, declared: st.declared },
                    )
                } else if !st.declared.contains(v@) {
                    let nn = normalized_name(v@);
                    let rn2 = if v@ != nn {
                        insert_rename(rn1, v@, nn)
                    } else {
                        rn1
                    };
                    (
                        seq![expr_doc(p.ty, Seq::empty())] + storage_docs(p.storage) + seq![
                            Doc::Text(" "@),
                            Doc::Text(nn),
                            Doc::Text(" = "@),
                            expr_doc(*r, rn2),
                            Doc::Text(";"@),
                        ],
                        Scope { renames: rn2, declared: st.declared.push(v@) },
                    )
                } else {
                    plain
                },
                None => plain,
            },
            _ => plain,
        },
        _ => plain,
    }
}

/// The header of an `if`: the condition between `if (` and `) `, breaking
/// inside the parentheses when it does not fit.
pub open spec fn if_header(c: Expression, rn: Renames) -> Doc {
    Doc::Group(
        seq![
            Doc::Text("if ("@),
            Doc::Indent(seq![Doc::Softest, expr_doc(c, rn)]),
            Doc::Softest,
            Doc::Text(") "@),
        ],
    )
}

/// `"text"`
pub open spec fn quoted_text(t: Seq<char>) -> Seq<char> {
    "\""@ + t + "\""@
}

/// Assembly flags, quoted and separated by `, `.
pub open spec fn flag_docs(fs: Seq<String>) -> Seq<Doc>
    decreases fs.len(),
{
    if fs.len() == 0 {
        Seq::empty()
    } else {
        flag_docs(fs.drop_last()) + (if fs.len() > 1 {
            seq![Doc::Text(", "@)]
        } else {
            Seq::empty()
        }) + seq![Doc::Text(quoted_text(fs.last()@))]
    }
}

/// An assembly statement with the renames `rn` in force: `assembly`, the
/// dialect and flags when written, and the block with the renames applied
/// (its declarations recording theirs); and the renames after it.
pub open spec fn assembly_laid(dialect: Option<String>, flags: Option<Vec<String>>, block: YulBlock, rn: Renames) -> (
    Seq<Doc>,
    Renames,
) {
    let b = yblock_laid(block, rn);
    (seq![Doc::Text("assembly"@)] + dialect_docs(dialect) + flags_docs(flags) + seq![Doc::Text(" "@)] + b.0, b.1)
}

/// ` "dialect"` when a dialect is written.
pub open spec fn dialect_docs(dialect: Option<String>) -> Seq<Doc> {
    match dialect {
        Some(d) => seq![Doc::Text(" "@), Doc::Text(quoted_text(d@))],
        None => Seq::empty(),
    }
}

/// ` ("flag", ...)` when flags are written.
pub open spec fn flags_docs(flags: Option<Vec<String>>) -> Seq<Doc> {
    match flags {
        Some(f) => if f.len() > 0 {
            seq![Doc::Text(" "@), Doc::Text("("@)] + flag_docs(f@) + seq![Doc::Text(")"@)]
        } else {
            Seq::empty()
        },
        None => Seq::empty(),
    }
}

/// ` value` of a `return`, when it has one.
pub open spec fn return_value_docs(val: Option<Expression>, rn: Renames) -> Seq<Doc> {
    match val {
        Some(x) => seq![Doc::Text(" "@), expr_doc(x, rn)],
        None => Seq::empty(),
    }
}

/// Call options `name: value` separated by `,` and a soft break.
pub open spec fn args_docs(args: Seq<NamedArgument>, rn: Renames) -> Seq<Doc>
    decreases args.len(),
{
    if args.len() == 0 {
        Seq::empty()
    } else {
        args_docs(args.drop_last(), rn) + (if args.len() > 1 {
            seq![Doc::Text(","@), Doc::Soft]
        } else {
            Seq::empty()
        }) + seq![Doc::Text(args.last().name@), Doc::Text(": "@), expr_doc(args.last().expr, rn)]
    }
}

/// Named arguments `name: value` separated by `, `.
pub open spec fn named_revert_docs(args: Seq<NamedArgument>, rn: Renames) -> Seq<Doc>
    decreases args.len(),
{
    if args.len() == 0 {
        Seq::empty()
    } else {
        named_revert_docs(args.drop_last(), rn) + (if args.len() > 1 {
            seq![Doc::Text(", "@)]
        } else {
            Seq::empty()
        }) + seq![Doc::Text(args.last().name@), Doc::Text(": "@), expr_doc(args.last().expr, rn)]
    }
}

/// Expressions separated by `, `, names renamed.
pub open spec fn rlist_docs(args: Seq<Expression>, rn: Renames) -> Seq<Doc>
    decreases args.len(),
{
    if args.len() == 0 {
        Seq::empty()
    } else {
        rlist_docs(args.drop_last(), rn) + (if args.len() > 1 {
            seq![Doc::Text(", "@)]
        } else {
            Seq::empty()
        }) + seq![expr_doc(args.last(), rn)]
    }
}

/// ` Error` after `revert`, when an error is named.
pub open spec fn err_docs(err: Option<IdentifierPath>) -> Seq<Doc> {
    match err {
        Some(p) => seq![Doc::Text(" "@), Doc::Text(identifier_path_text(p))],
        None => Seq::empty(),
    }
}

/// The layout of an optional expression.
pub open spec fn opt_docs(o: Option<Expression>, rn: Renames) -> Seq<Doc> {
    match o {
        Some(x) => seq![expr_doc(x, rn)],
        None => Seq::empty(),
    }
}

/// `(param)` of a catch clause, when it has one.
pub open spec fn catch_param_docs(param: Option<TypedParameter>) -> Seq<Doc> {
    match param {
        Some(x) => seq![Doc::Text("("@)] + param_docs(x, true, false) + seq![Doc::Text(")"@)],
        None => Seq::empty(),
    }
}

/// The layout of a statement and the scope after it. Nested statements of
/// `if`, loops and `catch` clauses are laid out with the renames in force
/// and without return variables; only the renames they make carry on.
pub open spec fn stmt_laid(s: Statement, st: Scope, rv: Returns) -> (Seq<Doc>, Scope)
    decreases s,
{
    match s {
        Statement::Block(ss) => {
            let b = block_laid(ss@, st, rv);
            (
                seq![Doc::Text("{"@)] + (if ss.len() > 0 {
                    b.0 + seq![Doc::Hard]
                } else {
                    Seq::empty()
                }) + seq![Doc::Text("}"@)],
                b.1,
            )
        },
        Statement::Assembly { dialect, flags, block } => {
            let a = assembly_laid(dialect, flags, block, st.renames);
            (a.0, Scope { renames: a.1, declared: st.declared })
        },
        Statement::Args(args) => (
            seq![Doc::Group(seq![Doc::Text("{"@)] + args_docs(args@, st.renames) + seq![Doc::Text("}"@)])],
            st,
        ),
        Statement::If(c, t, e) => {
            let tl = stmt_laid(*t, fresh(st.renames), no_returns());
            let el: (Seq<Doc>, Scope) = match e {
                Some(x) => {
                    let xl = stmt_laid(*x, fresh(tl.1.renames), no_returns());
                    (seq![Doc::Text(" else "@)] + xl.0, xl.1)
                },
                None => (Seq::empty(), tl.1),
            };
            (
                seq![if_header(c, st.renames)] + tl.0 + el.0,
                Scope { renames: el.1.renames, declared: st.declared },
            )
        },
        Statement::While(c, b) => {
            let bl = stmt_laid(*b, fresh(st.renames), no_returns());
            (
                seq![Doc::Text("while ("@), expr_doc(c, st.renames), Doc::Text(") "@)] + bl.0,
                Scope { renames: bl.1.renames, declared: st.declared },
            )
        },
        Statement::Expression(e) => expression_laid(e, st, rv),
        Statement::VariableDefinition(d, init) => {
            let v = vardef_laid(d, init, st.renames);
            (v.0, Scope { renames: v.1, declared: st.declared })
        },
        Statement::For(init, c, u, b) => {
            let il: (Seq<Doc>, Scope) = match init {
                Some(x) => stmt_laid(*x, fresh(st.renames), no_returns()),
                None => (seq![Doc::Text(";"@)], fresh(st.renames)),
            };
            let rn1 = il.1.renames;
            let bl: (Seq<Doc>, Scope) = match b {
                Some(x) => stmt_laid(*x, fresh(rn1), no_returns()),
                None => (seq![Doc::Text(";"@)], fresh(rn1)),
            };
            (
                seq![Doc::Text("for ("@)] + il.0 + seq![Doc::Text(" "@)] + match c {
                    Some(x) => seq![expr_doc(x, rn1)],
                    None => Seq::empty(),
                } + seq![Doc::Text("; "@)] + match u {
                    Some(x) => seq![expr_doc(x, rn1)],
                    None => Seq::empty(),
                } + seq![Doc::Text(") "@)] + bl.0,
                Scope { renames: bl.1.renames, declared: st.declared },
            )
        },
        Statement::DoWhile(b, c) => {
            let bl = stmt_laid(*b, fresh(st.renames), no_returns());
            (
                seq![Doc::Text("do"@), Doc::Text(" "@)] + bl.0 + seq![
                    Doc::Text(" while ("@),
                    expr_doc(c, bl.1.renames),
                    Doc::Text(");"@),
                ],
                Scope { renames: bl.1.renames, declared: st.declared },
            )
        },
        Statement::Continue => (seq![Doc::Text("continue;"@)], st),
        Statement::Break => (seq![Doc::Text("break;"@)], st),
        Statement::Return(v) => (
            seq![
                Doc::Group(seq![Doc::Text("return"@)] + return_value_docs(v, st.renames) + seq![Doc::Text(";"@)]),
            ],
            st,
        ),
        Statement::Revert(err, args) => (
            seq![
                Doc::Group(
                    seq![Doc::Text("revert"@)] + err_docs(err) + seq![Doc::Text("("@)] + (if args.len() > 0 {
                        seq![
                            Doc::Indent(seq![Doc::Softest, Doc::Group(rlist_docs(args@, st.renames))]),
                            Doc::Softest,
                        ]
                    } else {
                        Seq::empty()
                    }) + seq![Doc::Text(");"@)],
                ),
            ],
            st,
        ),
        Statement::RevertNamedArgs(err, args) => (
            seq![
                Doc::Group(
                    seq![Doc::Text("revert"@)] + err_docs(err) + seq![Doc::Text("({"@)] + named_revert_docs(
                        args@,
                        st.renames,
                    ) + seq![Doc::Text("});"@)],
                ),
            ],
            st,
        ),
        Statement::Emit(e) => (
            seq![Doc::Text("emit"@), Doc::Text(" "@), expr_doc(e, st.renames), Doc::Text(";"@)],
            st,
        ),
        Statement::Try(e, rets, cs) => {
            let cl = clauses_laid(cs@, st.renames);
            (
                seq![Doc::Text("try"@), Doc::Text(" "@), expr_doc(e, st.renames)] + (if rets.len() > 0 {
                    seq![Doc::Text(" returns ("@)] + fn_params_docs(rets@) + seq![Doc::Text(")"@)]
                } else {
                    Seq::empty()
                }) + cl.0,
                Scope { renames: cl.1, declared: st.declared },
            )
        },
        Statement::Error => (seq![Doc::Text("/* error statement */"@)], st),
    }
}

/// The statements of a block, each after a hard break on an indented line,
/// threading the scope through them.
pub open spec fn block_laid(ss: Seq<Statement>, st: Scope, rv: Returns) -> (Seq<Doc>, Scope)
    decreases ss,
{
    if ss.len() == 0 {
        (Seq::empty(), st)
    } else {
        let p = block_laid(ss.drop_last(), st, rv);
        let q = stmt_laid(ss.last(), p.1, rv);
        (p.0 + seq![Doc::Hard, Doc::Indent(q.0)], q.1)
    }
}

/// The catch clauses of a `try`, threading the renames through their
/// bodies.
pub open spec fn clauses_laid(cs: Seq<CatchClause>, rn: Renames) -> (Seq<Doc>, Renames)
    decreases cs,
{
    if cs.len() == 0 {
        (Seq::empty(), rn)
    } else {
        let p = clauses_laid(cs.drop_last(), rn);
        match cs.last() {
            CatchClause::Simple(param, body) => {
                let q = stmt_laid(body, fresh(p.1), no_returns());
                (
                    p.0 + seq![Doc::Text(" catch "@)] + match param {
                        Some(x) => seq![Doc::Text("("@)] + param_docs(x, true, false) + seq![Doc::Text(")"@)],
                        None => Seq::empty(),
                    } + seq![Doc::Text(" "@)] + q.0,
                    q.1.renames,
                )
            },
            CatchClause::Named(name, param, body) => {
                let q = stmt_laid(body, fresh(p.1), no_returns());
                (
                    p.0 + seq![Doc::Text(" catch "@), Doc::Text(name@), Doc::Text("("@)] + param_docs(param, true, false)
                        + seq![Doc::Text(")"@), Doc::Text(" "@)] + q.0,
                    q.1.renames,
                )
            },
        }
    }
}

/// Whether every expression and type in a statement can be laid out.
pub open spec fn stmt_ok(s: Statement) -> bool
    decreases s,
{
    match s {
        Statement::Block(ss) => forall|i: int| 0 <= i < ss@.len() ==> stmt_ok(#[trigger] ss@[i]),
        Statement::Args(args) => forall|i: int| 0 <= i < args@.len() ==> expr_ok(#[trigger] args@[i].expr),
        Statement::If(c, t, e) => expr_ok(c) && stmt_ok(*t) && match e {
            Some(x) => stmt_ok(*x),
            None => true,
        },
        Statement::While(c, b) => expr_ok(c) && stmt_ok(*b),
        Statement::Expression(e) => expr_ok(e),
        Statement::VariableDefinition(d, init) => expr_ok(d.ty) && match init {
            Some(x) => expr_ok(x),
            None => true,
        },
        Statement::For(init, c, u, b) => (match init {
            Some(x) => stmt_ok(*x),
            None => true,
        }) && (match c {
            Some(x) => expr_ok(x),
            None => true,
        }) && (match u {
            Some(x) => expr_ok(x),
            None => true,
        }) && (match b {
            Some(x) => stmt_ok(*x),
            None => true,
        }),
        Statement::DoWhile(b, c) => stmt_ok(*b) && expr_ok(c),
        Statement::Return(v) => match v {
            Some(x) => expr_ok(x),
            None => true,
        },
        Statement::Revert(_, args) => forall|i: int| 0 <= i < args@.len() ==> expr_ok(#[trigger] args@[i]),
        Statement::RevertNamedArgs(_, args) => forall|i: int|
            0 <= i < args@.len() ==> expr_ok(#[trigger] args@[i].expr),
        Statement::Emit(e) => expr_ok(e),
        Statement::Try(e, rets, cs) => expr_ok(e) && (forall|i: int|
            0 <= i < rets@.len() ==> (#[trigger] rets@[i] matches Some(p) ==> expr_ok(p.ty))) && (forall|i: int|
            0 <= i < cs@.len() ==> clause_ok(#[trigger] cs@[i])),
        _ => true,
    }
}

/// Whether a catch clause can be laid out.
pub open spec fn clause_ok(c: CatchClause) -> bool
    decreases c,
{
    match c {
        CatchClause::Simple(p, body) => (match p {
            Some(x) => expr_ok(x.ty),
            None => true,
        }) && stmt_ok(body),
        CatchClause::Named(_, p, body) => expr_ok(p.ty) && stmt_ok(body),
    }
}

/// Whether the types of the return variables can be laid out.
pub open spec fn returns_ok(rv: Returns) -> bool {
    forall|i: int| 0 <= i < rv.types.len() ==> expr_ok(#[trigger] rv.types[i].1.ty)
}


/// The return variables of the enclosing function, as the statement
/// layout reads them: each with its parameter, those declared so far, and
/// those assigned once.
pub struct ReturnVarContext<'a> {
    pub return_var_types: Vec<(String, &'a TypedParameter)>,
    pub declared_return_vars: Vec<String>,
    pub single_assignment_vars: Vec<String>,
}

/// The return variables of a context.
pub open spec fn returns_of(c: ReturnVarContext<'_>) -> Returns {
    Returns { types: types_view(c.return_var_types@), single: str_views(c.single_assignment_vars@) }
}

/// The return variables with their names as text.
pub open spec fn types_view(v: Seq<(String, &TypedParameter)>) -> Seq<(Seq<char>, TypedParameter)> {
    v.map_values(|p: (String, &TypedParameter)| (p.0@, *p.1))
}

/// The scope of the renames `rn` with the return variables `declared`.
pub open spec fn scope_of(rn: Seq<(String, String)>, declared: Seq<String>) -> Scope {
    Scope { renames: pair_views(rn), declared: str_views(declared) }
}

/// Whether a name takes one byte.
fn one_byte(n: &str) -> (b: bool)
    ensures
        b == (utf8_len(n@) == 1),
{
    let cs = chars_of(n);
    if cs.len() == 1 {
        crate::text::utf8_length(cs.as_slice()) == 1
    } else {
        proof {
            crate::text::lemma_utf8_len(n@);
        }
        false
    }
}

/// Whether a name takes more than one byte.
fn longer_than_one_byte(n: &str) -> (b: bool)
    ensures
        b == (utf8_len(n@) > 1),
{
    proof {
        crate::text::lemma_utf8_len(n@);
    }
    let cs = chars_of(n);
    if cs.len() == 0 {
        false
    } else {
        !one_byte(n)
    }
}

/// Renames `k` to `v`: replaces the pair for `k`, or adds one at the end.
pub fn insert_rename_pair(rn: &mut Vec<(String, String)>, k: String, v: String)
    ensures
        pair_views(final(rn)@) == insert_rename(pair_views(old(rn)@), k@, v@),
{
    let ghost pv = pair_views(rn@);
    let kc = chars_of(k.as_str());
    let mut i: usize = 0;
    assert(pv.take(0) + pv.skip(0) =~= pv);
    while i < rn.len()
        invariant
            i <= rn@.len(),
            rn@ == old(rn)@,
            pv == pair_views(rn@),
            kc@ == k@,
            insert_rename(pv, k@, v@) == pv.take(i as int) + insert_rename(pv.skip(i as int), k@, v@),
        decreases rn@.len() - i,
    {
        assert(pv.skip(i as int)[0] == pv[i as int]);
        assert(pv[i as int] == (rn@[i as int].0@, rn@[i as int].1@));
        if crate::text::chars_equal(chars_of(rn[i].0.as_str()).as_slice(), kc.as_slice()) {
            let ghost vv = v@;
            rn.set(i, (k, v));
            assert(pair_views(rn@) =~= pv.take(i as int) + pv.skip(i as int).update(0, (k@, vv)));
            return;
        }
        assert(pv.skip(i as int).drop_first() =~= pv.skip(i + 1));
        assert(pv.take(i + 1) =~= pv.take(i as int) + seq![pv[i as int]]);
        i = i + 1;
    }
    assert(pv.skip(i as int) =~= Seq::<(Seq<char>, Seq<char>)>::empty());
    assert(pv.take(i as int) =~= pv);
    let ghost kv = (k@, v@);
    rn.push((k, v));
    assert(pair_views(rn@) =~= pv + seq![kv]);
}

/// Whether `n` is among the names `v`.
pub(crate) fn contains_name(v: &Vec<String>, n: &str) -> (b: bool)
    ensures
        b == str_views(v@).contains(n@),
{
    let nc = chars_of(n);
    let mut i: usize = 0;
    while i < v.len()
        invariant
            i <= v@.len(),
            nc@ == n@,
            forall|j: int| 0 <= j < i ==> (#[trigger] v@[j])@ != n@,
        decreases v@.len() - i,
    {
        if crate::text::chars_equal(chars_of(v[i].as_str()).as_slice(), nc.as_slice()) {
            assert(str_views(v@)[i as int] == n@);
            return true;
        }
        i = i + 1;
    }
    proof {
        if str_views(v@).contains(n@) {
            let j = choose|j: int| 0 <= j < str_views(v@).len() && str_views(v@)[j] == n@;
            assert(v@[j]@ == n@);
        }
    }
    false
}

/// The index of the first return variable named `n`.
fn find_return_param(types: &Vec<(String, &TypedParameter)>, n: &str) -> (r: Option<usize>)
    ensures
        match r {
            Some(i) => i < types@.len() && ret_param(types_view(types@), n@) == Some(*types@[i as int].1),
            None => ret_param(types_view(types@), n@) is None,
        },
{
    let ghost tv = types_view(types@);
    let nc = chars_of(n);
    let mut i: usize = 0;
    assert(tv.skip(0) =~= tv);
    while i < types.len()
        invariant
            i <= types@.len(),
            nc@ == n@,
            tv == types_view(types@),
            ret_param(tv, n@) == ret_param(tv.skip(i as int), n@),
        decreases types@.len() - i,
    {
        assert(tv.skip(i as int)[0] == tv[i as int]);
        if crate::text::chars_equal(chars_of(types[i].0.as_str()).as_slice(), nc.as_slice()) {
            return Some(i);
        }
        assert(tv.skip(i as int).drop_first() =~= tv.skip(i + 1));
        i = i + 1;
    }
    assert(tv.skip(i as int) =~= Seq::<(Seq<char>, TypedParameter)>::empty());
    None
}

/// Normalizes, in the renames, the names on the left side of a tuple
/// assignment that are longer than one byte.
fn apply_tuple_assign_renames(ps: &Vec<Option<TypedParameter>>, renames: &mut Vec<(String, String)>)
    ensures
        pair_views(final(renames)@) == tuple_assign_renames(ps@, pair_views(old(renames)@)),
{
    let ghost rn0 = pair_views(renames@);
    let mut i: usize = 0;
    assert(ps@.take(0) =~= Seq::<Option<TypedParameter>>::empty());
    while i < ps.len()
        invariant
            i <= ps@.len(),
            pair_views(renames@) == tuple_assign_renames(ps@.take(i as int), rn0),
        decreases ps@.len() - i,
    {
        assert(ps@.take(i + 1).drop_last() =~= ps@.take(i as int));
        assert(ps@.take(i + 1).last() == ps@[i as int]);
        match &ps[i] {
            Some(p) => match &p.name {
                Some(n) => {
                    if longer_than_one_byte(n.as_str()) {
                        let nn = crate::ir_builder::expressions::normalize_param_name(n.as_str());
                        if !crate::text::chars_equal(chars_of(nn.as_str()).as_slice(), chars_of(n.as_str()).as_slice()) {
                            insert_rename_pair(renames, n.clone(), nn);
                        }
                    }
                },
                None => {},
            },
            None => {},
        }
        i = i + 1;
    }
    assert(ps@.take(i as int) =~= ps@);
}


/// One element.
fn single(e: IRElement, Ghost(d): Ghost<Doc>) -> (v: Vec<IRElement>)
    requires
        doc_match(e, d),
    ensures
        docs(v@, seq![d]),
{
    let mut v: Vec<IRElement> = Vec::new();
    push_doc(&mut v, e, Ghost(Seq::empty()), Ghost(d));
    assert(Seq::<Doc>::empty().push(d) =~= seq![d]);
    v
}

/// Call options `{name: value, ...}` in one group.
fn format_args_with_renames(args: &Vec<NamedArgument>, renames: &[(String, String)]) -> (r: Vec<IRElement>)
    requires
        forall|i: int| 0 <= i < args@.len() ==> expr_ok(#[trigger] args@[i].expr),
    ensures
        docs(
            r@,
            seq![
                Doc::Group(seq![Doc::Text("{"@)] + args_docs(args@, pair_views(renames@)) + seq![Doc::Text("}"@)]),
            ],
        ),
{
    let ghost rn = pair_views(renames@);
    let mut v: Vec<IRElement> = Vec::new();
    push_text(&mut v, "{", Ghost(Seq::empty()));
    let ghost d0 = seq![Doc::Text("{"@)];
    assert(Seq::<Doc>::empty().push(Doc::Text("{"@)) =~= d0);
    let mut i: usize = 0;
    assert(args@.take(0) =~= Seq::<NamedArgument>::empty());
    while i < args.len()
        invariant
            i <= args@.len(),
            rn == pair_views(renames@),
            forall|j: int| 0 <= j < args@.len() ==> expr_ok(#[trigger] args@[j].expr),
            docs(v@, d0 + args_docs(args@.take(i as int), rn)),
        decreases args@.len() - i,
    {
        let ghost pre = d0 + args_docs(args@.take(i as int), rn);
        assert(args@.take(i + 1).drop_last() =~= args@.take(i as int));
        assert(args@.take(i + 1).last() == args@[i as int]);
        let ghost sep: Seq<Doc> = if i + 1 > 1 {
            seq![Doc::Text(","@), Doc::Soft]
        } else {
            Seq::empty()
        };
        if i > 0 {
            push_text(&mut v, ",", Ghost(pre));
            push_doc(&mut v, IRElement::SoftLineBreak, Ghost(pre.push(Doc::Text(","@))), Ghost(Doc::Soft));
            assert(pre.push(Doc::Text(","@)).push(Doc::Soft) =~= pre + sep);
        } else {
            assert(pre =~= pre + sep);
        }
        let x = crate::ir_builder::expressions::format_expression_with_renames(&args[i].expr, renames);
        let ev = elems3(
            IRElement::text(args[i].name.as_str()),
            IRElement::text(": "),
            x,
            Ghost(Doc::Text(args@[i as int].name@)),
            Ghost(Doc::Text(": "@)),
            Ghost(expr_doc(args@[i as int].expr, rn)),
        );
        let ghost ed = seq![Doc::Text(args@[i as int].name@), Doc::Text(": "@), expr_doc(args@[i as int].expr, rn)];
        push_block(&mut v, ev, Ghost(pre + sep), Ghost(ed));
        assert(pre + sep + ed =~= d0 + args_docs(args@.take(i + 1), rn));
        i = i + 1;
    }
    assert(args@.take(i as int) =~= args@);
    push_text(&mut v, "}", Ghost(d0 + args_docs(args@, rn)));
    let ghost all = seq![Doc::Text("{"@)] + args_docs(args@, rn) + seq![Doc::Text("}"@)];
    assert((d0 + args_docs(args@, rn)).push(Doc::Text("}"@)) =~= all);
    let g = group_of(v, Ghost(all));
    single(g, Ghost(Doc::Group(all)))
}

/// `return value;` in one group.
fn format_return_with_renames(val: &Option<Expression>, renames: &[(String, String)]) -> (r: Vec<IRElement>)
    requires
        match val {
            Some(x) => expr_ok(*x),
            None => true,
        },
    ensures
        docs(
            r@,
            seq![
                Doc::Group(seq![Doc::Text("return"@)] + return_value_docs(*val, pair_views(renames@)) + seq![Doc::Text(";"@)]),
            ],
        ),
{
    let ghost rn = pair_views(renames@);
    let ghost vd: Seq<Doc> = return_value_docs(*val, rn);
    let mut v: Vec<IRElement> = Vec::new();
    push_text(&mut v, "return", Ghost(Seq::empty()));
    let ghost d0 = seq![Doc::Text("return"@)];
    assert(Seq::<Doc>::empty().push(Doc::Text("return"@)) =~= d0);
    match val {
        Some(x) => {
            push_text(&mut v, " ", Ghost(d0));
            let xd = crate::ir_builder::expressions::format_expression_with_renames(x, renames);
            push_doc(&mut v, xd, Ghost(d0.push(Doc::Text(" "@))), Ghost(expr_doc(*x, rn)));
            assert(d0.push(Doc::Text(" "@)).push(expr_doc(*x, rn)) =~= d0 + vd);
        },
        None => {
            assert(d0 =~= d0 + vd);
        },
    }
    push_text(&mut v, ";", Ghost(d0 + vd));
    let ghost all = d0 + vd + seq![Doc::Text(";"@)];
    assert((d0 + vd).push(Doc::Text(";"@)) =~= all);
    let g = group_of(v, Ghost(all));
    single(g, Ghost(Doc::Group(all)))
}

/// Appends ` Error` after `revert` when an error is named.
fn push_error_name(v: &mut Vec<IRElement>, err: &Option<IdentifierPath>, Ghost(ds): Ghost<Seq<Doc>>)
    requires
        docs(old(v)@, ds),
    ensures
        docs(final(v)@, ds + err_docs(*err)),
{
    match err {
        Some(p) => {
            push_text(v, " ", Ghost(ds));
            let t = crate::ir_builder::ordering::format_identifier_path(p);
            push_text(v, t.as_str(), Ghost(ds.push(Doc::Text(" "@))));
            assert(ds.push(Doc::Text(" "@)).push(Doc::Text(identifier_path_text(*p))) =~= ds + err_docs(*err));
        },
        None => {
            assert(ds =~= ds + err_docs(*err));
        },
    }
}

/// Expressions separated by `, `, names renamed.
fn format_rlist(args: &Vec<Expression>, renames: &[(String, String)]) -> (r: Vec<IRElement>)
    requires
        forall|i: int| 0 <= i < args@.len() ==> expr_ok(#[trigger] args@[i]),
    ensures
        docs(r@, rlist_docs(args@, pair_views(renames@))),
{
    let ghost rn = pair_views(renames@);
    let mut v: Vec<IRElement> = Vec::new();
    let mut i: usize = 0;
    assert(args@.take(0) =~= Seq::<Expression>::empty());
    while i < args.len()
        invariant
            i <= args@.len(),
            rn == pair_views(renames@),
            forall|j: int| 0 <= j < args@.len() ==> expr_ok(#[trigger] args@[j]),
            docs(v@, rlist_docs(args@.take(i as int), rn)),
        decreases args@.len() - i,
    {
        let ghost pre = rlist_docs(args@.take(i as int), rn);
        assert(args@.take(i + 1).drop_last() =~= args@.take(i as int));
        assert(args@.take(i + 1).last() == args@[i as int]);
        let ghost sep: Seq<Doc> = if i + 1 > 1 {
            seq![Doc::Text(", "@)]
        } else {
            Seq::empty()
        };
        if i > 0 {
            push_text(&mut v, ", ", Ghost(pre));
            assert(pre.push(Doc::Text(", "@)) =~= pre + sep);
        } else {
            assert(pre =~= pre + sep);
        }
        let x = crate::ir_builder::expressions::format_expression_with_renames(&args[i], renames);
        push_doc(&mut v, x, Ghost(pre + sep), Ghost(expr_doc(args@[i as int], rn)));
        assert((pre + sep).push(expr_doc(args@[i as int], rn)) =~= rlist_docs(args@.take(i + 1), rn));
        i = i + 1;
    }
    assert(args@.take(i as int) =~= args@);
    v
}

/// `revert Error(args);` in one group, the arguments indented when they
/// break.
fn format_revert_with_renames(err: &Option<IdentifierPath>, args: &Vec<Expression>, renames: &[(String, String)]) -> (r:
    Vec<IRElement>)
    requires
        forall|i: int| 0 <= i < args@.len() ==> expr_ok(#[trigger] args@[i]),
    ensures
        docs(
            r@,
            stmt_laid(Statement::Revert(*err, *args), fresh(pair_views(renames@)), no_returns()).0,
        ),
{
    let ghost rn = pair_views(renames@);
    let mut v: Vec<IRElement> = Vec::new();
    push_text(&mut v, "revert", Ghost(Seq::empty()));
    let ghost d0 = seq![Doc::Text("revert"@)];
    assert(Seq::<Doc>::empty().push(Doc::Text("revert"@)) =~= d0);
    push_error_name(&mut v, err, Ghost(d0));
    let ghost d1 = d0 + err_docs(*err);
    push_text(&mut v, "(", Ghost(d1));
    let ghost d2 = d1.push(Doc::Text("("@));
    let ghost mid: Seq<Doc> = if args.len() > 0 {
        seq![Doc::Indent(seq![Doc::Softest, Doc::Group(rlist_docs(args@, rn))]), Doc::Softest]
    } else {
        Seq::empty()
    };
    if args.len() > 0 {
        let av = format_rlist(args, renames);
        let ag = group_of(av, Ghost(rlist_docs(args@, rn)));
        let iv = elems2(IRElement::SoftestLineBreak, ag, Ghost(Doc::Softest), Ghost(Doc::Group(rlist_docs(args@, rn))));
        let ghost id = seq![Doc::Softest, Doc::Group(rlist_docs(args@, rn))];
        let ind = indent_of(iv, Ghost(id));
        let part = elems2(ind, IRElement::SoftestLineBreak, Ghost(Doc::Indent(id)), Ghost(Doc::Softest));
        push_block(&mut v, part, Ghost(d2), Ghost(mid));
    } else {
        assert(d2 =~= d2 + mid);
    }
    push_text(&mut v, ");", Ghost(d2 + mid));
    let ghost all = seq![Doc::Text("revert"@)] + err_docs(*err) + seq![Doc::Text("("@)] + mid + seq![Doc::Text(");"@)];
    assert((d2 + mid).push(Doc::Text(");"@)) =~= all);
    let g = group_of(v, Ghost(all));
    single(g, Ghost(Doc::Group(all)))
}

/// `revert Error({name: value, ...});` in one group.
fn format_revert_named_with_renames(
    err: &Option<IdentifierPath>,
    args: &Vec<NamedArgument>,
    renames: &[(String, String)],
) -> (r: Vec<IRElement>)
    requires
        forall|i: int| 0 <= i < args@.len() ==> expr_ok(#[trigger] args@[i].expr),
    ensures
        docs(
            r@,
            stmt_laid(Statement::RevertNamedArgs(*err, *args), fresh(pair_views(renames@)), no_returns()).0,
        ),
{
    let ghost rn = pair_views(renames@);
    let mut v: Vec<IRElement> = Vec::new();
    push_text(&mut v, "revert", Ghost(Seq::empty()));
    let ghost d0 = seq![Doc::Text("revert"@)];
    assert(Seq::<Doc>::empty().push(Doc::Text("revert"@)) =~= d0);
    push_error_name(&mut v, err, Ghost(d0));
    let ghost d1 = d0 + err_docs(*err);
    push_text(&mut v, "({", Ghost(d1));
    let ghost d2 = d1.push(Doc::Text("({"@));
    let mut i: usize = 0;
    assert(args@.take(0) =~= Seq::<NamedArgument>::empty());
    assert(d2 =~= d2 + named_revert_docs(args@.take(0), rn));
    while i < args.len()
        invariant
            i <= args@.len(),
            rn == pair_views(renames@),
            forall|j: int| 0 <= j < args@.len() ==> expr_ok(#[trigger] args@[j].expr),
            docs(v@, d2 + named_revert_docs(args@.take(i as int), rn)),
        decreases args@.len() - i,
    {
        let ghost pre = d2 + named_revert_docs(args@.take(i as int), rn);
        assert(args@.take(i + 1).drop_last() =~= args@.take(i as int));
        assert(args@.take(i + 1).last() == args@[i as int]);
        let ghost sep: Seq<Doc> = if i + 1 > 1 {
            seq![Doc::Text(", "@)]
        } else {
            Seq::empty()
        };
        if i > 0 {
            push_text(&mut v, ", ", Ghost(pre));
            assert(pre.push(Doc::Text(", "@)) =~= pre + sep);
        } else {
            assert(pre =~= pre + sep);
        }
        let x = crate::ir_builder::expressions::format_expression_with_renames(&args[i].expr, renames);
        let ev = elems3(
            IRElement::text(args[i].name.as_str()),
            IRElement::text(": "),
            x,
            Ghost(Doc::Text(args@[i as int].name@)),
            Ghost(Doc::Text(": "@)),
            Ghost(expr_doc(args@[i as int].expr, rn)),
        );
        let ghost ed = seq![Doc::Text(args@[i as int].name@), Doc::Text(": "@), expr_doc(args@[i as int].expr, rn)];
        push_block(&mut v, ev, Ghost(pre + sep), Ghost(ed));
        assert(pre + sep + ed =~= d2 + named_revert_docs(args@.take(i + 1), rn));
        i = i + 1;
    }
    assert(args@.take(i as int) =~= args@);
    push_text(&mut v, "});", Ghost(d2 + named_revert_docs(args@, rn)));
    let ghost all = seq![Doc::Text("revert"@)] + err_docs(*err) + seq![Doc::Text("({"@)] + named_revert_docs(args@, rn)
        + seq![Doc::Text("});"@)];
    assert((d2 + named_revert_docs(args@, rn)).push(Doc::Text("});"@)) =~= all);
    let g = group_of(v, Ghost(all));
    single(g, Ghost(Doc::Group(all)))
}

/// `"text"`
fn quote(t: &String) -> (r: String)
    ensures
        r@ == quoted_text(t@),
{
    proof {
        reveal_strlit("\"");
    }
    let mut v: Vec<char> = Vec::new();
    v.push('"');
    crate::text::push_all(&mut v, chars_of(t.as_str()).as_slice());
    v.push('"');
    assert(v@ =~= quoted_text(t@));
    crate::text::string_from(v.as_slice())
}

/// An assembly statement: `assembly`, the quoted dialect, the quoted flags
/// in parentheses, and the block.
pub fn format_assembly(
    dialect: &Option<String>,
    flags: &Option<Vec<String>>,
    block: &YulBlock,
    renames: &mut Vec<(String, String)>,
) -> (r: Vec<IRElement>)
    ensures
        docs(r@, assembly_laid(*dialect, *flags, *block, pair_views(old(renames)@)).0),
        pair_views(final(renames)@) == assembly_laid(*dialect, *flags, *block, pair_views(old(renames)@)).1,
{
    let ghost rn = pair_views(renames@);
    let mut v: Vec<IRElement> = Vec::new();
    push_text(&mut v, "assembly", Ghost(Seq::empty()));
    let ghost d0 = seq![Doc::Text("assembly"@)];
    assert(Seq::<Doc>::empty().push(Doc::Text("assembly"@)) =~= d0);
    let ghost dd: Seq<Doc> = dialect_docs(*dialect);
    match dialect {
        Some(d) => {
            push_text(&mut v, " ", Ghost(d0));
            let q = quote(d);
            push_text(&mut v, q.as_str(), Ghost(d0.push(Doc::Text(" "@))));
            assert(d0.push(Doc::Text(" "@)).push(Doc::Text(quoted_text(d@))) =~= d0 + dd);
        },
        None => {
            assert(d0 =~= d0 + dd);
        },
    }
    let ghost d1 = d0 + dd;
    let ghost fd: Seq<Doc> = flags_docs(*flags);
    match flags {
        Some(f) => {
            if f.len() > 0 {
                push_text(&mut v, " ", Ghost(d1));
                push_text(&mut v, "(", Ghost(d1.push(Doc::Text(" "@))));
                let ghost d2 = d1.push(Doc::Text(" "@)).push(Doc::Text("("@));
                let mut i: usize = 0;
                assert(f@.take(0) =~= Seq::<String>::empty());
                assert(d2 =~= d2 + flag_docs(f@.take(0)));
                while i < f.len()
                    invariant
                        i <= f@.len(),
                        docs(v@, d2 + flag_docs(f@.take(i as int))),
                    decreases f@.len() - i,
                {
                    let ghost pre = d2 + flag_docs(f@.take(i as int));
                    assert(f@.take(i + 1).drop_last() =~= f@.take(i as int));
                    assert(f@.take(i + 1).last() == f@[i as int]);
                    let ghost sep: Seq<Doc> = if i + 1 > 1 {
                        seq![Doc::Text(", "@)]
                    } else {
                        Seq::empty()
                    };
                    if i > 0 {
                        push_text(&mut v, ", ", Ghost(pre));
                        assert(pre.push(Doc::Text(", "@)) =~= pre + sep);
                    } else {
                        assert(pre =~= pre + sep);
                    }
                    let q = quote(&f[i]);
                    push_text(&mut v, q.as_str(), Ghost(pre + sep));
                    assert((pre + sep).push(Doc::Text(quoted_text(f@[i as int]@))) =~= d2 + flag_docs(
                        f@.take(i + 1),
                    ));
                    i = i + 1;
                }
                assert(f@.take(i as int) =~= f@);
                push_text(&mut v, ")", Ghost(d2 + flag_docs(f@)));
                assert((d2 + flag_docs(f@)).push(Doc::Text(")"@)) =~= d1 + fd);
            } else {
                assert(d1 =~= d1 + fd);
            }
        },
        None => {
            assert(d1 =~= d1 + fd);
        },
    }
    push_text(&mut v, " ", Ghost(d1 + fd));
    let ghost bl = yblock_laid(*block, rn);
    let bv = crate::ir_builder::yul::format_yul_block_with_renames(block, renames);
    push_block(&mut v, bv, Ghost((d1 + fd).push(Doc::Text(" "@))), Ghost(bl.0));
    assert((d1 + fd).push(Doc::Text(" "@)) + bl.0 =~= assembly_laid(*dialect, *flags, *block, rn).0);
    v
}


/// Appends the name a declared local is written with, and records its
/// rename.
pub(crate) fn push_def_name(v: &mut Vec<IRElement>, n: &String, renames: &mut Vec<(String, String)>, Ghost(ds): Ghost<Seq<Doc>>)
    requires
        docs(old(v)@, ds),
    ensures
        docs(final(v)@, ds.push(Doc::Text(def_name_text(n@)))),
        pair_views(final(renames)@) == def_rename(pair_views(old(renames)@), n@),
{
    if one_byte(n.as_str()) {
        push_text(v, n.as_str(), Ghost(ds));
    } else {
        let nn = crate::ir_builder::expressions::normalize_param_name(n.as_str());
        if !crate::text::chars_equal(chars_of(nn.as_str()).as_slice(), chars_of(n.as_str()).as_slice()) {
            insert_rename_pair(renames, n.clone(), nn.clone());
        }
        push_text(v, nn.as_str(), Ghost(ds));
    }
}

/// A variable definition in one group: type, location and name (or the
/// slots of a tuple), then ` = ` and the initializer indented after a
/// softest break, then `;`. Names longer than one byte are normalized, and
/// the renames record them for what follows.
fn format_variable_definition_with_renames(
    decl: &VariableDeclaration,
    init: &Option<Expression>,
    renames: &mut Vec<(String, String)>,
) -> (r: Vec<IRElement>)
    requires
        expr_ok(decl.ty),
        match init {
            Some(x) => expr_ok(*x),
            None => true,
        },
    ensures
        docs(r@, vardef_laid(*decl, *init, pair_views(old(renames)@)).0),
        pair_views(final(renames)@) == vardef_laid(*decl, *init, pair_views(old(renames)@)).1,
{
    let ghost rn0 = pair_views(renames@);
    let ghost h = decl_head(*decl, rn0);
    let mut v: Vec<IRElement> = Vec::new();
    match &decl.ty {
        Expression::List(ps) => {
            push_text(&mut v, "(", Ghost(Seq::empty()));
            let ghost d0 = seq![Doc::Text("("@)];
            assert(Seq::<Doc>::empty().push(Doc::Text("("@)) =~= d0);
            let mut i: usize = 0;
            assert(ps@.take(0) =~= Seq::<Option<TypedParameter>>::empty());
            assert(d0 =~= d0 + tuple_decl_laid(ps@.take(0), rn0).0);
            while i < ps.len()
                invariant
                    i <= ps@.len(),
                    forall|j: int| 0 <= j < ps@.len() ==> (#[trigger] ps@[j] matches Some(p) ==> expr_ok(p.ty)),
                    docs(v@, d0 + tuple_decl_laid(ps@.take(i as int), rn0).0),
                    pair_views(renames@) == tuple_decl_laid(ps@.take(i as int), rn0).1,
                decreases ps@.len() - i,
            {
                let ghost pre = d0 + tuple_decl_laid(ps@.take(i as int), rn0).0;
                assert(ps@.take(i + 1).drop_last() =~= ps@.take(i as int));
                assert(ps@.take(i + 1).last() == ps@[i as int]);
                let ghost sep: Seq<Doc> = if i + 1 > 1 {
                    seq![Doc::Text(", "@)]
                } else {
                    Seq::empty()
                };
                if i > 0 {
                    push_text(&mut v, ", ", Ghost(pre));
                    assert(pre.push(Doc::Text(", "@)) =~= pre + sep);
                } else {
                    assert(pre =~= pre + sep);
                }
                match &ps[i] {
                    Some(p) => {
                        let td = crate::ir_builder::expressions::format_expression(&p.ty);
                        push_doc(&mut v, td, Ghost(pre + sep), Ghost(expr_doc(p.ty, Seq::empty())));
                        let ghost d1 = (pre + sep).push(expr_doc(p.ty, Seq::empty()));
                        crate::ir_builder::expressions::push_storage(&mut v, &p.storage, Ghost(d1));
                        let ghost d2 = d1 + storage_docs(p.storage);
                        match &p.name {
                            Some(n) => {
                                push_text(&mut v, " ", Ghost(d2));
                                push_def_name(&mut v, n, renames, Ghost(d2.push(Doc::Text(" "@))));
                                assert(d2.push(Doc::Text(" "@)).push(Doc::Text(def_name_text(n@))) =~= d0
                                    + tuple_decl_laid(ps@.take(i + 1), rn0).0);
                            },
                            None => {
                                assert(d2 =~= d0 + tuple_decl_laid(ps@.take(i + 1), rn0).0);
                            },
                        }
                    },
                    None => {
                        assert(pre + sep =~= d0 + tuple_decl_laid(ps@.take(i + 1), rn0).0);
                    },
                }
                i = i + 1;
            }
            assert(ps@.take(i as int) =~= ps@);
            push_text(&mut v, ")", Ghost(d0 + tuple_decl_laid(ps@, rn0).0));
            assert((d0 + tuple_decl_laid(ps@, rn0).0).push(Doc::Text(")"@)) =~= h.0);
        },
        _ => {
            let td = crate::ir_builder::expressions::format_expression(&decl.ty);
            push_doc(&mut v, td, Ghost(Seq::empty()), Ghost(expr_doc(decl.ty, Seq::empty())));
            let ghost d0 = seq![expr_doc(decl.ty, Seq::empty())];
            assert(Seq::<Doc>::empty().push(expr_doc(decl.ty, Seq::empty())) =~= d0);
            crate::ir_builder::expressions::push_storage(&mut v, &decl.storage, Ghost(d0));
            let ghost d1 = d0 + storage_docs(decl.storage);
            push_text(&mut v, " ", Ghost(d1));
            let ghost d2 = d1.push(Doc::Text(" "@));
            match &decl.name {
                Some(n) => {
                    push_def_name(&mut v, n, renames, Ghost(d2));
                    assert(d2.push(Doc::Text(def_name_text(n@))) =~= h.0);
                },
                None => {
                    assert(d2 =~= h.0);
                },
            }
        },
    }
    let ghost tail: Seq<Doc> = init_docs(*init, h.1);
    match init {
        Some(x) => {
            push_text(&mut v, " = ", Ghost(h.0));
            push_doc(&mut v, IRElement::SoftestLineBreak, Ghost(h.0.push(Doc::Text(" = "@))), Ghost(Doc::Softest));
            let xd = crate::ir_builder::expressions::format_expression_with_renames(x, renames.as_slice());
            let iv = single(xd, Ghost(expr_doc(*x, h.1)));
            let ghost xs = seq![expr_doc(*x, h.1)];
            let ind = indent_of(iv, Ghost(xs));
            push_doc(
                &mut v,
                ind,
                Ghost(h.0.push(Doc::Text(" = "@)).push(Doc::Softest)),
                Ghost(Doc::Indent(seq![expr_doc(*x, h.1)])),
            );
            assert(h.0.push(Doc::Text(" = "@)).push(Doc::Softest).push(Doc::Indent(seq![expr_doc(*x, h.1)])) =~= h.0
                + tail);
        },
        None => {
            assert(h.0 =~= h.0 + tail);
        },
    }
    push_text(&mut v, ";", Ghost(h.0 + tail));
    let ghost all = h.0 + tail + seq![Doc::Text(";"@)];
    assert((h.0 + tail).push(Doc::Text(";"@)) =~= all);
    let g = group_of(v, Ghost(all));
    single(g, Ghost(Doc::Group(all)))
}

/// An expression statement (see `expression_laid`): `return value;` for a
/// return variable assigned once, a declaration on the first assignment of
/// another, else the expression and `;`.
fn format_expression_statement(e: &Expression, renames: &mut Vec<(String, String)>, ctx: &mut ReturnVarContext<'_>) -> (r:
    Vec<IRElement>)
    requires
        expr_ok(*e),
        returns_ok(returns_of(*old(ctx))),
    ensures
        docs(
            r@,
            expression_laid(*e, scope_of(old(renames)@, old(ctx).declared_return_vars@), returns_of(*old(ctx))).0,
        ),
        pair_views(final(renames)@) == expression_laid(
            *e,
            scope_of(old(renames)@, old(ctx).declared_return_vars@),
            returns_of(*old(ctx)),
        ).1.renames,
        str_views(final(ctx).declared_return_vars@) == expression_laid(
            *e,
            scope_of(old(renames)@, old(ctx).declared_return_vars@),
            returns_of(*old(ctx)),
        ).1.declared,
        final(ctx).return_var_types == old(ctx).return_var_types,
        final(ctx).single_assignment_vars == old(ctx).single_assignment_vars,
{
    match e {
        Expression::Binary(BinaryOp::Assign, l, _) => match &**l {
            Expression::List(ps) => apply_tuple_assign_renames(ps, renames),
            _ => {},
        },
        _ => {},
    }
    let ghost rn1 = pair_views(renames@);
    match e {
        Expression::Binary(BinaryOp::Assign, l, r) => match &**l {
            Expression::Variable(v) => match find_return_param(&ctx.return_var_types, v.as_str()) {
                Some(idx) => {
                    if contains_name(&ctx.single_assignment_vars, v.as_str()) {
                        let mut out: Vec<IRElement> = Vec::new();
                        push_text(&mut out, "return", Ghost(Seq::empty()));
                        let ghost d0 = seq![Doc::Text("return"@)];
                        assert(Seq::<Doc>::empty().push(Doc::Text("return"@)) =~= d0);
                        push_text(&mut out, " ", Ghost(d0));
                        let rd = crate::ir_builder::expressions::format_expression_with_renames(&**r, renames.as_slice());
                        push_doc(&mut out, rd, Ghost(d0.push(Doc::Text(" "@))), Ghost(expr_doc(**r, rn1)));
                        push_text(&mut out, ";", Ghost(d0.push(Doc::Text(" "@)).push(expr_doc(**r, rn1))));
                        assert(d0.push(Doc::Text(" "@)).push(expr_doc(**r, rn1)).push(Doc::Text(";"@)) =~= seq![
                            Doc::Text("return"@),
                            Doc::Text(" "@),
                            expr_doc(**r, rn1),
                            Doc::Text(";"@),
                        ]);
                        return out;
                    }
                    if !contains_name(&ctx.declared_return_vars, v.as_str()) {
                        assert(returns_of(*ctx).types[idx as int].1 == *ctx.return_var_types@[idx as int].1);
                        let ghost p = *ctx.return_var_types@[idx as int].1;
                        let td = crate::ir_builder::expressions::format_expression(&ctx.return_var_types[idx].1.ty);
                        let mut out: Vec<IRElement> = Vec::new();
                        push_doc(&mut out, td, Ghost(Seq::empty()), Ghost(expr_doc(p.ty, Seq::empty())));
                        let ghost d0 = seq![expr_doc(p.ty, Seq::empty())];
                        assert(Seq::<Doc>::empty().push(expr_doc(p.ty, Seq::empty())) =~= d0);
                        crate::ir_builder::expressions::push_storage(
                            &mut out,
                            &ctx.return_var_types[idx].1.storage,
                            Ghost(d0),
                        );
                        let ghost d1 = d0 + storage_docs(p.storage);
                        let ghost dec0 = str_views(ctx.declared_return_vars@);
                        ctx.declared_return_vars.push(v.clone());
                        assert(str_views(ctx.declared_return_vars@) =~= dec0.push(v@));
                        let nn = crate::ir_builder::expressions::normalize_param_name(v.as_str());
                        if !crate::text::chars_equal(chars_of(nn.as_str()).as_slice(), chars_of(v.as_str()).as_slice()) {
                            insert_rename_pair(renames, v.clone(), nn.clone());
                        }
                        let ghost rn2 = pair_views(renames@);
                        push_text(&mut out, " ", Ghost(d1));
                        push_text(&mut out, nn.as_str(), Ghost(d1.push(Doc::Text(" "@))));
                        push_text(&mut out, " = ", Ghost(d1.push(Doc::Text(" "@)).push(Doc::Text(nn@))));
                        let ghost d4 = d1.push(Doc::Text(" "@)).push(Doc::Text(nn@)).push(Doc::Text(" = "@));
                        let rd = crate::ir_builder::expressions::format_expression_with_renames(&**r, renames.as_slice());
                        push_doc(&mut out, rd, Ghost(d4), Ghost(expr_doc(**r, rn2)));
                        push_text(&mut out, ";", Ghost(d4.push(expr_doc(**r, rn2))));
                        assert(d4.push(expr_doc(**r, rn2)).push(Doc::Text(";"@)) =~= seq![expr_doc(p.ty, Seq::empty())]
                            + storage_docs(p.storage) + seq![
                            Doc::Text(" "@),
                            Doc::Text(nn@),
                            Doc::Text(" = "@),
                            expr_doc(**r, rn2),
                            Doc::Text(";"@),
                        ]);
                        return out;
                    }
                },
                None => {},
            },
            _ => {},
        },
        _ => {},
    }
    let ed = crate::ir_builder::expressions::format_expression_with_renames(e, renames.as_slice());
    let out = elems2(ed, IRElement::text(";"), Ghost(expr_doc(*e, rn1)), Ghost(Doc::Text(";"@)));
    out
}


/// A statement laid out with the renames in force and no return
/// variables; the renames it makes are kept.
pub fn format_statement_with_renames(stmt: &Statement, renames: &mut Vec<(String, String)>) -> (r: Vec<IRElement>)
    requires
        stmt_ok(*stmt),
    ensures
        docs(r@, stmt_laid(*stmt, fresh(pair_views(old(renames)@)), no_returns()).0),
        pair_views(final(renames)@) == stmt_laid(*stmt, fresh(pair_views(old(renames)@)), no_returns()).1.renames,
    decreases *stmt, 3int,
{
    let mut ctx = ReturnVarContext {
        return_var_types: Vec::new(),
        declared_return_vars: Vec::new(),
        single_assignment_vars: Vec::new(),
    };
    assert(returns_of(ctx) =~= no_returns()) by {
        assert(types_view(ctx.return_var_types@) =~= Seq::<(Seq<char>, TypedParameter)>::empty());
        assert(str_views(ctx.single_assignment_vars@) =~= Seq::<Seq<char>>::empty());
    }
    assert(str_views(ctx.declared_return_vars@) =~= Seq::<Seq<char>>::empty());
    assert(scope_of(renames@, ctx.declared_return_vars@) == fresh(pair_views(renames@)));
    format_statement_full(stmt, renames, &mut ctx)
}

/// The layout of a statement (see `stmt_laid`), carrying the renames and
/// the declared return variables on to what follows.
pub fn format_statement_full(stmt: &Statement, renames: &mut Vec<(String, String)>, ctx: &mut ReturnVarContext<'_>) -> (r:
    Vec<IRElement>)
    requires
        stmt_ok(*stmt),
        returns_ok(returns_of(*old(ctx))),
    ensures
        docs(
            r@,
            stmt_laid(*stmt, scope_of(old(renames)@, old(ctx).declared_return_vars@), returns_of(*old(ctx))).0,
        ),
        pair_views(final(renames)@) == stmt_laid(
            *stmt,
            scope_of(old(renames)@, old(ctx).declared_return_vars@),
            returns_of(*old(ctx)),
        ).1.renames,
        str_views(final(ctx).declared_return_vars@) == stmt_laid(
            *stmt,
            scope_of(old(renames)@, old(ctx).declared_return_vars@),
            returns_of(*old(ctx)),
        ).1.declared,
        final(ctx).return_var_types == old(ctx).return_var_types,
        final(ctx).single_assignment_vars == old(ctx).single_assignment_vars,
    decreases *stmt, 2int,
{
    let ghost st = scope_of(renames@, ctx.declared_return_vars@);
    let ghost rv = returns_of(*ctx);
    match stmt {
        Statement::Block(ss) => {
            let mut v: Vec<IRElement> = Vec::new();
            push_text(&mut v, "{", Ghost(Seq::empty()));
            let ghost d0 = seq![Doc::Text("{"@)];
            assert(Seq::<Doc>::empty().push(Doc::Text("{"@)) =~= d0);
            let ghost b = block_laid(ss@, st, rv);
            let ghost mid: Seq<Doc> = if ss.len() > 0 {
                b.0 + seq![Doc::Hard]
            } else {
                Seq::empty()
            };
            if ss.len() > 0 {
                let items = format_block_statements(ss, renames, ctx);
                push_block(&mut v, items, Ghost(d0), Ghost(b.0));
                push_doc(&mut v, IRElement::HardLineBreak, Ghost(d0 + b.0), Ghost(Doc::Hard));
                assert((d0 + b.0).push(Doc::Hard) =~= d0 + mid);
            } else {
                assert(ss@ =~= Seq::<Statement>::empty());
                assert(d0 =~= d0 + mid);
            }
            push_text(&mut v, "}", Ghost(d0 + mid));
            assert((d0 + mid).push(Doc::Text("}"@)) =~= stmt_laid(*stmt, st, rv).0);
            v
        },
        Statement::Assembly { dialect, flags, block } => format_assembly(dialect, flags, block, renames),
        Statement::Args(args) => format_args_with_renames(args, renames.as_slice()),
        Statement::If(..) => format_if_with_renames(stmt, renames),
        Statement::While(..) => format_while_with_renames(stmt, renames),
        Statement::Expression(e) => format_expression_statement(e, renames, ctx),
        Statement::VariableDefinition(d, init) => format_variable_definition_with_renames(d, init, renames),
        Statement::For(..) => format_for_with_renames(stmt, renames),
        Statement::DoWhile(..) => format_do_while_with_renames(stmt, renames),
        Statement::Continue => {
            let v = single(IRElement::text("continue;"), Ghost(Doc::Text("continue;"@)));
            v
        },
        Statement::Break => {
            let v = single(IRElement::text("break;"), Ghost(Doc::Text("break;"@)));
            v
        },
        Statement::Return(val) => format_return_with_renames(val, renames.as_slice()),
        Statement::Revert(err, args) => format_revert_with_renames(err, args, renames.as_slice()),
        Statement::RevertNamedArgs(err, args) => format_revert_named_with_renames(err, args, renames.as_slice()),
        Statement::Emit(e) => {
            let ed = crate::ir_builder::expressions::format_expression_with_renames(e, renames.as_slice());
            let v = elems4(
                IRElement::text("emit"),
                IRElement::text(" "),
                ed,
                IRElement::text(";"),
                Ghost(Doc::Text("emit"@)),
                Ghost(Doc::Text(" "@)),
                Ghost(expr_doc(*e, st.renames)),
                Ghost(Doc::Text(";"@)),
            );
            v
        },
        Statement::Try(..) => format_try_with_renames(stmt, renames),
        Statement::Error => {
            let v = single(IRElement::text("/* error statement */"), Ghost(Doc::Text("/* error statement */"@)));
            v
        },
    }
}

/// The statements of a block, each after a hard break on an indented line.
fn format_block_statements(ss: &Vec<Statement>, renames: &mut Vec<(String, String)>, ctx: &mut ReturnVarContext<'_>) -> (r:
    Vec<IRElement>)
    requires
        forall|i: int| 0 <= i < ss@.len() ==> stmt_ok(#[trigger] ss@[i]),
        returns_ok(returns_of(*old(ctx))),
    ensures
        docs(
            r@,
            block_laid(ss@, scope_of(old(renames)@, old(ctx).declared_return_vars@), returns_of(*old(ctx))).0,
        ),
        pair_views(final(renames)@) == block_laid(
            ss@,
            scope_of(old(renames)@, old(ctx).declared_return_vars@),
            returns_of(*old(ctx)),
        ).1.renames,
        str_views(final(ctx).declared_return_vars@) == block_laid(
            ss@,
            scope_of(old(renames)@, old(ctx).declared_return_vars@),
            returns_of(*old(ctx)),
        ).1.declared,
        final(ctx).return_var_types == old(ctx).return_var_types,
        final(ctx).single_assignment_vars == old(ctx).single_assignment_vars,
    decreases ss@, 0int,
{
    let ghost st0 = scope_of(renames@, ctx.declared_return_vars@);
    let ghost rv = returns_of(*ctx);
    let ghost types0 = ctx.return_var_types;
    let ghost single0 = ctx.single_assignment_vars;
    let mut v: Vec<IRElement> = Vec::new();
    let mut i: usize = 0;
    assert(ss@.take(0) =~= Seq::<Statement>::empty());
    while i < ss.len()
        invariant
            i <= ss@.len(),
            forall|j: int| 0 <= j < ss@.len() ==> stmt_ok(#[trigger] ss@[j]),
            returns_ok(rv),
            ctx.return_var_types == types0,
            ctx.single_assignment_vars == single0,
            rv == returns_of(*ctx),
            docs(v@, block_laid(ss@.take(i as int), st0, rv).0),
            pair_views(renames@) == block_laid(ss@.take(i as int), st0, rv).1.renames,
            str_views(ctx.declared_return_vars@) == block_laid(ss@.take(i as int), st0, rv).1.declared,
        decreases ss@.len() - i,
    {
        let ghost p = block_laid(ss@.take(i as int), st0, rv);
        assert(ss@.take(i + 1).drop_last() =~= ss@.take(i as int));
        assert(ss@.take(i + 1).last() == ss@[i as int]);
        assert(scope_of(renames@, ctx.declared_return_vars@) == p.1);
        let ghost q = stmt_laid(ss@[i as int], p.1, rv);
        push_doc(&mut v, IRElement::HardLineBreak, Ghost(p.0), Ghost(Doc::Hard));
        let sd = format_statement_full(&ss[i], renames, ctx);
        let ind = indent_of(sd, Ghost(q.0));
        push_doc(&mut v, ind, Ghost(p.0.push(Doc::Hard)), Ghost(Doc::Indent(q.0)));
        assert(p.0.push(Doc::Hard).push(Doc::Indent(q.0)) =~= block_laid(ss@.take(i + 1), st0, rv).0);
        i = i + 1;
    }
    assert(ss@.take(i as int) =~= ss@);
    v
}

/// An `if`: the header, the then-statement, and ` else ` with the
/// else-statement.
fn format_if_with_renames(stmt: &Statement, renames: &mut Vec<(String, String)>) -> (r: Vec<IRElement>)
    requires
        stmt is If,
        stmt_ok(*stmt),
    ensures
        docs(r@, stmt_laid(*stmt, fresh(pair_views(old(renames)@)), no_returns()).0),
        pair_views(final(renames)@) == stmt_laid(*stmt, fresh(pair_views(old(renames)@)), no_returns()).1.renames,
    decreases *stmt, 1int,
{
    let ghost rn0 = pair_views(renames@);
    match stmt {
        Statement::If(c, t, e) => {
            let cd = crate::ir_builder::expressions::format_expression_with_renames(c, renames.as_slice());
            let iv = elems2(IRElement::SoftestLineBreak, cd, Ghost(Doc::Softest), Ghost(expr_doc(*c, rn0)));
            let ghost id = seq![Doc::Softest, expr_doc(*c, rn0)];
            let ind = indent_of(iv, Ghost(id));
            let hv = elems4(
                IRElement::text("if ("),
                ind,
                IRElement::SoftestLineBreak,
                IRElement::text(") "),
                Ghost(Doc::Text("if ("@)),
                Ghost(Doc::Indent(id)),
                Ghost(Doc::Softest),
                Ghost(Doc::Text(") "@)),
            );
            let ghost hd = seq![Doc::Text("if ("@), Doc::Indent(id), Doc::Softest, Doc::Text(") "@)];
            let header = group_of(hv, Ghost(hd));
            let mut v = single(header, Ghost(if_header(*c, rn0)));
            let ghost d0 = seq![if_header(*c, rn0)];
            let ghost tl = stmt_laid(**t, fresh(rn0), no_returns());
            let tv = format_statement_with_renames(&**t, renames);
            push_block(&mut v, tv, Ghost(d0), Ghost(tl.0));
            match e {
                Some(x) => {
                    let ghost xl = stmt_laid(**x, fresh(tl.1.renames), no_returns());
                    push_text(&mut v, " else ", Ghost(d0 + tl.0));
                    let xv = format_statement_with_renames(&**x, renames);
                    push_block(&mut v, xv, Ghost((d0 + tl.0).push(Doc::Text(" else "@))), Ghost(xl.0));
                    assert((d0 + tl.0).push(Doc::Text(" else "@)) + xl.0 =~= d0 + tl.0 + (seq![Doc::Text(" else "@)]
                        + xl.0));
                },
                None => {
                    assert(d0 + tl.0 =~= d0 + tl.0 + Seq::<Doc>::empty());
                },
            }
            v
        },
        _ => Vec::new(),
    }
}

/// `while (condition) body`
fn format_while_with_renames(stmt: &Statement, renames: &mut Vec<(String, String)>) -> (r: Vec<IRElement>)
    requires
        stmt is While,
        stmt_ok(*stmt),
    ensures
        docs(r@, stmt_laid(*stmt, fresh(pair_views(old(renames)@)), no_returns()).0),
        pair_views(final(renames)@) == stmt_laid(*stmt, fresh(pair_views(old(renames)@)), no_returns()).1.renames,
    decreases *stmt, 1int,
{
    let ghost rn0 = pair_views(renames@);
    match stmt {
        Statement::While(c, b) => {
            let cd = crate::ir_builder::expressions::format_expression_with_renames(c, renames.as_slice());
            let mut v = elems3(
                IRElement::text("while ("),
                cd,
                IRElement::text(") "),
                Ghost(Doc::Text("while ("@)),
                Ghost(expr_doc(*c, rn0)),
                Ghost(Doc::Text(") "@)),
            );
            let ghost d0 = seq![Doc::Text("while ("@), expr_doc(*c, rn0), Doc::Text(") "@)];
            let ghost bl = stmt_laid(**b, fresh(rn0), no_returns());
            let bv = format_statement_with_renames(&**b, renames);
            push_block(&mut v, bv, Ghost(d0), Ghost(bl.0));
            v
        },
        _ => Vec::new(),
    }
}

/// `for (init condition; update) body`; a missing init or body is `;`.
fn format_for_with_renames(stmt: &Statement, renames: &mut Vec<(String, String)>) -> (r: Vec<IRElement>)
    requires
        stmt is For,
        stmt_ok(*stmt),
    ensures
        docs(r@, stmt_laid(*stmt, fresh(pair_views(old(renames)@)), no_returns()).0),
        pair_views(final(renames)@) == stmt_laid(*stmt, fresh(pair_views(old(renames)@)), no_returns()).1.renames,
    decreases *stmt, 1int,
{
    let ghost rn0 = pair_views(renames@);
    match stmt {
        Statement::For(init, c, u, b) => {
            let mut v: Vec<IRElement> = Vec::new();
            push_text(&mut v, "for (", Ghost(Seq::empty()));
            let ghost d0 = seq![Doc::Text("for ("@)];
            assert(Seq::<Doc>::empty().push(Doc::Text("for ("@)) =~= d0);
            let ghost mut il: (Seq<Doc>, Scope) = (seq![Doc::Text(";"@)], fresh(rn0));
            match init {
                Some(x) => {
                    proof {
                        il = stmt_laid(**x, fresh(rn0), no_returns());
                    }
                    let iv = format_statement_with_renames(&**x, renames);
                    push_block(&mut v, iv, Ghost(d0), Ghost(il.0));
                },
                None => {
                    push_text(&mut v, ";", Ghost(d0));
                    assert(d0.push(Doc::Text(";"@)) =~= d0 + il.0);
                },
            }
            let ghost rn1 = il.1.renames;
            assert(pair_views(renames@) == rn1);
            let ghost d1 = d0 + il.0;
            push_text(&mut v, " ", Ghost(d1));
            let ghost cd: Seq<Doc> = opt_docs(*c, rn1);
            match c {
                Some(x) => {
                    let xd = crate::ir_builder::expressions::format_expression_with_renames(x, renames.as_slice());
                    push_doc(&mut v, xd, Ghost(d1.push(Doc::Text(" "@))), Ghost(expr_doc(*x, rn1)));
                    assert(d1.push(Doc::Text(" "@)).push(expr_doc(*x, rn1)) =~= d1.push(Doc::Text(" "@)) + cd);
                },
                None => {
                    assert(d1.push(Doc::Text(" "@)) =~= d1.push(Doc::Text(" "@)) + cd);
                },
            }
            let ghost d2 = d1.push(Doc::Text(" "@)) + cd;
            push_text(&mut v, "; ", Ghost(d2));
            let ghost ud: Seq<Doc> = opt_docs(*u, rn1);
            match u {
                Some(x) => {
                    let xd = crate::ir_builder::expressions::format_expression_with_renames(x, renames.as_slice());
                    push_doc(&mut v, xd, Ghost(d2.push(Doc::Text("; "@))), Ghost(expr_doc(*x, rn1)));
                    assert(d2.push(Doc::Text("; "@)).push(expr_doc(*x, rn1)) =~= d2.push(Doc::Text("; "@)) + ud);
                },
                None => {
                    assert(d2.push(Doc::Text("; "@)) =~= d2.push(Doc::Text("; "@)) + ud);
                },
            }
            let ghost d3 = d2.push(Doc::Text("; "@)) + ud;
            push_text(&mut v, ") ", Ghost(d3));
            let ghost d4 = d3.push(Doc::Text(") "@));
            let ghost mut bl: (Seq<Doc>, Scope) = (seq![Doc::Text(";"@)], fresh(rn1));
            match b {
                Some(x) => {
                    proof {
                        bl = stmt_laid(**x, fresh(rn1), no_returns());
                    }
                    let bv = format_statement_with_renames(&**x, renames);
                    push_block(&mut v, bv, Ghost(d4), Ghost(bl.0));
                },
                None => {
                    push_text(&mut v, ";", Ghost(d4));
                    assert(d4.push(Doc::Text(";"@)) =~= d4 + bl.0);
                },
            }
            assert(d4 + bl.0 =~= stmt_laid(*stmt, fresh(rn0), no_returns()).0);
            v
        },
        _ => Vec::new(),
    }
}

/// `do body while (condition);`
fn format_do_while_with_renames(stmt: &Statement, renames: &mut Vec<(String, String)>) -> (r: Vec<IRElement>)
    requires
        stmt is DoWhile,
        stmt_ok(*stmt),
    ensures
        docs(r@, stmt_laid(*stmt, fresh(pair_views(old(renames)@)), no_returns()).0),
        pair_views(final(renames)@) == stmt_laid(*stmt, fresh(pair_views(old(renames)@)), no_returns()).1.renames,
    decreases *stmt, 1int,
{
    let ghost rn0 = pair_views(renames@);
    match stmt {
        Statement::DoWhile(b, c) => {
            let mut v = elems2(IRElement::text("do"), IRElement::text(" "), Ghost(Doc::Text("do"@)), Ghost(Doc::Text(" "@)));
            let ghost d0 = seq![Doc::Text("do"@), Doc::Text(" "@)];
            let ghost bl = stmt_laid(**b, fresh(rn0), no_returns());
            let bv = format_statement_with_renames(&**b, renames);
            push_block(&mut v, bv, Ghost(d0), Ghost(bl.0));
            let ghost rn1 = bl.1.renames;
            push_text(&mut v, " while (", Ghost(d0 + bl.0));
            let cd = crate::ir_builder::expressions::format_expression_with_renames(c, renames.as_slice());
            push_doc(&mut v, cd, Ghost((d0 + bl.0).push(Doc::Text(" while ("@))), Ghost(expr_doc(*c, rn1)));
            push_text(&mut v, ");", Ghost((d0 + bl.0).push(Doc::Text(" while ("@)).push(expr_doc(*c, rn1))));
            assert((d0 + bl.0).push(Doc::Text(" while ("@)).push(expr_doc(*c, rn1)).push(Doc::Text(");"@)) =~= d0 + bl.0
                + seq![Doc::Text(" while ("@), expr_doc(*c, rn1), Doc::Text(");"@)]);
            v
        },
        _ => Vec::new(),
    }
}

/// `try call returns (params)` and the catch clauses.
fn format_try_with_renames(stmt: &Statement, renames: &mut Vec<(String, String)>) -> (r: Vec<IRElement>)
    requires
        stmt is Try,
        stmt_ok(*stmt),
    ensures
        docs(r@, stmt_laid(*stmt, fresh(pair_views(old(renames)@)), no_returns()).0),
        pair_views(final(renames)@) == stmt_laid(*stmt, fresh(pair_views(old(renames)@)), no_returns()).1.renames,
    decreases *stmt, 1int,
{
    let ghost rn0 = pair_views(renames@);
    match stmt {
        Statement::Try(e, rets, cs) => {
            let ed = crate::ir_builder::expressions::format_expression_with_renames(e, renames.as_slice());
            let mut v = elems3(
                IRElement::text("try"),
                IRElement::text(" "),
                ed,
                Ghost(Doc::Text("try"@)),
                Ghost(Doc::Text(" "@)),
                Ghost(expr_doc(*e, rn0)),
            );
            let ghost d0 = seq![Doc::Text("try"@), Doc::Text(" "@), expr_doc(*e, rn0)];
            let ghost rd: Seq<Doc> = if rets.len() > 0 {
                seq![Doc::Text(" returns ("@)] + fn_params_docs(rets@) + seq![Doc::Text(")"@)]
            } else {
                Seq::empty()
            };
            if rets.len() > 0 {
                push_text(&mut v, " returns (", Ghost(d0));
                let pv = crate::ir_builder::expressions::format_fn_params(rets);
                push_block(&mut v, pv, Ghost(d0.push(Doc::Text(" returns ("@))), Ghost(fn_params_docs(rets@)));
                push_text(&mut v, ")", Ghost(d0.push(Doc::Text(" returns ("@)) + fn_params_docs(rets@)));
                assert((d0.push(Doc::Text(" returns ("@)) + fn_params_docs(rets@)).push(Doc::Text(")"@)) =~= d0 + rd);
            } else {
                assert(d0 =~= d0 + rd);
            }
            let ghost cl = clauses_laid(cs@, rn0);
            let cv = format_catch_clauses(cs, renames);
            push_block(&mut v, cv, Ghost(d0 + rd), Ghost(cl.0));
            v
        },
        _ => Vec::new(),
    }
}

/// The catch clauses of a `try`.
fn format_catch_clauses(cs: &Vec<CatchClause>, renames: &mut Vec<(String, String)>) -> (r: Vec<IRElement>)
    requires
        forall|i: int| 0 <= i < cs@.len() ==> clause_ok(#[trigger] cs@[i]),
    ensures
        docs(r@, clauses_laid(cs@, pair_views(old(renames)@)).0),
        pair_views(final(renames)@) == clauses_laid(cs@, pair_views(old(renames)@)).1,
    decreases cs@, 0int,
{
    let ghost rn0 = pair_views(renames@);
    let mut v: Vec<IRElement> = Vec::new();
    let mut i: usize = 0;
    assert(cs@.take(0) =~= Seq::<CatchClause>::empty());
    while i < cs.len()
        invariant
            i <= cs@.len(),
            forall|j: int| 0 <= j < cs@.len() ==> clause_ok(#[trigger] cs@[j]),
            docs(v@, clauses_laid(cs@.take(i as int), rn0).0),
            pair_views(renames@) == clauses_laid(cs@.take(i as int), rn0).1,
        decreases cs@.len() - i,
    {
        let ghost p = clauses_laid(cs@.take(i as int), rn0);
        assert(cs@.take(i + 1).drop_last() =~= cs@.take(i as int));
        assert(cs@.take(i + 1).last() == cs@[i as int]);
        match &cs[i] {
            CatchClause::Simple(param, body) => {
                push_text(&mut v, " catch ", Ghost(p.0));
                let ghost d1 = p.0.push(Doc::Text(" catch "@));
                let ghost pd: Seq<Doc> = catch_param_docs(*param);
                match param {
                    Some(x) => {
                        push_text(&mut v, "(", Ghost(d1));
                        let xv = crate::ir_builder::expressions::format_parameter_with_options(x, true, false);
                        push_block(&mut v, xv, Ghost(d1.push(Doc::Text("("@))), Ghost(param_docs(*x, true, false)));
                        push_text(&mut v, ")", Ghost(d1.push(Doc::Text("("@)) + param_docs(*x, true, false)));
                        assert((d1.push(Doc::Text("("@)) + param_docs(*x, true, false)).push(Doc::Text(")"@)) =~= d1
                            + pd);
                    },
                    None => {
                        assert(d1 =~= d1 + pd);
                    },
                }
                push_text(&mut v, " ", Ghost(d1 + pd));
                let ghost q = stmt_laid(*body, fresh(p.1), no_returns());
                let bv = format_statement_with_renames(body, renames);
                push_block(&mut v, bv, Ghost((d1 + pd).push(Doc::Text(" "@))), Ghost(q.0));
                assert((d1 + pd).push(Doc::Text(" "@)) + q.0 =~= clauses_laid(cs@.take(i + 1), rn0).0);
            },
            CatchClause::Named(name, param, body) => {
                push_text(&mut v, " catch ", Ghost(p.0));
                push_text(&mut v, name.as_str(), Ghost(p.0.push(Doc::Text(" catch "@))));
                push_text(&mut v, "(", Ghost(p.0.push(Doc::Text(" catch "@)).push(Doc::Text(name@))));
                let ghost d3 = p.0.push(Doc::Text(" catch "@)).push(Doc::Text(name@)).push(Doc::Text("("@));
                let xv = crate::ir_builder::expressions::format_parameter_with_options(param, true, false);
                push_block(&mut v, xv, Ghost(d3), Ghost(param_docs(*param, true, false)));
                push_text(&mut v, ")", Ghost(d3 + param_docs(*param, true, false)));
                push_text(&mut v, " ", Ghost((d3 + param_docs(*param, true, false)).push(Doc::Text(")"@))));
                let ghost d5 = (d3 + param_docs(*param, true, false)).push(Doc::Text(")"@)).push(Doc::Text(" "@));
                let ghost q = stmt_laid(*body, fresh(p.1), no_returns());
                let bv = format_statement_with_renames(body, renames);
                push_block(&mut v, bv, Ghost(d5), Ghost(q.0));
                assert(d5 + q.0 =~= clauses_laid(cs@.take(i + 1), rn0).0);
            },
        }
        i = i + 1;
    }
    assert(cs@.take(i as int) =~= cs@);
    v
}


/// A statement wrapped in braces on its own indented line.
pub open spec fn braced(d: Seq<Doc>) -> Seq<Doc> {
    seq![Doc::Text("{"@), Doc::Hard, Doc::Indent(d), Doc::Hard, Doc::Text("}"@)]
}

/// The layout of a statement with its comments (the comments first, see
/// `with_comments_docs`), and the scope after it. A block with its
/// statements collected lays them out with their comments. An `if` always
/// braces its then-part (a collected block with a blank line before each
/// commented statement), and braces its else-part unless that is a block
/// or another `if`. The renames and return variables carry through.
pub open spec fn cstmt_laid(cs: CommentedStatement, st: Scope, rv: Returns) -> (Seq<Doc>, Scope)
    decreases cs,
{
    let inner: (Seq<Doc>, Scope) = match cs.statement {
        Statement::If(c, t, e) => {
            let th: (Seq<Doc>, Scope) = match *t {
                Statement::Block(_) => match cs.nested_statements {
                    Some(n) => {
                        let b = cblock_laid(n@, st, rv, true);
                        (
                            seq![Doc::Text("{"@)] + (if n.len() > 0 {
                                b.0 + seq![Doc::Hard]
                            } else {
                                Seq::empty()
                            }) + seq![Doc::Text("}"@)],
                            b.1,
                        )
                    },
                    None => stmt_laid(*t, st, rv),
                },
                _ => {
                    let x = stmt_laid(*t, st, rv);
                    (braced(x.0), x.1)
                },
            };
            let el: (Seq<Doc>, Scope) = match e {
                Some(x) => {
                    let y = stmt_laid(*x, th.1, rv);
                    if (*x is Block) || (*x is If) {
                        (seq![Doc::Text(" else "@)] + y.0, y.1)
                    } else {
                        (seq![Doc::Text(" else "@)] + braced(y.0), y.1)
                    }
                },
                None => (Seq::empty(), th.1),
            };
            (seq![if_header(c, st.renames)] + th.0 + el.0, el.1)
        },
        Statement::Block(_) => match cs.nested_statements {
            Some(n) => {
                let b = cblock_laid(n@, st, rv, false);
                (
                    seq![Doc::Text("{"@)] + (if n.len() > 0 {
                        b.0 + seq![Doc::Hard]
                    } else {
                        Seq::empty()
                    }) + seq![Doc::Text("}"@)],
                    b.1,
                )
            },
            None => stmt_laid(cs.statement, st, rv),
        },
        _ => stmt_laid(cs.statement, st, rv),
    };
    (with_comments_docs(cs.leading_comments@, cs.trailing_comments@) + inner.0, inner.1)
}

/// Commented statements, each after a hard break (and, when `blank`, one
/// more before a statement with leading comments) on an indented line.
pub open spec fn cblock_laid(ss: Seq<CommentedStatement>, st: Scope, rv: Returns, blank: bool) -> (Seq<Doc>, Scope)
    decreases ss,
{
    if ss.len() == 0 {
        (Seq::empty(), st)
    } else {
        let p = cblock_laid(ss.drop_last(), st, rv, blank);
        let q = cstmt_laid(ss.last(), p.1, rv);
        (
            p.0 + seq![Doc::Hard] + (if blank && ss.last().leading_comments.len() > 0 {
                seq![Doc::Hard]
            } else {
                Seq::empty()
            }) + seq![Doc::Indent(q.0)],
            q.1,
        )
    }
}

/// Whether every statement in a commented statement can be laid out.
pub open spec fn cstmt_ok(cs: CommentedStatement) -> bool
    decreases cs,
{
    stmt_ok(cs.statement) && match cs.nested_statements {
        Some(n) => forall|i: int| 0 <= i < n@.len() ==> cstmt_ok(#[trigger] n@[i]),
        None => true,
    }
}

/// Appends `{`, the element on an indented line, and `}`.
fn push_braced(v: &mut Vec<IRElement>, inner: Vec<IRElement>, Ghost(ds): Ghost<Seq<Doc>>, Ghost(d): Ghost<Seq<Doc>>)
    requires
        docs(old(v)@, ds),
        docs(inner@, d),
    ensures
        docs(final(v)@, ds + braced(d)),
{
    let ind = indent_of(inner, Ghost(d));
    push_text(v, "{", Ghost(ds));
    push_doc(v, IRElement::HardLineBreak, Ghost(ds.push(Doc::Text("{"@))), Ghost(Doc::Hard));
    push_doc(v, ind, Ghost(ds.push(Doc::Text("{"@)).push(Doc::Hard)), Ghost(Doc::Indent(d)));
    push_doc(
        v,
        IRElement::HardLineBreak,
        Ghost(ds.push(Doc::Text("{"@)).push(Doc::Hard).push(Doc::Indent(d))),
        Ghost(Doc::Hard),
    );
    push_text(v, "}", Ghost(ds.push(Doc::Text("{"@)).push(Doc::Hard).push(Doc::Indent(d)).push(Doc::Hard)));
    assert(ds.push(Doc::Text("{"@)).push(Doc::Hard).push(Doc::Indent(d)).push(Doc::Hard).push(Doc::Text("}"@)) =~= ds
        + braced(d));
}

/// A statement with its comments (see `cstmt_laid`).
pub fn build_statement_ir_full(
    stmt: &CommentedStatement,
    renames: &mut Vec<(String, String)>,
    ctx: &mut ReturnVarContext<'_>,
) -> (r: Vec<IRElement>)
    requires
        cstmt_ok(*stmt),
        returns_ok(returns_of(*old(ctx))),
    ensures
        docs(
            r@,
            cstmt_laid(*stmt, scope_of(old(renames)@, old(ctx).declared_return_vars@), returns_of(*old(ctx))).0,
        ),
        pair_views(final(renames)@) == cstmt_laid(
            *stmt,
            scope_of(old(renames)@, old(ctx).declared_return_vars@),
            returns_of(*old(ctx)),
        ).1.renames,
        str_views(final(ctx).declared_return_vars@) == cstmt_laid(
            *stmt,
            scope_of(old(renames)@, old(ctx).declared_return_vars@),
            returns_of(*old(ctx)),
        ).1.declared,
        final(ctx).return_var_types == old(ctx).return_var_types,
        final(ctx).single_assignment_vars == old(ctx).single_assignment_vars,
    decreases *stmt, 2int,
{
    let ghost st = scope_of(renames@, ctx.declared_return_vars@);
    let ghost rv = returns_of(*ctx);
    let ghost res = cstmt_laid(*stmt, st, rv);
    let ghost wd = with_comments_docs(stmt.leading_comments@, stmt.trailing_comments@);
    let element = match &stmt.statement {
        Statement::If(..) => build_if_ir_full(stmt, renames, ctx),
        Statement::Block(_) => match &stmt.nested_statements {
            Some(n) => {
                let el = format_block_full(n, renames, ctx);
                proof {
                    let b = cblock_laid(n@, st, rv, false);
                    assert(res.0.skip(wd.len() as int) =~= seq![Doc::Text("{"@)] + (if n@.len() > 0 {
                        b.0 + seq![Doc::Hard]
                    } else {
                        Seq::empty()
                    }) + seq![Doc::Text("}"@)]);
                }
                el
            },
            None => {
                let el = format_statement_full(&stmt.statement, renames, ctx);
                assert(res.0.skip(wd.len() as int) =~= stmt_laid(stmt.statement, st, rv).0);
                el
            },
        },
        _ => {
            let el = format_statement_full(&stmt.statement, renames, ctx);
            assert(res.0.skip(wd.len() as int) =~= stmt_laid(stmt.statement, st, rv).0);
            el
        },
    };
    let ghost ed = element@;
    let r = with_comments(stmt.leading_comments.as_slice(), stmt.trailing_comments.as_slice(), element);
    proof {
        let k = r@.len() - ed.len();
        assert(r@ =~= r@.take(k) + r@.skip(k));
        lemma_docs_append(r@.take(k), wd, r@.skip(k), res.0.skip(wd.len() as int));
        assert(res.0 =~= wd + res.0.skip(wd.len() as int));
    }
    r
}

/// A collected block: `{`, each statement with its comments on an indented
/// line, `}`.
pub fn format_block_full(
    statements: &Vec<CommentedStatement>,
    renames: &mut Vec<(String, String)>,
    ctx: &mut ReturnVarContext<'_>,
) -> (r: Vec<IRElement>)
    requires
        forall|i: int| 0 <= i < statements@.len() ==> cstmt_ok(#[trigger] statements@[i]),
        returns_ok(returns_of(*old(ctx))),
    ensures
        ({
            let b = cblock_laid(
                statements@,
                scope_of(old(renames)@, old(ctx).declared_return_vars@),
                returns_of(*old(ctx)),
                false,
            );
            &&& docs(
                r@,
                seq![Doc::Text("{"@)] + (if statements@.len() > 0 {
                    b.0 + seq![Doc::Hard]
                } else {
                    Seq::empty()
                }) + seq![Doc::Text("}"@)],
            )
            &&& pair_views(final(renames)@) == b.1.renames
            &&& str_views(final(ctx).declared_return_vars@) == b.1.declared
        }),
        final(ctx).return_var_types == old(ctx).return_var_types,
        final(ctx).single_assignment_vars == old(ctx).single_assignment_vars,
    decreases statements@, 1int,
{
    let ghost st = scope_of(renames@, ctx.declared_return_vars@);
    let ghost rv = returns_of(*ctx);
    let ghost b = cblock_laid(statements@, st, rv, false);
    let mut v: Vec<IRElement> = Vec::new();
    push_text(&mut v, "{", Ghost(Seq::empty()));
    let ghost d0 = seq![Doc::Text("{"@)];
    assert(Seq::<Doc>::empty().push(Doc::Text("{"@)) =~= d0);
    let ghost mid: Seq<Doc> = if statements@.len() > 0 {
        b.0 + seq![Doc::Hard]
    } else {
        Seq::empty()
    };
    if statements.len() > 0 {
        let items = format_commented_statements(statements, false, renames, ctx);
        push_block(&mut v, items, Ghost(d0), Ghost(b.0));
        push_doc(&mut v, IRElement::HardLineBreak, Ghost(d0 + b.0), Ghost(Doc::Hard));
        assert((d0 + b.0).push(Doc::Hard) =~= d0 + mid);
    } else {
        assert(statements@ =~= Seq::<CommentedStatement>::empty());
        assert(d0 =~= d0 + mid);
    }
    push_text(&mut v, "}", Ghost(d0 + mid));
    assert((d0 + mid).push(Doc::Text("}"@)) =~= seq![Doc::Text("{"@)] + mid + seq![Doc::Text("}"@)]);
    v
}

/// Commented statements, each after a hard break (and, when `blank`, one
/// more before a statement with leading comments) on an indented line.
fn format_commented_statements(
    ss: &Vec<CommentedStatement>,
    blank: bool,
    renames: &mut Vec<(String, String)>,
    ctx: &mut ReturnVarContext<'_>,
) -> (r: Vec<IRElement>)
    requires
        forall|i: int| 0 <= i < ss@.len() ==> cstmt_ok(#[trigger] ss@[i]),
        returns_ok(returns_of(*old(ctx))),
    ensures
        docs(
            r@,
            cblock_laid(ss@, scope_of(old(renames)@, old(ctx).declared_return_vars@), returns_of(*old(ctx)), blank).0,
        ),
        pair_views(final(renames)@) == cblock_laid(
            ss@,
            scope_of(old(renames)@, old(ctx).declared_return_vars@),
            returns_of(*old(ctx)),
            blank,
        ).1.renames,
        str_views(final(ctx).declared_return_vars@) == cblock_laid(
            ss@,
            scope_of(old(renames)@, old(ctx).declared_return_vars@),
            returns_of(*old(ctx)),
            blank,
        ).1.declared,
        final(ctx).return_var_types == old(ctx).return_var_types,
        final(ctx).single_assignment_vars == old(ctx).single_assignment_vars,
    decreases ss@, 0int,
{
    let ghost st0 = scope_of(renames@, ctx.declared_return_vars@);
    let ghost rv = returns_of(*ctx);
    let ghost types0 = ctx.return_var_types;
    let ghost single0 = ctx.single_assignment_vars;
    let mut v: Vec<IRElement> = Vec::new();
    let mut i: usize = 0;
    assert(ss@.take(0) =~= Seq::<CommentedStatement>::empty());
    while i < ss.len()
        invariant
            i <= ss@.len(),
            forall|j: int| 0 <= j < ss@.len() ==> cstmt_ok(#[trigger] ss@[j]),
            returns_ok(rv),
            ctx.return_var_types == types0,
            ctx.single_assignment_vars == single0,
            rv == returns_of(*ctx),
            docs(v@, cblock_laid(ss@.take(i as int), st0, rv, blank).0),
            pair_views(renames@) == cblock_laid(ss@.take(i as int), st0, rv, blank).1.renames,
            str_views(ctx.declared_return_vars@) == cblock_laid(ss@.take(i as int), st0, rv, blank).1.declared,
        decreases ss@.len() - i,
    {
        let ghost p = cblock_laid(ss@.take(i as int), st0, rv, blank);
        assert(ss@.take(i + 1).drop_last() =~= ss@.take(i as int));
        assert(ss@.take(i + 1).last() == ss@[i as int]);
        assert(scope_of(renames@, ctx.declared_return_vars@) == p.1);
        let ghost q = cstmt_laid(ss@[i as int], p.1, rv);
        push_doc(&mut v, IRElement::HardLineBreak, Ghost(p.0), Ghost(Doc::Hard));
        let ghost bd: Seq<Doc> = if blank && ss@[i as int].leading_comments.len() > 0 {
            seq![Doc::Hard]
        } else {
            Seq::empty()
        };
        if blank && ss[i].leading_comments.len() > 0 {
            push_doc(&mut v, IRElement::HardLineBreak, Ghost(p.0.push(Doc::Hard)), Ghost(Doc::Hard));
            assert(p.0.push(Doc::Hard).push(Doc::Hard) =~= p.0 + seq![Doc::Hard] + bd);
        } else {
            assert(p.0.push(Doc::Hard) =~= p.0 + seq![Doc::Hard] + bd);
        }
        let sd = build_statement_ir_full(&ss[i], renames, ctx);
        let ind = indent_of(sd, Ghost(q.0));
        push_doc(&mut v, ind, Ghost(p.0 + seq![Doc::Hard] + bd), Ghost(Doc::Indent(q.0)));
        assert((p.0 + seq![Doc::Hard] + bd).push(Doc::Indent(q.0)) =~= cblock_laid(ss@.take(i + 1), st0, rv, blank).0);
        i = i + 1;
    }
    assert(ss@.take(i as int) =~= ss@);
    v
}

/// An `if` with its comments' statement collected: the header, the
/// then-part in braces, and the else-part (braced unless it is a block or
/// an `if`).
#[verifier::spinoff_prover]
#[verifier::rlimit(50)]
fn build_if_ir_full(stmt: &CommentedStatement, renames: &mut Vec<(String, String)>, ctx: &mut ReturnVarContext<'_>) -> (r:
    Vec<IRElement>)
    requires
        stmt.statement is If,
        cstmt_ok(*stmt),
        returns_ok(returns_of(*old(ctx))),
    ensures
        docs(
            r@,
            cstmt_laid(*stmt, scope_of(old(renames)@, old(ctx).declared_return_vars@), returns_of(*old(ctx))).0.skip(
                with_comments_docs(stmt.leading_comments@, stmt.trailing_comments@).len() as int,
            ),
        ),
        pair_views(final(renames)@) == cstmt_laid(
            *stmt,
            scope_of(old(renames)@, old(ctx).declared_return_vars@),
            returns_of(*old(ctx)),
        ).1.renames,
        str_views(final(ctx).declared_return_vars@) == cstmt_laid(
            *stmt,
            scope_of(old(renames)@, old(ctx).declared_return_vars@),
            returns_of(*old(ctx)),
        ).1.declared,
        final(ctx).return_var_types == old(ctx).return_var_types,
        final(ctx).single_assignment_vars == old(ctx).single_assignment_vars,
    decreases *stmt, 1int,
{
    let ghost st = scope_of(renames@, ctx.declared_return_vars@);
    let ghost rv = returns_of(*ctx);
    let ghost wd = with_comments_docs(stmt.leading_comments@, stmt.trailing_comments@);
    let ghost res = cstmt_laid(*stmt, st, rv);
    let ghost rn0 = st.renames;
    match &stmt.statement {
        Statement::If(c, t, e) => {
            let cd = crate::ir_builder::expressions::format_expression_with_renames(c, renames.as_slice());
            let iv = elems2(IRElement::SoftestLineBreak, cd, Ghost(Doc::Softest), Ghost(expr_doc(*c, rn0)));
            let ghost id = seq![Doc::Softest, expr_doc(*c, rn0)];
            let ind = indent_of(iv, Ghost(id));
            let hv = elems4(
                IRElement::text("if ("),
                ind,
                IRElement::SoftestLineBreak,
                IRElement::text(") "),
                Ghost(Doc::Text("if ("@)),
                Ghost(Doc::Indent(id)),
                Ghost(Doc::Softest),
                Ghost(Doc::Text(") "@)),
            );
            let ghost hd = seq![Doc::Text("if ("@), Doc::Indent(id), Doc::Softest, Doc::Text(") "@)];
            let header = group_of(hv, Ghost(hd));
            let mut v = single(header, Ghost(if_header(*c, rn0)));
            let ghost d0 = seq![if_header(*c, rn0)];
            let ghost mut th: (Seq<Doc>, Scope) = (Seq::empty(), st);
            match &**t {
                Statement::Block(_) => match &stmt.nested_statements {
                    Some(n) => {
                        let ghost b = cblock_laid(n@, st, rv, true);
                        proof {
                            th = (
                                seq![Doc::Text("{"@)] + (if n.len() > 0 {
                                    b.0 + seq![Doc::Hard]
                                } else {
                                    Seq::empty()
                                }) + seq![Doc::Text("}"@)],
                                b.1,
                            );
                        }
                        push_text(&mut v, "{", Ghost(d0));
                        let ghost d1 = d0.push(Doc::Text("{"@));
                        if n.len() > 0 {
                            let items = format_commented_statements(n, true, renames, ctx);
                            push_block(&mut v, items, Ghost(d1), Ghost(b.0));
                            push_doc(&mut v, IRElement::HardLineBreak, Ghost(d1 + b.0), Ghost(Doc::Hard));
                            push_text(&mut v, "}", Ghost((d1 + b.0).push(Doc::Hard)));
                            assert((d1 + b.0).push(Doc::Hard).push(Doc::Text("}"@)) =~= d0 + th.0);
                        } else {
                            assert(n@ =~= Seq::<CommentedStatement>::empty());
                            push_text(&mut v, "}", Ghost(d1));
                            assert(d1.push(Doc::Text("}"@)) =~= d0 + th.0);
                        }
                    },
                    None => {
                        proof {
                            th = stmt_laid(**t, st, rv);
                        }
                        let tv = format_statement_full(&**t, renames, ctx);
                        push_block(&mut v, tv, Ghost(d0), Ghost(th.0));
                    },
                },
                _ => {
                    let ghost x = stmt_laid(**t, st, rv);
                    proof {
                        th = (braced(x.0), x.1);
                    }
                    let tv = format_statement_full(&**t, renames, ctx);
                    push_braced(&mut v, tv, Ghost(d0), Ghost(x.0));
                },
            }
            let ghost d2 = d0 + th.0;
            assert(scope_of(renames@, ctx.declared_return_vars@) == th.1);
            match e {
                Some(x) => {
                    let ghost y = stmt_laid(**x, th.1, rv);
                    push_text(&mut v, " else ", Ghost(d2));
                    let is_chain = match &**x {
                        Statement::Block(_) => true,
                        Statement::If(..) => true,
                        _ => false,
                    };
                    let xv = format_statement_full(&**x, renames, ctx);
                    if is_chain {
                        push_block(&mut v, xv, Ghost(d2.push(Doc::Text(" else "@))), Ghost(y.0));
                        assert(d2.push(Doc::Text(" else "@)) + y.0 =~= res.0.skip(wd.len() as int));
                    } else {
                        push_braced(&mut v, xv, Ghost(d2.push(Doc::Text(" else "@))), Ghost(y.0));
                        assert(d2.push(Doc::Text(" else "@)) + braced(y.0) =~= res.0.skip(wd.len() as int));
                    }
                },
                None => {
                    assert(d2 =~= res.0.skip(wd.len() as int));
                },
            }
            v
        },
        _ => Vec::new(),
    }
}

/// After `k` is renamed to `v`, `k` reads as `v`.
pub proof fn lemma_renamed_after_insert(rn: Renames, k: Seq<char>, v: Seq<char>)
    ensures
        renamed(insert_rename(rn, k, v), k) == v,
    decreases rn.len(),
{
    if rn.len() > 0 && rn[0].0 != k {
        lemma_renamed_after_insert(rn.drop_first(), k, v);
        assert((seq![rn[0]] + insert_rename(rn.drop_first(), k, v)).drop_first() =~= insert_rename(
            rn.drop_first(),
            k,
            v,
        ));
    }
}

/// A return variable is declared by its first assignment and only by it:
/// the first `v = value;` of a return variable `v` that is neither declared
/// yet nor assigned only once becomes `T _v = value;` (declaring `v` and
/// renaming it to `_v`), and the same statement laid out next is the plain
/// assignment `_v = value;`.
pub proof fn law_return_var_declared_once(name: String, value: Expression, st: Scope, rv: Returns, p: TypedParameter)
    requires
        ret_param(rv.types, name@) == Some(p),
        !rv.single.contains(name@),
        !st.declared.contains(name@),
        !(name@.len() > 0 && name@[0] == '_'),
    ensures
        ({
            let s = Statement::Expression(
                Expression::Binary(BinaryOp::Assign, Box::new(Expression::Variable(name)), Box::new(value)),
            );
            let first = stmt_laid(s, st, rv);
            let second = stmt_laid(s, first.1, rv);
            &&& first.1.declared == st.declared.push(name@)
            &&& renamed(first.1.renames, name@) == seq!['_'] + name@
            &&& first.0 == seq![expr_doc(p.ty, Seq::empty())] + storage_docs(p.storage) + seq![
                Doc::Text(" "@),
                Doc::Text(seq!['_'] + name@),
                Doc::Text(" = "@),
                expr_doc(value, first.1.renames),
                Doc::Text(";"@),
            ]
            &&& second.0 == seq![
                expr_doc(
                    Expression::Binary(BinaryOp::Assign, Box::new(Expression::Variable(name)), Box::new(value)),
                    first.1.renames,
                ),
                Doc::Text(";"@),
            ]
            &&& second.1 == first.1
        }),
{
    let nn = normalized_name(name@);
    assert(nn == seq!['_'] + name@);
    assert(nn != name@) by {
        assert(nn.len() == name@.len() + 1);
    }
    lemma_renamed_after_insert(st.renames, name@, nn);
    let s2 = st.declared.push(name@);
    assert(s2.contains(name@)) by {
        assert(s2[s2.len() - 1] == name@);
    }
}

/// A jump statement (`continue` or `break`) is laid out as its keyword and
/// `;`, leaving the scope as it is, and the two are written differently.
pub proof fn law_jump_statements(s: Statement, st: Scope, rv: Returns)
    ensures
        jump_keyword(s) matches Some(k) ==> stmt_laid(s, st, rv) == (seq![Doc::Text(k + ";"@)], st),
        stmt_laid(Statement::Continue, st, rv).0 != stmt_laid(Statement::Break, st, rv).0,
{
    reveal_strlit("continue");
    reveal_strlit("break");
    reveal_strlit(";");
    reveal_strlit("continue;");
    reveal_strlit("break;");
    assert("continue;"@ =~= "continue"@ + ";"@);
    assert("break;"@ =~= "break"@ + ";"@);
    assert("continue;"@.len() != "break;"@.len());
    assert(seq![Doc::Text("continue;"@)][0] != seq![Doc::Text("break;"@)][0]);
}

} // verus!
