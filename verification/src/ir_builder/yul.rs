//! The layout of inline assembly (Yul) blocks.
use vstd::prelude::*;
use crate::ast::{
    YulBlock, YulExpression, YulFor, YulFunctionCall, YulFunctionDefinition, YulStatement, YulSwitch, YulSwitchOption,
    YulTypedIdentifier,
};
use crate::ir_builder::expressions::{elems3, group_of, indent_of, pair_views, rename_lookup, renamed, Renames};
use crate::ir_builder::statements::{def_name_text, def_rename, push_def_name};
use crate::ir_builder::ir::{doc_match, docs, Doc, IRElement};
use crate::ir_builder::types::{push_block, push_doc, push_text};
use crate::text::{chars_of, push_all, string_from};

verus! {

/// The layout of a Yul expression.
pub open spec fn yexpr_doc(e: YulExpression) -> Doc
    decreases e,
{
    match e {
        YulExpression::BoolLiteral(b) => Doc::Text(
            if b {
                "true"@
            } else {
                "false"@
            },
        ),
        YulExpression::NumberLiteral(v) => Doc::Text(v@),
        YulExpression::StringLiteral(t) => Doc::Text("\""@ + t@ + "\""@),
        YulExpression::HexNumberLiteral(v) => Doc::Text(v@),
        YulExpression::HexStringLiteral(h) => Doc::Text("hex\""@ + h@ + "\""@),
        YulExpression::Variable(n) => Doc::Text(n@),
        YulExpression::FunctionCall(c) => ycall_doc(c),
        YulExpression::SuffixAccess(x, suffix) => Doc::Group(
            seq![yexpr_doc(*x), Doc::Text("."@), Doc::Text(suffix@)],
        ),
    }
}

/// The layout of a Yul call: `f(a, b)` in one group.
pub open spec fn ycall_doc(c: YulFunctionCall) -> Doc
    decreases c,
{
    Doc::Group(seq![Doc::Text(c.id@), Doc::Text("("@)] + yargs_docs(c.arguments@) + seq![Doc::Text(")"@)])
}

/// Call arguments separated by `,` and a space.
pub open spec fn yargs_docs(s: Seq<YulExpression>) -> Seq<Doc>
    decreases s,
{
    if s.len() == 0 {
        Seq::empty()
    } else {
        yargs_docs(s.drop_last()) + (if s.len() > 1 {
            seq![Doc::Text(","@), Doc::Text(" "@)]
        } else {
            Seq::empty()
        }) + seq![yexpr_doc(s.last())]
    }
}

/// Assigned variables separated by `, `.
pub open spec fn yvars_docs(s: Seq<YulExpression>) -> Seq<Doc>
    decreases s,
{
    if s.len() == 0 {
        Seq::empty()
    } else {
        yvars_docs(s.drop_last()) + (if s.len() > 1 {
            seq![Doc::Text(", "@)]
        } else {
            Seq::empty()
        }) + seq![yexpr_doc(s.last())]
    }
}

/// Typed identifiers separated by `, `, each as `name` or `name: type`.
pub open spec fn typed_id_docs(s: Seq<YulTypedIdentifier>) -> Seq<Doc>
    decreases s.len(),
{
    if s.len() == 0 {
        Seq::empty()
    } else {
        typed_id_docs(s.drop_last()) + (if s.len() > 1 {
            seq![Doc::Text(", "@)]
        } else {
            Seq::empty()
        }) + seq![Doc::Text(s.last().name@)] + match s.last().ty {
            Some(t) => seq![Doc::Text(": "@), Doc::Text(t@)],
            None => Seq::empty(),
        }
    }
}

/// The layout of a Yul statement.
pub open spec fn ystmt_docs(s: YulStatement) -> Seq<Doc>
    decreases s,
{
    match s {
        YulStatement::Assign(vars, e) => yvars_docs(vars@) + seq![
            Doc::Text(" "@),
            Doc::Text(":="@),
            Doc::Text(" "@),
            yexpr_doc(e),
        ],
        YulStatement::VariableDeclaration(vars, e) => seq![Doc::Text("let"@), Doc::Text(" "@)] + typed_id_docs(vars@)
            + match e {
            Some(x) => seq![Doc::Text(" "@), Doc::Text(":="@), Doc::Text(" "@), yexpr_doc(x)],
            None => Seq::empty(),
        },
        YulStatement::FunctionCall(c) => seq![ycall_doc(c)],
        YulStatement::If(c, b) => seq![Doc::Text("if"@), Doc::Text(" "@), yexpr_doc(c), Doc::Text(" "@)] + yblock_docs(b),
        YulStatement::For(f) => seq![Doc::Text("for"@), Doc::Text(" "@)] + yblock_docs(f.init_block) + seq![
            Doc::Text(" "@),
            yexpr_doc(f.condition),
            Doc::Text(" "@),
        ] + yblock_docs(f.post_block) + seq![Doc::Text(" "@)] + yblock_docs(f.execution_block),
        YulStatement::Switch(sw) => yswitch_docs(sw),
        YulStatement::Leave => seq![Doc::Text("leave"@)],
        YulStatement::Break => seq![Doc::Text("break"@)],
        YulStatement::Continue => seq![Doc::Text("continue"@)],
        YulStatement::Block(b) => yblock_docs(b),
        YulStatement::FunctionDefinition(d) => yfundef_docs(*d),
        YulStatement::Error => seq![Doc::Text("/* yul error */"@)],
    }
}

/// The layout of a Yul block: `{`, the statements on indented lines, `}`;
/// an empty block is `{}`.
pub open spec fn yblock_docs(b: YulBlock) -> Seq<Doc>
    decreases b,
{
    seq![Doc::Text("{"@)] + (if b.statements.len() > 0 {
        seq![Doc::Hard, Doc::Indent(ystmts_docs(b.statements@)), Doc::Hard]
    } else {
        Seq::empty()
    }) + seq![Doc::Text("}"@)]
}

/// Statements separated by hard line breaks.
pub open spec fn ystmts_docs(s: Seq<YulStatement>) -> Seq<Doc>
    decreases s,
{
    if s.len() == 0 {
        Seq::empty()
    } else {
        ystmts_docs(s.drop_last()) + (if s.len() > 1 {
            seq![Doc::Hard]
        } else {
            Seq::empty()
        }) + ystmt_docs(s.last())
    }
}

/// A `case` followed by a line break, or a `default`.
pub open spec fn ycase_docs(o: YulSwitchOption) -> Seq<Doc>
    decreases o,
{
    match o {
        YulSwitchOption::Case(e, b) => seq![Doc::Text("case"@), Doc::Text(" "@), yexpr_doc(e), Doc::Text(" "@)]
            + yblock_docs(b) + seq![Doc::Hard],
        YulSwitchOption::Default(b) => seq![Doc::Text("default"@), Doc::Text(" "@)] + yblock_docs(b),
    }
}

/// The cases of a switch, in order.
pub open spec fn ycases_docs(s: Seq<YulSwitchOption>) -> Seq<Doc>
    decreases s,
{
    if s.len() == 0 {
        Seq::empty()
    } else {
        ycases_docs(s.drop_last()) + ycase_docs(s.last())
    }
}

/// A switch: the condition, a line break, the cases, then the default.
pub open spec fn yswitch_docs(sw: YulSwitch) -> Seq<Doc>
    decreases sw,
{
    seq![Doc::Text("switch"@), Doc::Text(" "@), yexpr_doc(sw.condition), Doc::Hard] + ycases_docs(sw.cases@)
        + ydefault_docs(sw.default)
}

/// The default of a switch, when it is one.
pub open spec fn ydefault_docs(o: Option<YulSwitchOption>) -> Seq<Doc>
    decreases o,
{
    match o {
        Some(YulSwitchOption::Default(b)) => seq![Doc::Text("default"@), Doc::Text(" "@)] + yblock_docs(b),
        _ => Seq::empty(),
    }
}

/// A function definition: name, parameters, `-> outputs` when there are
/// any, and the body.
pub open spec fn yfundef_docs(d: YulFunctionDefinition) -> Seq<Doc>
    decreases d,
{
    seq![Doc::Text("function"@), Doc::Text(" "@), Doc::Text(d.id@), Doc::Text("("@)] + typed_id_docs(d.params@)
        + seq![Doc::Text(")"@)] + (if d.outputs.len() > 0 {
        seq![Doc::Text(" -> "@)] + typed_id_docs(d.outputs@)
    } else {
        Seq::empty()
    }) + seq![Doc::Text(" "@)] + yblock_docs(d.body)
}


/// `open` + `t` + a closing quote.
fn quoted_text(open: &str, t: &String) -> (r: String)
    ensures
        r@ == open@ + t@ + "\""@,
{
    proof {
        reveal_strlit("\"");
    }
    let mut v = chars_of(open);
    push_all(&mut v, chars_of(t.as_str()).as_slice());
    v.push('"');
    assert(v@ =~= open@ + t@ + "\""@);
    string_from(v.as_slice())
}

/// A Yul expression.
pub fn format_yul_expression(expr: &YulExpression) -> (r: IRElement)
    ensures
        doc_match(r, yexpr_doc(*expr)),
    decreases *expr,
{
    match expr {
        YulExpression::BoolLiteral(b) => IRElement::text(
            if *b {
                "true"
            } else {
                "false"
            },
        ),
        YulExpression::NumberLiteral(v) => IRElement::text(v.as_str()),
        YulExpression::StringLiteral(t) => IRElement::text(quoted_text("\"", t).as_str()),
        YulExpression::HexNumberLiteral(v) => IRElement::text(v.as_str()),
        YulExpression::HexStringLiteral(h) => IRElement::text(quoted_text("hex\"", h).as_str()),
        YulExpression::Variable(n) => IRElement::text(n.as_str()),
        YulExpression::FunctionCall(c) => format_yul_function_call(c),
        YulExpression::SuffixAccess(x, suffix) => {
            let xd = format_yul_expression(&**x);
            let v = elems3(
                xd,
                IRElement::text("."),
                IRElement::text(suffix.as_str()),
                Ghost(yexpr_doc(**x)),
                Ghost(Doc::Text("."@)),
                Ghost(Doc::Text(suffix@)),
            );
            let ghost gd = seq![yexpr_doc(**x), Doc::Text("."@), Doc::Text(suffix@)];
            group_of(v, Ghost(gd))
        },
    }
}

/// A Yul call: `f(a, b)` in one group.
pub fn format_yul_function_call(call: &YulFunctionCall) -> (r: IRElement)
    ensures
        doc_match(r, ycall_doc(*call)),
    decreases *call,
{
    let mut v: Vec<IRElement> = Vec::new();
    push_text(&mut v, call.id.as_str(), Ghost(Seq::empty()));
    let ghost d0 = seq![Doc::Text(call.id@)];
    assert(Seq::<Doc>::empty().push(Doc::Text(call.id@)) =~= d0);
    push_text(&mut v, "(", Ghost(d0));
    let ghost d1 = d0.push(Doc::Text("("@));
    let args = yul_args(&call.arguments, true);
    push_block(&mut v, args, Ghost(d1), Ghost(yargs_docs(call.arguments@)));
    push_text(&mut v, ")", Ghost(d1 + yargs_docs(call.arguments@)));
    let ghost all = seq![Doc::Text(call.id@), Doc::Text("("@)] + yargs_docs(call.arguments@) + seq![Doc::Text(")"@)];
    assert((d1 + yargs_docs(call.arguments@)).push(Doc::Text(")"@)) =~= all);
    group_of(v, Ghost(all))
}

/// Yul expressions separated by `,` and a space (`call`) or by `, `.
fn yul_args(args: &Vec<YulExpression>, call: bool) -> (r: Vec<IRElement>)
    ensures
        docs(
            r@,
            if call {
                yargs_docs(args@)
            } else {
                yvars_docs(args@)
            },
        ),
    decreases args@,
{
    let ghost target = |s: Seq<YulExpression>|
        if call {
            yargs_docs(s)
        } else {
            yvars_docs(s)
        };
    let mut v: Vec<IRElement> = Vec::new();
    let mut i: usize = 0;
    assert(args@.take(0) =~= Seq::<YulExpression>::empty());
    while i < args.len()
        invariant
            i <= args@.len(),
            docs(
                v@,
                if call {
                    yargs_docs(args@.take(i as int))
                } else {
                    yvars_docs(args@.take(i as int))
                },
            ),
        decreases args@.len() - i,
    {
        let ghost pre = if call {
            yargs_docs(args@.take(i as int))
        } else {
            yvars_docs(args@.take(i as int))
        };
        assert(args@.take(i + 1).drop_last() =~= args@.take(i as int));
        assert(args@.take(i + 1).last() == args@[i as int]);
        let ghost sep: Seq<Doc> = if i + 1 > 1 {
            if call {
                seq![Doc::Text(","@), Doc::Text(" "@)]
            } else {
                seq![Doc::Text(", "@)]
            }
        } else {
            Seq::empty()
        };
        if i > 0 {
            if call {
                push_text(&mut v, ",", Ghost(pre));
                push_text(&mut v, " ", Ghost(pre.push(Doc::Text(","@))));
                assert(pre.push(Doc::Text(","@)).push(Doc::Text(" "@)) =~= pre + sep);
            } else {
                push_text(&mut v, ", ", Ghost(pre));
                assert(pre.push(Doc::Text(", "@)) =~= pre + sep);
            }
        } else {
            assert(pre =~= pre + sep);
        }
        let x = format_yul_expression(&args[i]);
        push_doc(&mut v, x, Ghost(pre + sep), Ghost(yexpr_doc(args@[i as int])));
        proof {
            if call {
                assert((pre + sep).push(yexpr_doc(args@[i as int])) =~= yargs_docs(args@.take(i + 1)));
            } else {
                assert((pre + sep).push(yexpr_doc(args@[i as int])) =~= yvars_docs(args@.take(i + 1)));
            }
        }
        i = i + 1;
    }
    assert(args@.take(i as int) =~= args@);
    v
}

/// Typed identifiers separated by `, `.
fn typed_ids(ids: &Vec<YulTypedIdentifier>) -> (r: Vec<IRElement>)
    ensures
        docs(r@, typed_id_docs(ids@)),
{
    let mut v: Vec<IRElement> = Vec::new();
    let mut i: usize = 0;
    assert(ids@.take(0) =~= Seq::<YulTypedIdentifier>::empty());
    while i < ids.len()
        invariant
            i <= ids@.len(),
            docs(v@, typed_id_docs(ids@.take(i as int))),
        decreases ids@.len() - i,
    {
        let ghost pre = typed_id_docs(ids@.take(i as int));
        assert(ids@.take(i + 1).drop_last() =~= ids@.take(i as int));
        assert(ids@.take(i + 1).last() == ids@[i as int]);
        let ghost sep: Seq<Doc> = if i + 1 > 1 {
            seq![Doc::Text(", "@)]
        } else {
            Seq::empty()
        };
        if i > 0 {
            push_text(&mut v, ", ", Ghost(pre));
            assert(pre.push(Doc::Text(", "@)) =~= pre + sep);
        } else {
            assert(pre =~= pre + sep);
        }
        push_text(&mut v, ids[i].name.as_str(), Ghost(pre + sep));
        let ghost d1 = (pre + sep).push(Doc::Text(ids@[i as int].name@));
        match &ids[i].ty {
            Some(t) => {
                push_text(&mut v, ": ", Ghost(d1));
                push_text(&mut v, t.as_str(), Ghost(d1.push(Doc::Text(": "@))));
                assert(d1.push(Doc::Text(": "@)).push(Doc::Text(t@)) =~= typed_id_docs(ids@.take(i + 1)));
            },
            None => {
                assert(d1 =~= typed_id_docs(ids@.take(i + 1)));
            },
        }
        i = i + 1;
    }
    assert(ids@.take(i as int) =~= ids@);
    v
}

/// Appends `:= value` with its spaces.
fn push_assign_value(v: &mut Vec<IRElement>, e: &YulExpression, Ghost(ds): Ghost<Seq<Doc>>)
    requires
        docs(old(v)@, ds),
    ensures
        docs(final(v)@, ds + seq![Doc::Text(" "@), Doc::Text(":="@), Doc::Text(" "@), yexpr_doc(*e)]),
{
    push_text(v, " ", Ghost(ds));
    push_text(v, ":=", Ghost(ds.push(Doc::Text(" "@))));
    push_text(v, " ", Ghost(ds.push(Doc::Text(" "@)).push(Doc::Text(":="@))));
    let x = format_yul_expression(e);
    push_doc(
        v,
        x,
        Ghost(ds.push(Doc::Text(" "@)).push(Doc::Text(":="@)).push(Doc::Text(" "@))),
        Ghost(yexpr_doc(*e)),
    );
    assert(ds.push(Doc::Text(" "@)).push(Doc::Text(":="@)).push(Doc::Text(" "@)).push(yexpr_doc(*e)) =~= ds + seq![
        Doc::Text(" "@),
        Doc::Text(":="@),
        Doc::Text(" "@),
        yexpr_doc(*e),
    ]);
}

/// A Yul statement.
pub fn format_yul_statement(stmt: &YulStatement) -> (r: Vec<IRElement>)
    ensures
        docs(r@, ystmt_docs(*stmt)),
    decreases *stmt,
{
    match stmt {
        YulStatement::Assign(vars, e) => {
            let mut v = yul_args(vars, false);
            push_assign_value(&mut v, e, Ghost(yvars_docs(vars@)));
            v
        },
        YulStatement::VariableDeclaration(vars, e) => {
            let mut v: Vec<IRElement> = Vec::new();
            push_text(&mut v, "let", Ghost(Seq::empty()));
            let ghost d0 = seq![Doc::Text("let"@)];
            assert(Seq::<Doc>::empty().push(Doc::Text("let"@)) =~= d0);
            push_text(&mut v, " ", Ghost(d0));
            let ghost d1 = d0.push(Doc::Text(" "@));
            let ids = typed_ids(vars);
            push_block(&mut v, ids, Ghost(d1), Ghost(typed_id_docs(vars@)));
            let ghost d2 = d1 + typed_id_docs(vars@);
            match e {
                Some(x) => {
                    push_assign_value(&mut v, x, Ghost(d2));
                },
                None => {
                    assert(d2 =~= d2 + Seq::<Doc>::empty());
                },
            }
            assert(d1 =~= seq![Doc::Text("let"@), Doc::Text(" "@)]);
            v
        },
        YulStatement::FunctionCall(c) => {
            let cd = format_yul_function_call(c);
            let mut v: Vec<IRElement> = Vec::new();
            push_doc(&mut v, cd, Ghost(Seq::empty()), Ghost(ycall_doc(*c)));
            assert(Seq::<Doc>::empty().push(ycall_doc(*c)) =~= seq![ycall_doc(*c)]);
            v
        },
        YulStatement::If(c, b) => {
            let mut v: Vec<IRElement> = Vec::new();
            push_text(&mut v, "if", Ghost(Seq::empty()));
            push_text(&mut v, " ", Ghost(Seq::<Doc>::empty().push(Doc::Text("if"@))));
            let cd = format_yul_expression(c);
            let ghost d2 = seq![Doc::Text("if"@), Doc::Text(" "@)];
            assert(Seq::<Doc>::empty().push(Doc::Text("if"@)) =~= seq![Doc::Text("if"@)]);
            assert(seq![Doc::Text("if"@)].push(Doc::Text(" "@)) =~= d2);
            push_doc(&mut v, cd, Ghost(d2), Ghost(yexpr_doc(*c)));
            push_text(&mut v, " ", Ghost(d2.push(yexpr_doc(*c))));
            let ghost d4 = d2.push(yexpr_doc(*c)).push(Doc::Text(" "@));
            let bd = format_yul_block(b);
            push_block(&mut v, bd, Ghost(d4), Ghost(yblock_docs(*b)));
            assert(d4 =~= seq![Doc::Text("if"@), Doc::Text(" "@), yexpr_doc(*c), Doc::Text(" "@)]);
            v
        },
        YulStatement::For(f) => format_yul_for(&**f),
        YulStatement::Switch(sw) => format_yul_switch(sw),
        YulStatement::Leave => {
            let mut v: Vec<IRElement> = Vec::new();
            push_text(&mut v, "leave", Ghost(Seq::empty()));
            assert(Seq::<Doc>::empty().push(Doc::Text("leave"@)) =~= seq![Doc::Text("leave"@)]);
            v
        },
        YulStatement::Break => {
            let mut v: Vec<IRElement> = Vec::new();
            push_text(&mut v, "break", Ghost(Seq::empty()));
            assert(Seq::<Doc>::empty().push(Doc::Text("break"@)) =~= seq![Doc::Text("break"@)]);
            v
        },
        YulStatement::Continue => {
            let mut v: Vec<IRElement> = Vec::new();
            push_text(&mut v, "continue", Ghost(Seq::empty()));
            assert(Seq::<Doc>::empty().push(Doc::Text("continue"@)) =~= seq![Doc::Text("continue"@)]);
            v
        },
        YulStatement::Block(b) => format_yul_block(b),
        YulStatement::FunctionDefinition(d) => format_yul_function_def(&**d),
        YulStatement::Error => {
            let mut v: Vec<IRElement> = Vec::new();
            push_text(&mut v, "/* yul error */", Ghost(Seq::empty()));
            assert(Seq::<Doc>::empty().push(Doc::Text("/* yul error */"@)) =~= seq![Doc::Text("/* yul error */"@)]);
            v
        },
    }
}

/// A Yul for loop: the init block, the condition, the post block and the
/// body, separated by spaces.
fn format_yul_for(f: &YulFor) -> (r: Vec<IRElement>)
    ensures
        docs(r@, ystmt_docs(YulStatement::For(Box::new(*f)))),
    decreases *f,
{
    let mut v: Vec<IRElement> = Vec::new();
    push_text(&mut v, "for", Ghost(Seq::empty()));
    push_text(&mut v, " ", Ghost(Seq::<Doc>::empty().push(Doc::Text("for"@))));
    let ghost d0 = seq![Doc::Text("for"@), Doc::Text(" "@)];
    assert(Seq::<Doc>::empty().push(Doc::Text("for"@)) =~= seq![Doc::Text("for"@)]);
    assert(seq![Doc::Text("for"@)].push(Doc::Text(" "@)) =~= d0);
    let ib = format_yul_block(&f.init_block);
    push_block(&mut v, ib, Ghost(d0), Ghost(yblock_docs(f.init_block)));
    let ghost d1 = d0 + yblock_docs(f.init_block);
    push_text(&mut v, " ", Ghost(d1));
    let cd = format_yul_expression(&f.condition);
    push_doc(&mut v, cd, Ghost(d1.push(Doc::Text(" "@))), Ghost(yexpr_doc(f.condition)));
    push_text(&mut v, " ", Ghost(d1.push(Doc::Text(" "@)).push(yexpr_doc(f.condition))));
    let ghost d2 = d1.push(Doc::Text(" "@)).push(yexpr_doc(f.condition)).push(Doc::Text(" "@));
    let pb = format_yul_block(&f.post_block);
    push_block(&mut v, pb, Ghost(d2), Ghost(yblock_docs(f.post_block)));
    let ghost d3 = d2 + yblock_docs(f.post_block);
    push_text(&mut v, " ", Ghost(d3));
    let eb = format_yul_block(&f.execution_block);
    push_block(&mut v, eb, Ghost(d3.push(Doc::Text(" "@))), Ghost(yblock_docs(f.execution_block)));
    assert(d3.push(Doc::Text(" "@)) + yblock_docs(f.execution_block) =~= seq![Doc::Text("for"@), Doc::Text(" "@)]
        + yblock_docs(f.init_block) + seq![Doc::Text(" "@), yexpr_doc(f.condition), Doc::Text(" "@)] + yblock_docs(
        f.post_block,
    ) + seq![Doc::Text(" "@)] + yblock_docs(f.execution_block));
    v
}

/// A Yul block: `{`, the statements on indented lines, `}`.
pub fn format_yul_block(block: &YulBlock) -> (r: Vec<IRElement>)
    ensures
        docs(r@, yblock_docs(*block)),
    decreases *block,
{
    let mut v: Vec<IRElement> = Vec::new();
    push_text(&mut v, "{", Ghost(Seq::empty()));
    let ghost d0 = seq![Doc::Text("{"@)];
    assert(Seq::<Doc>::empty().push(Doc::Text("{"@)) =~= d0);
    let ghost mid: Seq<Doc> = if block.statements.len() > 0 {
        seq![Doc::Hard, Doc::Indent(ystmts_docs(block.statements@)), Doc::Hard]
    } else {
        Seq::empty()
    };
    if block.statements.len() > 0 {
        let sv = yul_statements(&block.statements);
        let ind = indent_of(sv, Ghost(ystmts_docs(block.statements@)));
        let part = elems3(
            IRElement::HardLineBreak,
            ind,
            IRElement::HardLineBreak,
            Ghost(Doc::Hard),
            Ghost(Doc::Indent(ystmts_docs(block.statements@))),
            Ghost(Doc::Hard),
        );
        push_block(&mut v, part, Ghost(d0), Ghost(mid));
    } else {
        assert(d0 =~= d0 + mid);
    }
    push_text(&mut v, "}", Ghost(d0 + mid));
    assert((d0 + mid).push(Doc::Text("}"@)) =~= yblock_docs(*block));
    v
}

/// Statements separated by hard line breaks.
fn yul_statements(stmts: &Vec<YulStatement>) -> (r: Vec<IRElement>)
    ensures
        docs(r@, ystmts_docs(stmts@)),
    decreases stmts@,
{
    let mut v: Vec<IRElement> = Vec::new();
    let mut i: usize = 0;
    assert(stmts@.take(0) =~= Seq::<YulStatement>::empty());
    while i < stmts.len()
        invariant
            i <= stmts@.len(),
            docs(v@, ystmts_docs(stmts@.take(i as int))),
        decreases stmts@.len() - i,
    {
        let ghost pre = ystmts_docs(stmts@.take(i as int));
        assert(stmts@.take(i + 1).drop_last() =~= stmts@.take(i as int));
        assert(stmts@.take(i + 1).last() == stmts@[i as int]);
        let ghost sep: Seq<Doc> = if i + 1 > 1 {
            seq![Doc::Hard]
        } else {
            Seq::empty()
        };
        if i > 0 {
            push_doc(&mut v, IRElement::HardLineBreak, Ghost(pre), Ghost(Doc::Hard));
            assert(pre.push(Doc::Hard) =~= pre + sep);
        } else {
            assert(pre =~= pre + sep);
        }
        let sd = format_yul_statement(&stmts[i]);
        push_block(&mut v, sd, Ghost(pre + sep), Ghost(ystmt_docs(stmts@[i as int])));
        assert(pre + sep + ystmt_docs(stmts@[i as int]) =~= ystmts_docs(stmts@.take(i + 1)));
        i = i + 1;
    }
    assert(stmts@.take(i as int) =~= stmts@);
    v
}

/// A `case` (followed by a line break) or a `default`.
fn format_yul_case(o: &YulSwitchOption) -> (r: Vec<IRElement>)
    ensures
        docs(r@, ycase_docs(*o)),
    decreases *o,
{
    let mut v: Vec<IRElement> = Vec::new();
    match o {
        YulSwitchOption::Case(e, b) => {
            push_text(&mut v, "case", Ghost(Seq::empty()));
            push_text(&mut v, " ", Ghost(Seq::<Doc>::empty().push(Doc::Text("case"@))));
            assert(Seq::<Doc>::empty().push(Doc::Text("case"@)) =~= seq![Doc::Text("case"@)]);
            let ghost d2 = seq![Doc::Text("case"@), Doc::Text(" "@)];
            assert(seq![Doc::Text("case"@)].push(Doc::Text(" "@)) =~= d2);
            let ed = format_yul_expression(e);
            push_doc(&mut v, ed, Ghost(d2), Ghost(yexpr_doc(*e)));
            push_text(&mut v, " ", Ghost(d2.push(yexpr_doc(*e))));
            let ghost d4 = d2.push(yexpr_doc(*e)).push(Doc::Text(" "@));
            let bd = format_yul_block(b);
            push_block(&mut v, bd, Ghost(d4), Ghost(yblock_docs(*b)));
            push_doc(&mut v, IRElement::HardLineBreak, Ghost(d4 + yblock_docs(*b)), Ghost(Doc::Hard));
            assert((d4 + yblock_docs(*b)).push(Doc::Hard) =~= ycase_docs(*o));
        },
        YulSwitchOption::Default(b) => {
            push_text(&mut v, "default", Ghost(Seq::empty()));
            push_text(&mut v, " ", Ghost(Seq::<Doc>::empty().push(Doc::Text("default"@))));
            assert(Seq::<Doc>::empty().push(Doc::Text("default"@)) =~= seq![Doc::Text("default"@)]);
            let ghost d2 = seq![Doc::Text("default"@), Doc::Text(" "@)];
            assert(seq![Doc::Text("default"@)].push(Doc::Text(" "@)) =~= d2);
            let bd = format_yul_block(b);
            push_block(&mut v, bd, Ghost(d2), Ghost(yblock_docs(*b)));
        },
    }
    v
}

/// A switch: `switch` and the condition, a line break, each case, then the
/// default.
pub fn format_yul_switch(switch: &YulSwitch) -> (r: Vec<IRElement>)
    ensures
        docs(r@, yswitch_docs(*switch)),
    decreases *switch,
{
    let mut v: Vec<IRElement> = Vec::new();
    push_text(&mut v, "switch", Ghost(Seq::empty()));
    push_text(&mut v, " ", Ghost(Seq::<Doc>::empty().push(Doc::Text("switch"@))));
    assert(Seq::<Doc>::empty().push(Doc::Text("switch"@)) =~= seq![Doc::Text("switch"@)]);
    let ghost d2 = seq![Doc::Text("switch"@), Doc::Text(" "@)];
    assert(seq![Doc::Text("switch"@)].push(Doc::Text(" "@)) =~= d2);
    let cd = format_yul_expression(&switch.condition);
    push_doc(&mut v, cd, Ghost(d2), Ghost(yexpr_doc(switch.condition)));
    push_doc(&mut v, IRElement::HardLineBreak, Ghost(d2.push(yexpr_doc(switch.condition))), Ghost(Doc::Hard));
    let ghost d4 = d2.push(yexpr_doc(switch.condition)).push(Doc::Hard);
    let cases = yul_cases(&switch.cases);
    push_block(&mut v, cases, Ghost(d4), Ghost(ycases_docs(switch.cases@)));
    let ghost d5 = d4 + ycases_docs(switch.cases@);
    let ghost dd: Seq<Doc> = ydefault_docs(switch.default);
    match &switch.default {
        Some(YulSwitchOption::Default(b)) => {
            push_text(&mut v, "default", Ghost(d5));
            push_text(&mut v, " ", Ghost(d5.push(Doc::Text("default"@))));
            let bd = format_yul_block(b);
            push_block(&mut v, bd, Ghost(d5.push(Doc::Text("default"@)).push(Doc::Text(" "@))), Ghost(yblock_docs(*b)));
            assert(d5.push(Doc::Text("default"@)).push(Doc::Text(" "@)) + yblock_docs(*b) =~= d5 + dd);
        },
        _ => {
            assert(d5 =~= d5 + dd);
        },
    }
    assert(d5 + dd =~= yswitch_docs(*switch));
    v
}

/// The cases of a switch, in order.
fn yul_cases(cases: &Vec<YulSwitchOption>) -> (r: Vec<IRElement>)
    ensures
        docs(r@, ycases_docs(cases@)),
    decreases cases@,
{
    let mut v: Vec<IRElement> = Vec::new();
    let mut i: usize = 0;
    assert(cases@.take(0) =~= Seq::<YulSwitchOption>::empty());
    while i < cases.len()
        invariant
            i <= cases@.len(),
            docs(v@, ycases_docs(cases@.take(i as int))),
        decreases cases@.len() - i,
    {
        let ghost pre = ycases_docs(cases@.take(i as int));
        assert(cases@.take(i + 1).drop_last() =~= cases@.take(i as int));
        assert(cases@.take(i + 1).last() == cases@[i as int]);
        let cd = format_yul_case(&cases[i]);
        push_block(&mut v, cd, Ghost(pre), Ghost(ycase_docs(cases@[i as int])));
        i = i + 1;
    }
    assert(cases@.take(i as int) =~= cases@);
    v
}

/// A Yul function definition.
pub fn format_yul_function_def(def: &YulFunctionDefinition) -> (r: Vec<IRElement>)
    ensures
        docs(r@, yfundef_docs(*def)),
    decreases *def,
{
    let mut v: Vec<IRElement> = Vec::new();
    push_text(&mut v, "function", Ghost(Seq::empty()));
    let ghost d1 = seq![Doc::Text("function"@)];
    assert(Seq::<Doc>::empty().push(Doc::Text("function"@)) =~= d1);
    push_text(&mut v, " ", Ghost(d1));
    push_text(&mut v, def.id.as_str(), Ghost(d1.push(Doc::Text(" "@))));
    push_text(&mut v, "(", Ghost(d1.push(Doc::Text(" "@)).push(Doc::Text(def.id@))));
    let ghost d4 = d1.push(Doc::Text(" "@)).push(Doc::Text(def.id@)).push(Doc::Text("("@));
    let pv = typed_ids(&def.params);
    push_block(&mut v, pv, Ghost(d4), Ghost(typed_id_docs(def.params@)));
    push_text(&mut v, ")", Ghost(d4 + typed_id_docs(def.params@)));
    let ghost d5 = (d4 + typed_id_docs(def.params@)).push(Doc::Text(")"@));
    let ghost od: Seq<Doc> = if def.outputs.len() > 0 {
        seq![Doc::Text(" -> "@)] + typed_id_docs(def.outputs@)
    } else {
        Seq::empty()
    };
    if def.outputs.len() > 0 {
        push_text(&mut v, " -> ", Ghost(d5));
        let ov = typed_ids(&def.outputs);
        push_block(&mut v, ov, Ghost(d5.push(Doc::Text(" -> "@))), Ghost(typed_id_docs(def.outputs@)));
        assert(d5.push(Doc::Text(" -> "@)) + typed_id_docs(def.outputs@) =~= d5 + od);
    } else {
        assert(d5 =~= d5 + od);
    }
    push_text(&mut v, " ", Ghost(d5 + od));
    let bd = format_yul_block(&def.body);
    push_block(&mut v, bd, Ghost((d5 + od).push(Doc::Text(" "@))), Ghost(yblock_docs(def.body)));
    assert((d5 + od).push(Doc::Text(" "@)) + yblock_docs(def.body) =~= yfundef_docs(*def));
    v
}

/// The layout of a Yul expression with the renames `rn` applied to its
/// variables.
pub open spec fn yexpr_doc_r(e: YulExpression, rn: Renames) -> Doc
    decreases e,
{
    match e {
        YulExpression::Variable(n) => Doc::Text(renamed(rn, n@)),
        YulExpression::FunctionCall(c) => ycall_doc_r(c, rn),
        YulExpression::SuffixAccess(x, suffix) => Doc::Group(
            seq![yexpr_doc_r(*x, rn), Doc::Text("."@), Doc::Text(suffix@)],
        ),
        _ => yexpr_doc(e),
    }
}

/// A Yul call with the renames applied to its arguments.
pub open spec fn ycall_doc_r(c: YulFunctionCall, rn: Renames) -> Doc
    decreases c,
{
    Doc::Group(seq![Doc::Text(c.id@), Doc::Text("("@)] + yargs_docs_r(c.arguments@, rn) + seq![Doc::Text(")"@)])
}

/// Arguments (`call`: separated by `,` and a space) or assigned variables
/// (separated by `, `), with the renames applied.
pub open spec fn yargs_docs_r(s: Seq<YulExpression>, rn: Renames) -> Seq<Doc>
    decreases s,
{
    if s.len() == 0 {
        Seq::empty()
    } else {
        yargs_docs_r(s.drop_last(), rn) + (if s.len() > 1 {
            seq![Doc::Text(","@), Doc::Text(" "@)]
        } else {
            Seq::empty()
        }) + seq![yexpr_doc_r(s.last(), rn)]
    }
}

/// Assigned variables separated by `, `, with the renames applied.
pub open spec fn yvars_docs_r(s: Seq<YulExpression>, rn: Renames) -> Seq<Doc>
    decreases s,
{
    if s.len() == 0 {
        Seq::empty()
    } else {
        yvars_docs_r(s.drop_last(), rn) + (if s.len() > 1 {
            seq![Doc::Text(", "@)]
        } else {
            Seq::empty()
        }) + seq![yexpr_doc_r(s.last(), rn)]
    }
}

/// Declared Yul names separated by `, ` (each written as a declared local
/// is, with its type), and the renames after declaring them.
pub open spec fn ydecl_docs(s: Seq<YulTypedIdentifier>, rn: Renames) -> (Seq<Doc>, Renames)
    decreases s.len(),
{
    if s.len() == 0 {
        (Seq::empty(), rn)
    } else {
        let pre = ydecl_docs(s.drop_last(), rn);
        (
            pre.0 + (if s.len() > 1 {
                seq![Doc::Text(", "@)]
            } else {
                Seq::empty()
            }) + seq![Doc::Text(def_name_text(s.last().name@))] + match s.last().ty {
                Some(t) => seq![Doc::Text(": "@), Doc::Text(t@)],
                None => Seq::empty(),
            },
            def_rename(pre.1, s.last().name@),
        )
    }
}

/// The layout of a Yul statement with the renames `rn` in force, and the
/// renames after it: assignments, declarations (whose names are
/// normalized and renamed), calls, `if` and `switch` apply the renames;
/// other statements are laid out as they are.
pub open spec fn ystmt_laid(s: YulStatement, rn: Renames) -> (Seq<Doc>, Renames)
    decreases s,
{
    match s {
        YulStatement::Assign(vars, e) => (
            yvars_docs_r(vars@, rn) + seq![Doc::Text(" "@), Doc::Text(":="@), Doc::Text(" "@), yexpr_doc_r(e, rn)],
            rn,
        ),
        YulStatement::VariableDeclaration(vars, e) => {
            let d = ydecl_docs(vars@, rn);
            (
                seq![Doc::Text("let"@), Doc::Text(" "@)] + d.0 + match e {
                    Some(x) => seq![Doc::Text(" "@), Doc::Text(":="@), Doc::Text(" "@), yexpr_doc_r(x, d.1)],
                    None => Seq::empty(),
                },
                d.1,
            )
        },
        YulStatement::FunctionCall(c) => (seq![ycall_doc_r(c, rn)], rn),
        YulStatement::If(c, b) => {
            let bl = yblock_laid(b, rn);
            (seq![Doc::Text("if"@), Doc::Text(" "@), yexpr_doc_r(c, rn), Doc::Text(" "@)] + bl.0, bl.1)
        },
        YulStatement::Switch(sw) => yswitch_laid(sw, rn),
        _ => (ystmt_docs(s), rn),
    }
}

/// A Yul block with the renames in force, and the renames after it.
pub open spec fn yblock_laid(b: YulBlock, rn: Renames) -> (Seq<Doc>, Renames)
    decreases b,
{
    let ss = ystmts_laid(b.statements@, rn);
    (
        seq![Doc::Text("{"@)] + (if b.statements.len() > 0 {
            seq![Doc::Hard, Doc::Indent(ss.0), Doc::Hard]
        } else {
            Seq::empty()
        }) + seq![Doc::Text("}"@)],
        ss.1,
    )
}

/// Yul statements separated by hard line breaks, each with the renames
/// left by the ones before it.
pub open spec fn ystmts_laid(s: Seq<YulStatement>, rn: Renames) -> (Seq<Doc>, Renames)
    decreases s,
{
    if s.len() == 0 {
        (Seq::empty(), rn)
    } else {
        let pre = ystmts_laid(s.drop_last(), rn);
        let last = ystmt_laid(s.last(), pre.1);
        (
            pre.0 + (if s.len() > 1 {
                seq![Doc::Hard]
            } else {
                Seq::empty()
            }) + last.0,
            last.1,
        )
    }
}

/// A `case` (followed by a line break) or a `default`, with the renames.
pub open spec fn ycase_laid(o: YulSwitchOption, rn: Renames) -> (Seq<Doc>, Renames)
    decreases o,
{
    match o {
        YulSwitchOption::Case(e, b) => {
            let bl = yblock_laid(b, rn);
            (
                seq![Doc::Text("case"@), Doc::Text(" "@), yexpr_doc_r(e, rn), Doc::Text(" "@)] + bl.0 + seq![
                    Doc::Hard,
                ],
                bl.1,
            )
        },
        YulSwitchOption::Default(b) => {
            let bl = yblock_laid(b, rn);
            (seq![Doc::Text("default"@), Doc::Text(" "@)] + bl.0, bl.1)
        },
    }
}

/// The cases of a switch, in order, with the renames.
pub open spec fn ycases_laid(s: Seq<YulSwitchOption>, rn: Renames) -> (Seq<Doc>, Renames)
    decreases s,
{
    if s.len() == 0 {
        (Seq::empty(), rn)
    } else {
        let pre = ycases_laid(s.drop_last(), rn);
        let last = ycase_laid(s.last(), pre.1);
        (pre.0 + last.0, last.1)
    }
}

/// A switch with the renames: condition, line break, cases, default.
pub open spec fn yswitch_laid(sw: YulSwitch, rn: Renames) -> (Seq<Doc>, Renames)
    decreases sw,
{
    let cs = ycases_laid(sw.cases@, rn);
    let df: (Seq<Doc>, Renames) = match sw.default {
        Some(YulSwitchOption::Default(b)) => {
            let bl = yblock_laid(b, cs.1);
            (seq![Doc::Text("default"@), Doc::Text(" "@)] + bl.0, bl.1)
        },
        _ => (Seq::empty(), cs.1),
    };
    (seq![Doc::Text("switch"@), Doc::Text(" "@), yexpr_doc_r(sw.condition, rn), Doc::Hard] + cs.0 + df.0, df.1)
}

/// A Yul expression with the renames applied to its variables.
pub fn format_yul_expression_with_renames(expr: &YulExpression, renames: &[(String, String)]) -> (r: IRElement)
    ensures
        doc_match(r, yexpr_doc_r(*expr, pair_views(renames@))),
    decreases *expr,
{
    match expr {
        YulExpression::Variable(n) => {
            let t = rename_lookup(renames, n.as_str());
            IRElement::text(t.as_str())
        },
        YulExpression::FunctionCall(c) => format_yul_function_call_with_renames(c, renames),
        YulExpression::SuffixAccess(x, suffix) => {
            let xd = format_yul_expression_with_renames(&**x, renames);
            let v = elems3(
                xd,
                IRElement::text("."),
                IRElement::text(suffix.as_str()),
                Ghost(yexpr_doc_r(**x, pair_views(renames@))),
                Ghost(Doc::Text("."@)),
                Ghost(Doc::Text(suffix@)),
            );
            let ghost gd = seq![yexpr_doc_r(**x, pair_views(renames@)), Doc::Text("."@), Doc::Text(suffix@)];
            group_of(v, Ghost(gd))
        },
        _ => format_yul_expression(expr),
    }
}

/// A Yul call with the renames applied to its arguments.
pub fn format_yul_function_call_with_renames(call: &YulFunctionCall, renames: &[(String, String)]) -> (r: IRElement)
    ensures
        doc_match(r, ycall_doc_r(*call, pair_views(renames@))),
    decreases *call,
{
    let ghost rn = pair_views(renames@);
    let mut v: Vec<IRElement> = Vec::new();
    push_text(&mut v, call.id.as_str(), Ghost(Seq::empty()));
    let ghost d0 = seq![Doc::Text(call.id@)];
    assert(Seq::<Doc>::empty().push(Doc::Text(call.id@)) =~= d0);
    push_text(&mut v, "(", Ghost(d0));
    let ghost d1 = d0.push(Doc::Text("("@));
    let args = yul_args_r(&call.arguments, true, renames);
    push_block(&mut v, args, Ghost(d1), Ghost(yargs_docs_r(call.arguments@, rn)));
    push_text(&mut v, ")", Ghost(d1 + yargs_docs_r(call.arguments@, rn)));
    let ghost all = seq![Doc::Text(call.id@), Doc::Text("("@)] + yargs_docs_r(call.arguments@, rn) + seq![
        Doc::Text(")"@),
    ];
    assert((d1 + yargs_docs_r(call.arguments@, rn)).push(Doc::Text(")"@)) =~= all);
    group_of(v, Ghost(all))
}

/// Yul expressions with the renames, separated by `,` and a space (`call`)
/// or by `, `.
fn yul_args_r(args: &Vec<YulExpression>, call: bool, renames: &[(String, String)]) -> (r: Vec<IRElement>)
    ensures
        docs(
            r@,
            if call {
                yargs_docs_r(args@, pair_views(renames@))
            } else {
                yvars_docs_r(args@, pair_views(renames@))
            },
        ),
    decreases args@,
{
    let ghost rn = pair_views(renames@);
    let ghost target = |s: Seq<YulExpression>|
        if call {
            yargs_docs_r(s, rn)
        } else {
            yvars_docs_r(s, rn)
        };
    let mut v: Vec<IRElement> = Vec::new();
    let mut i: usize = 0;
    assert(args@.take(0) =~= Seq::<YulExpression>::empty());
    while i < args.len()
        invariant
            i <= args@.len(),
            rn == pair_views(renames@),
            target == (|s: Seq<YulExpression>|
                if call {
                    yargs_docs_r(s, rn)
                } else {
                    yvars_docs_r(s, rn)
                }),
            docs(v@, target(args@.take(i as int))),
        decreases args@.len() - i,
    {
        let ghost pre = target(args@.take(i as int));
        assert(args@.take(i + 1).drop_last() =~= args@.take(i as int));
        assert(args@.take(i + 1).last() == args@[i as int]);
        if i > 0 {
            if call {
                push_text(&mut v, ",", Ghost(pre));
                push_text(&mut v, " ", Ghost(pre.push(Doc::Text(","@))));
            } else {
                push_text(&mut v, ", ", Ghost(pre));
            }
        }
        let ghost sep: Seq<Doc> = if i > 0 {
            if call {
                seq![Doc::Text(","@), Doc::Text(" "@)]
            } else {
                seq![Doc::Text(", "@)]
            }
        } else {
            Seq::empty()
        };
        assert(docs(v@, pre + sep)) by {
            if i > 0 {
                if call {
                    assert(pre.push(Doc::Text(","@)).push(Doc::Text(" "@)) =~= pre + sep);
                } else {
                    assert(pre.push(Doc::Text(", "@)) =~= pre + sep);
                }
            } else {
                assert(pre =~= pre + sep);
            }
        }
        let x = format_yul_expression_with_renames(&args[i], renames);
        push_doc(&mut v, x, Ghost(pre + sep), Ghost(yexpr_doc_r(args@[i as int], rn)));
        assert((pre + sep).push(yexpr_doc_r(args@[i as int], rn)) =~= target(args@.take(i + 1)));
        i = i + 1;
    }
    assert(args@.take(i as int) =~= args@);
    v
}

/// Declared Yul names with their types, each written as a declared local
/// is; records their renames.
fn ydecl_ids(ids: &Vec<YulTypedIdentifier>, renames: &mut Vec<(String, String)>) -> (r: Vec<IRElement>)
    ensures
        docs(r@, ydecl_docs(ids@, pair_views(old(renames)@)).0),
        pair_views(final(renames)@) == ydecl_docs(ids@, pair_views(old(renames)@)).1,
{
    let ghost rn0 = pair_views(renames@);
    let mut v: Vec<IRElement> = Vec::new();
    let mut i: usize = 0;
    assert(ids@.take(0) =~= Seq::<YulTypedIdentifier>::empty());
    while i < ids.len()
        invariant
            i <= ids@.len(),
            docs(v@, ydecl_docs(ids@.take(i as int), rn0).0),
            pair_views(renames@) == ydecl_docs(ids@.take(i as int), rn0).1,
        decreases ids@.len() - i,
    {
        let ghost pre = ydecl_docs(ids@.take(i as int), rn0).0;
        assert(ids@.take(i + 1).drop_last() =~= ids@.take(i as int));
        assert(ids@.take(i + 1).last() == ids@[i as int]);
        let ghost sep: Seq<Doc> = if i + 1 > 1 {
            seq![Doc::Text(", "@)]
        } else {
            Seq::empty()
        };
        if i > 0 {
            push_text(&mut v, ", ", Ghost(pre));
            assert(pre.push(Doc::Text(", "@)) =~= pre + sep);
        } else {
            assert(pre =~= pre + sep);
        }
        push_def_name(&mut v, &ids[i].name, renames, Ghost(pre + sep));
        let ghost d1 = (pre + sep).push(Doc::Text(def_name_text(ids@[i as int].name@)));
        match &ids[i].ty {
            Some(t) => {
                push_text(&mut v, ": ", Ghost(d1));
                push_text(&mut v, t.as_str(), Ghost(d1.push(Doc::Text(": "@))));
                assert(d1.push(Doc::Text(": "@)).push(Doc::Text(t@)) =~= ydecl_docs(ids@.take(i + 1), rn0).0);
            },
            None => {
                assert(d1 =~= ydecl_docs(ids@.take(i + 1), rn0).0);
            },
        }
        i = i + 1;
    }
    assert(ids@.take(i as int) =~= ids@);
    v
}

/// Appends `:= value` with its spaces, the renames applied to the value.
fn push_assign_value_r(
    v: &mut Vec<IRElement>,
    e: &YulExpression,
    renames: &[(String, String)],
    Ghost(ds): Ghost<Seq<Doc>>,
)
    requires
        docs(old(v)@, ds),
    ensures
        docs(
            final(v)@,
            ds + seq![Doc::Text(" "@), Doc::Text(":="@), Doc::Text(" "@), yexpr_doc_r(*e, pair_views(renames@))],
        ),
{
    let ghost xd = yexpr_doc_r(*e, pair_views(renames@));
    push_text(v, " ", Ghost(ds));
    push_text(v, ":=", Ghost(ds.push(Doc::Text(" "@))));
    push_text(v, " ", Ghost(ds.push(Doc::Text(" "@)).push(Doc::Text(":="@))));
    let x = format_yul_expression_with_renames(e, renames);
    push_doc(v, x, Ghost(ds.push(Doc::Text(" "@)).push(Doc::Text(":="@)).push(Doc::Text(" "@))), Ghost(xd));
    assert(ds.push(Doc::Text(" "@)).push(Doc::Text(":="@)).push(Doc::Text(" "@)).push(xd) =~= ds + seq![
        Doc::Text(" "@),
        Doc::Text(":="@),
        Doc::Text(" "@),
        xd,
    ]);
}

/// A Yul statement with the renames in force; a declaration records the
/// renames of the names it declares.
pub fn format_yul_statement_with_renames(stmt: &YulStatement, renames: &mut Vec<(String, String)>) -> (r: Vec<
    IRElement,
>)
    ensures
        docs(r@, ystmt_laid(*stmt, pair_views(old(renames)@)).0),
        pair_views(final(renames)@) == ystmt_laid(*stmt, pair_views(old(renames)@)).1,
    decreases *stmt,
{
    let ghost rn = pair_views(renames@);
    match stmt {
        YulStatement::Assign(vars, e) => {
            let mut v = yul_args_r(vars, false, renames.as_slice());
            push_assign_value_r(&mut v, e, renames.as_slice(), Ghost(yvars_docs_r(vars@, rn)));
            v
        },
        YulStatement::VariableDeclaration(vars, e) => {
            let mut v: Vec<IRElement> = Vec::new();
            push_text(&mut v, "let", Ghost(Seq::empty()));
            let ghost d0 = seq![Doc::Text("let"@)];
            assert(Seq::<Doc>::empty().push(Doc::Text("let"@)) =~= d0);
            push_text(&mut v, " ", Ghost(d0));
            let ghost d1 = d0.push(Doc::Text(" "@));
            let ghost dl = ydecl_docs(vars@, rn);
            let ids = ydecl_ids(vars, renames);
            push_block(&mut v, ids, Ghost(d1), Ghost(dl.0));
            let ghost d2 = d1 + dl.0;
            match e {
                Some(x) => {
                    push_assign_value_r(&mut v, x, renames.as_slice(), Ghost(d2));
                },
                None => {
                    assert(d2 =~= d2 + Seq::<Doc>::empty());
                },
            }
            assert(d1 =~= seq![Doc::Text("let"@), Doc::Text(" "@)]);
            v
        },
        YulStatement::FunctionCall(c) => {
            let cd = format_yul_function_call_with_renames(c, renames.as_slice());
            let mut v: Vec<IRElement> = Vec::new();
            push_doc(&mut v, cd, Ghost(Seq::empty()), Ghost(ycall_doc_r(*c, rn)));
            assert(Seq::<Doc>::empty().push(ycall_doc_r(*c, rn)) =~= seq![ycall_doc_r(*c, rn)]);
            v
        },
        YulStatement::If(c, b) => {
            let mut v: Vec<IRElement> = Vec::new();
            push_text(&mut v, "if", Ghost(Seq::empty()));
            push_text(&mut v, " ", Ghost(Seq::<Doc>::empty().push(Doc::Text("if"@))));
            let cd = format_yul_expression_with_renames(c, renames.as_slice());
            let ghost d2 = seq![Doc::Text("if"@), Doc::Text(" "@)];
            assert(Seq::<Doc>::empty().push(Doc::Text("if"@)) =~= seq![Doc::Text("if"@)]);
            assert(seq![Doc::Text("if"@)].push(Doc::Text(" "@)) =~= d2);
            push_doc(&mut v, cd, Ghost(d2), Ghost(yexpr_doc_r(*c, rn)));
            push_text(&mut v, " ", Ghost(d2.push(yexpr_doc_r(*c, rn))));
            let ghost d4 = d2.push(yexpr_doc_r(*c, rn)).push(Doc::Text(" "@));
            let ghost bl = yblock_laid(*b, rn);
            let bd = format_yul_block_with_renames(b, renames);
            push_block(&mut v, bd, Ghost(d4), Ghost(bl.0));
            assert(d4 =~= seq![Doc::Text("if"@), Doc::Text(" "@), yexpr_doc_r(*c, rn), Doc::Text(" "@)]);
            v
        },
        YulStatement::Switch(sw) => format_yul_switch_with_renames(sw, renames),
        _ => format_yul_statement(stmt),
    }
}

/// A Yul block with the renames in force, recording those its statements
/// declare.
pub fn format_yul_block_with_renames(block: &YulBlock, renames: &mut Vec<(String, String)>) -> (r: Vec<IRElement>)
    ensures
        docs(r@, yblock_laid(*block, pair_views(old(renames)@)).0),
        pair_views(final(renames)@) == yblock_laid(*block, pair_views(old(renames)@)).1,
    decreases *block,
{
    let ghost rn = pair_views(renames@);
    let ghost ss = ystmts_laid(block.statements@, rn);
    let mut v: Vec<IRElement> = Vec::new();
    push_text(&mut v, "{", Ghost(Seq::empty()));
    let ghost d0 = seq![Doc::Text("{"@)];
    assert(Seq::<Doc>::empty().push(Doc::Text("{"@)) =~= d0);
    let ghost mid: Seq<Doc> = if block.statements.len() > 0 {
        seq![Doc::Hard, Doc::Indent(ss.0), Doc::Hard]
    } else {
        Seq::empty()
    };
    if block.statements.len() > 0 {
        let sv = yul_statements_with_renames(&block.statements, renames);
        let ind = indent_of(sv, Ghost(ss.0));
        let part = elems3(
            IRElement::HardLineBreak,
            ind,
            IRElement::HardLineBreak,
            Ghost(Doc::Hard),
            Ghost(Doc::Indent(ss.0)),
            Ghost(Doc::Hard),
        );
        push_block(&mut v, part, Ghost(d0), Ghost(mid));
    } else {
        assert(d0 =~= d0 + mid);
    }
    push_text(&mut v, "}", Ghost(d0 + mid));
    assert((d0 + mid).push(Doc::Text("}"@)) =~= yblock_laid(*block, rn).0);
    v
}

/// Yul statements separated by hard line breaks, the renames threaded
/// through them.
fn yul_statements_with_renames(stmts: &Vec<YulStatement>, renames: &mut Vec<(String, String)>) -> (r: Vec<
    IRElement,
>)
    ensures
        docs(r@, ystmts_laid(stmts@, pair_views(old(renames)@)).0),
        pair_views(final(renames)@) == ystmts_laid(stmts@, pair_views(old(renames)@)).1,
    decreases stmts@,
{
    let ghost rn0 = pair_views(renames@);
    let mut v: Vec<IRElement> = Vec::new();
    let mut i: usize = 0;
    assert(stmts@.take(0) =~= Seq::<YulStatement>::empty());
    while i < stmts.len()
        invariant
            i <= stmts@.len(),
            docs(v@, ystmts_laid(stmts@.take(i as int), rn0).0),
            pair_views(renames@) == ystmts_laid(stmts@.take(i as int), rn0).1,
        decreases stmts@.len() - i,
    {
        let ghost pre = ystmts_laid(stmts@.take(i as int), rn0);
        assert(stmts@.take(i + 1).drop_last() =~= stmts@.take(i as int));
        assert(stmts@.take(i + 1).last() == stmts@[i as int]);
        let ghost sep: Seq<Doc> = if i + 1 > 1 {
            seq![Doc::Hard]
        } else {
            Seq::empty()
        };
        if i > 0 {
            push_doc(&mut v, IRElement::HardLineBreak, Ghost(pre.0), Ghost(Doc::Hard));
            assert(pre.0.push(Doc::Hard) =~= pre.0 + sep);
        } else {
            assert(pre.0 =~= pre.0 + sep);
        }
        let ghost last = ystmt_laid(stmts@[i as int], pre.1);
        let sd = format_yul_statement_with_renames(&stmts[i], renames);
        push_block(&mut v, sd, Ghost(pre.0 + sep), Ghost(last.0));
        assert(pre.0 + sep + last.0 =~= ystmts_laid(stmts@.take(i + 1), rn0).0);
        i = i + 1;
    }
    assert(stmts@.take(i as int) =~= stmts@);
    v
}

/// A `case` (followed by a line break) or a `default`, with the renames.
fn format_yul_case_with_renames(o: &YulSwitchOption, renames: &mut Vec<(String, String)>) -> (r: Vec<IRElement>)
    ensures
        docs(r@, ycase_laid(*o, pair_views(old(renames)@)).0),
        pair_views(final(renames)@) == ycase_laid(*o, pair_views(old(renames)@)).1,
    decreases *o,
{
    let ghost rn = pair_views(renames@);
    let mut v: Vec<IRElement> = Vec::new();
    match o {
        YulSwitchOption::Case(e, b) => {
            push_text(&mut v, "case", Ghost(Seq::empty()));
            let ghost d0 = seq![Doc::Text("case"@)];
            assert(Seq::<Doc>::empty().push(Doc::Text("case"@)) =~= d0);
            push_text(&mut v, " ", Ghost(d0));
            let ed = format_yul_expression_with_renames(e, renames.as_slice());
            push_doc(&mut v, ed, Ghost(d0.push(Doc::Text(" "@))), Ghost(yexpr_doc_r(*e, rn)));
            let ghost d2 = d0.push(Doc::Text(" "@)).push(yexpr_doc_r(*e, rn));
            push_text(&mut v, " ", Ghost(d2));
            let ghost d3 = d2.push(Doc::Text(" "@));
            let ghost bl = yblock_laid(*b, rn);
            let bd = format_yul_block_with_renames(b, renames);
            push_block(&mut v, bd, Ghost(d3), Ghost(bl.0));
            push_doc(&mut v, IRElement::HardLineBreak, Ghost(d3 + bl.0), Ghost(Doc::Hard));
            assert((d3 + bl.0).push(Doc::Hard) =~= ycase_laid(*o, rn).0);
        },
        YulSwitchOption::Default(b) => {
            push_text(&mut v, "default", Ghost(Seq::empty()));
            let ghost d0 = seq![Doc::Text("default"@)];
            assert(Seq::<Doc>::empty().push(Doc::Text("default"@)) =~= d0);
            push_text(&mut v, " ", Ghost(d0));
            let ghost d1 = d0.push(Doc::Text(" "@));
            let ghost bl = yblock_laid(*b, rn);
            let bd = format_yul_block_with_renames(b, renames);
            push_block(&mut v, bd, Ghost(d1), Ghost(bl.0));
            assert(d1 + bl.0 =~= ycase_laid(*o, rn).0);
        },
    }
    v
}

/// A switch with the renames: the condition, a line break, the cases, then
/// the default.
pub fn format_yul_switch_with_renames(switch: &YulSwitch, renames: &mut Vec<(String, String)>) -> (r: Vec<
    IRElement,
>)
    ensures
        docs(r@, ystmt_laid(YulStatement::Switch(*switch), pair_views(old(renames)@)).0),
        pair_views(final(renames)@) == ystmt_laid(YulStatement::Switch(*switch), pair_views(old(renames)@)).1,
    decreases *switch,
{
    let ghost rn = pair_views(renames@);
    let mut v: Vec<IRElement> = Vec::new();
    push_text(&mut v, "switch", Ghost(Seq::empty()));
    let ghost d0 = seq![Doc::Text("switch"@)];
    assert(Seq::<Doc>::empty().push(Doc::Text("switch"@)) =~= d0);
    push_text(&mut v, " ", Ghost(d0));
    let cd = format_yul_expression_with_renames(&switch.condition, renames.as_slice());
    push_doc(&mut v, cd, Ghost(d0.push(Doc::Text(" "@))), Ghost(yexpr_doc_r(switch.condition, rn)));
    let ghost d2 = d0.push(Doc::Text(" "@)).push(yexpr_doc_r(switch.condition, rn));
    push_doc(&mut v, IRElement::HardLineBreak, Ghost(d2), Ghost(Doc::Hard));
    let ghost d3 = d2.push(Doc::Hard);
    let cases = &switch.cases;
    let mut i: usize = 0;
    assert(cases@.take(0) =~= Seq::<YulSwitchOption>::empty());
    assert(d3 =~= d3 + ycases_laid(cases@.take(0), rn).0);
    while i < cases.len()
        invariant
            i <= cases@.len(),
            cases == &switch.cases,
            docs(v@, d3 + ycases_laid(cases@.take(i as int), rn).0),
            pair_views(renames@) == ycases_laid(cases@.take(i as int), rn).1,
        decreases cases@.len() - i,
    {
        let ghost pre = ycases_laid(cases@.take(i as int), rn);
        assert(cases@.take(i + 1).drop_last() =~= cases@.take(i as int));
        assert(cases@.take(i + 1).last() == cases@[i as int]);
        let ghost last = ycase_laid(cases@[i as int], pre.1);
        let c = format_yul_case_with_renames(&cases[i], renames);
        push_block(&mut v, c, Ghost(d3 + pre.0), Ghost(last.0));
        assert(d3 + pre.0 + last.0 =~= d3 + ycases_laid(cases@.take(i + 1), rn).0);
        i = i + 1;
    }
    assert(cases@.take(i as int) =~= cases@);
    let ghost d4 = d3 + ycases_laid(cases@, rn).0;
    match &switch.default {
        Some(YulSwitchOption::Default(b)) => {
            push_text(&mut v, "default", Ghost(d4));
            push_text(&mut v, " ", Ghost(d4.push(Doc::Text("default"@))));
            let ghost d5 = d4.push(Doc::Text("default"@)).push(Doc::Text(" "@));
            let ghost bl = yblock_laid(*b, pair_views(renames@));
            let bd = format_yul_block_with_renames(b, renames);
            push_block(&mut v, bd, Ghost(d5), Ghost(bl.0));
            assert(d5 + bl.0 =~= ystmt_laid(YulStatement::Switch(*switch), rn).0);
        },
        _ => {
            assert(d4 =~= ystmt_laid(YulStatement::Switch(*switch), rn).0);
        },
    }
    v
}

} // verus!
