//! IR for the top-level directives: pragmas, imports, `using` directives and
//! user-defined value types.
use vstd::prelude::*;
use crate::ir_builder::comments::{comments_ok, with_comments, with_comments_docs, with_comments_docs_ns, with_comments_no_spdx};
use crate::ir_builder::ir::{doc_match, doc_of, docs, lemma_doc_of, lemma_docs, Doc, IRElement};
use crate::ir_builder::ordering::{format_identifier_path, identifier_path_text};
use crate::ir_builder::{lemma_docs_append, lemma_docs_push};
use crate::model::{
    CommentedElement, Import, ImportPath, PragmaDirective, TypeDefinition, UserDefinedOperator, Using, UsingFunction,
    UsingList, VersionComparator, VersionOp,
};
use crate::text::{
    chars_of, slice_chars, join, join_strings, push_all, str_views, string_from, strip_suffix_chars,
    strip_suffix_or_keep,
};

verus! {

/// Appends a text element, extending its model.
fn push_text(ir: &mut Vec<IRElement>, s: &str, Ghost(ds): Ghost<Seq<Doc>>)
    requires
        docs(old(ir)@, ds),
    ensures
        docs(final(ir)@, ds.push(Doc::Text(s@))),
{
    let e = IRElement::text(s);
    proof {
        lemma_docs_push(ir@, ds, e, Doc::Text(s@));
    }
    ir.push(e);
}

/// The text of a version operator; nothing for an exact version.
pub open spec fn op_docs(op: VersionOp) -> Seq<Doc> {
    match op {
        VersionOp::Exact => Seq::empty(),
        VersionOp::Greater => seq![Doc::Text(">"@)],
        VersionOp::GreaterEq => seq![Doc::Text(">="@)],
        VersionOp::Less => seq![Doc::Text("<"@)],
        VersionOp::LessEq => seq![Doc::Text("<="@)],
        VersionOp::Caret => seq![Doc::Text("^"@)],
        VersionOp::Tilde => seq![Doc::Text("~"@)],
        VersionOp::Wildcard => seq![Doc::Text("*"@)],
    }
}

/// The parts of a version joined by dots.
pub open spec fn dotted(parts: Seq<String>) -> Seq<char> {
    join(str_views(parts), "."@)
}

/// The IR of one version requirement.
pub open spec fn comparator_docs(v: VersionComparator) -> Seq<Doc> {
    match v {
        VersionComparator::Plain { version } => seq![Doc::Text(dotted(version@))],
        VersionComparator::Operator { op, version } => op_docs(op).push(
            Doc::Text(dotted(version@)),
        ),
        VersionComparator::Or => seq![Doc::Text("/* or version */"@)],
        VersionComparator::Range { from, to } => seq![
            Doc::Text(dotted(from@) + " - "@ + dotted(to@)),
        ],
    }
}

/// The IR of version requirements: the first after a space, the others
/// after ` || `.
pub open spec fn versions_docs(vs: Seq<VersionComparator>) -> Seq<Doc>
    decreases vs.len(),
{
    if vs.len() == 0 {
        Seq::empty()
    } else {
        versions_docs(vs.drop_last()).push(
            Doc::Text(
                if vs.len() == 1 {
                    " "@
                } else {
                    " || "@
                },
            ),
        ) + comparator_docs(vs.last())
    }
}

/// The IR of a pragma directive itself, without its comments.
pub open spec fn pragma_body_docs(p: PragmaDirective) -> Seq<Doc> {
    seq![Doc::Text("pragma"@), Doc::Text(" "@)] + match p {
        PragmaDirective::Identifier(id, val) => (match id {
            Some(n) => seq![Doc::Text(n@)],
            None => Seq::empty(),
        }) + (match val {
            Some(v) => seq![Doc::Text(" "@), Doc::Text(v@)],
            None => Seq::empty(),
        }),
        PragmaDirective::Version(vs) => seq![Doc::Text("solidity"@)] + versions_docs(vs@),
        PragmaDirective::StringLiteral(n, v) => seq![
            Doc::Text(n@),
            Doc::Text(" "@),
            Doc::Text(seq!['"'] + v@ + seq!['"']),
        ],
    } + seq![Doc::Text(";"@)]
}

/// The parts joined by dots, as a string.
fn dotted_string(parts: &Vec<String>) -> (r: String)
    ensures
        r@ == dotted(parts@),
{
    let dot: Vec<char> = vec!['.'];
    proof {
        reveal_strlit(".");
        assert(dot@ =~= "."@);
    }
    let joined = join_strings(parts, dot.as_slice());
    string_from(joined.as_slice())
}

/// Appends the IR of one version requirement.
fn push_comparator(ir: &mut Vec<IRElement>, v: &VersionComparator, Ghost(ds): Ghost<Seq<Doc>>)
    requires
        docs(old(ir)@, ds),
    ensures
        docs(final(ir)@, ds + comparator_docs(*v)),
{
    match v {
        VersionComparator::Plain { version } => {
            let t = dotted_string(version);
            push_text(ir, t.as_str(), Ghost(ds));
            assert(ds.push(Doc::Text(t@)) =~= ds + comparator_docs(*v));
        },
        VersionComparator::Operator { op, version } => {
            let ghost d1 = ds + op_docs(*op);
            match op {
                VersionOp::Greater => push_text(ir, ">", Ghost(ds)),
                VersionOp::GreaterEq => push_text(ir, ">=", Ghost(ds)),
                VersionOp::Less => push_text(ir, "<", Ghost(ds)),
                VersionOp::LessEq => push_text(ir, "<=", Ghost(ds)),
                VersionOp::Caret => push_text(ir, "^", Ghost(ds)),
                VersionOp::Tilde => push_text(ir, "~", Ghost(ds)),
                VersionOp::Wildcard => push_text(ir, "*", Ghost(ds)),
                VersionOp::Exact => {},
            }
            assert(docs(ir@, d1)) by {
                match op {
                    VersionOp::Exact => assert(d1 =~= ds),
                    _ => assert(d1 =~= ds.push(op_docs(*op)[0])),
                }
            }
            let t = dotted_string(version);
            push_text(ir, t.as_str(), Ghost(d1));
            assert(d1.push(Doc::Text(t@)) =~= ds + comparator_docs(*v));
        },
        VersionComparator::Or => {
            push_text(ir, "/* or version */", Ghost(ds));
            assert(ds.push(Doc::Text("/* or version */"@)) =~= ds + comparator_docs(*v));
        },
        VersionComparator::Range { from, to } => {
            let a = dotted_string(from);
            let b = dotted_string(to);
            let mid = chars_of(" - ");
            let mut cs = chars_of(a.as_str());
            push_all(&mut cs, mid.as_slice());
            let bc = chars_of(b.as_str());
            push_all(&mut cs, bc.as_slice());
            let t = string_from(cs.as_slice());
            push_text(ir, t.as_str(), Ghost(ds));
            assert(ds.push(Doc::Text(t@)) =~= ds + comparator_docs(*v));
        },
    }
}

/// The IR of a pragma directive, after its comments (SPDX license comments
/// left out).
#[verifier::spinoff_prover]
pub fn build_pragma_ir(pragma: &CommentedElement<PragmaDirective>) -> (r: Vec<IRElement>)
    requires
        comments_ok(pragma.leading_comments@),
        comments_ok(pragma.trailing_comments@),
    ensures
        docs(
            r@,
            with_comments_docs_ns(pragma.leading_comments@, pragma.trailing_comments@)
                + pragma_body_docs(pragma.element),
        ),
{
    let mut ir: Vec<IRElement> = Vec::new();
    proof {
        lemma_docs(ir@, Seq::empty());
    }
    let ghost d0: Seq<Doc> = Seq::empty();
    push_text(&mut ir, "pragma", Ghost(d0));
    let ghost d1 = seq![Doc::Text("pragma"@)];
    assert(d0.push(Doc::Text("pragma"@)) =~= d1);
    push_text(&mut ir, " ", Ghost(d1));
    let ghost head = seq![Doc::Text("pragma"@), Doc::Text(" "@)];
    assert(seq![Doc::Text("pragma"@)].push(Doc::Text(" "@)) =~= head);
    let ghost mut ds = head;
    match &pragma.element {
        PragmaDirective::Identifier(id, val) => {
            match id {
                Some(n) => {
                    push_text(&mut ir, n.as_str(), Ghost(ds));
                    proof {
                        ds = ds.push(Doc::Text(n@));
                    }
                },
                None => {},
            }
            match val {
                Some(v) => {
                    push_text(&mut ir, " ", Ghost(ds));
                    push_text(&mut ir, v.as_str(), Ghost(ds.push(Doc::Text(" "@))));
                    proof {
                        ds = ds.push(Doc::Text(" "@)).push(Doc::Text(v@));
                    }
                },
                None => {},
            }
            assert(ds =~= head + match pragma.element {
                PragmaDirective::Identifier(id, val) => (match id {
                    Some(n) => seq![Doc::Text(n@)],
                    None => Seq::empty(),
                }) + (match val {
                    Some(v) => seq![Doc::Text(" "@), Doc::Text(v@)],
                    None => Seq::empty(),
                }),
                _ => Seq::empty(),
            });
        },
        PragmaDirective::Version(vs) => {
            push_text(&mut ir, "solidity", Ghost(ds));
            proof {
                ds = ds.push(Doc::Text("solidity"@));
            }
            let ghost base = ds;
            let mut i: usize = 0;
            assert(vs@.take(0) =~= Seq::<VersionComparator>::empty());
            assert(base =~= base + versions_docs(vs@.take(0)));
            while i < vs.len()
                invariant
                    i <= vs@.len(),
                    docs(ir@, base + versions_docs(vs@.take(i as int))),
                decreases vs@.len() - i,
            {
                let ghost pre = base + versions_docs(vs@.take(i as int));
                assert(vs@.take(i + 1).drop_last() =~= vs@.take(i as int));
                assert(vs@.take(i + 1).last() == vs@[i as int]);
                if i > 0 {
                    push_text(&mut ir, " || ", Ghost(pre));
                } else {
                    push_text(&mut ir, " ", Ghost(pre));
                }
                let ghost sep = if i > 0 {
                    " || "@
                } else {
                    " "@
                };
                push_comparator(&mut ir, &vs[i], Ghost(pre.push(Doc::Text(sep))));
                assert(pre.push(Doc::Text(sep)) + comparator_docs(vs@[i as int]) =~= base
                    + versions_docs(vs@.take(i + 1)));
                i = i + 1;
            }
            assert(vs@.take(vs@.len() as int) =~= vs@);
            proof {
                ds = base + versions_docs(vs@);
            }
            assert(ds =~= head + (seq![Doc::Text("solidity"@)] + versions_docs(vs@)));
        },
        PragmaDirective::StringLiteral(n, v) => {
            push_text(&mut ir, n.as_str(), Ghost(ds));
            push_text(&mut ir, " ", Ghost(ds.push(Doc::Text(n@))));
            let mut cs: Vec<char> = vec!['"'];
            let vc = chars_of(v.as_str());
            push_all(&mut cs, vc.as_slice());
            cs.push('"');
            let quoted = string_from(cs.as_slice());
            assert(quoted@ =~= seq!['"'] + v@ + seq!['"']);
            push_text(&mut ir, quoted.as_str(), Ghost(ds.push(Doc::Text(n@)).push(Doc::Text(" "@))));
            proof {
                ds = ds.push(Doc::Text(n@)).push(Doc::Text(" "@)).push(Doc::Text(quoted@));
            }
            assert(ds =~= head + seq![
                Doc::Text(n@),
                Doc::Text(" "@),
                Doc::Text(seq!['"'] + v@ + seq!['"']),
            ]);
        },
    }
    push_text(&mut ir, ";", Ghost(ds));
    assert(ds.push(Doc::Text(";"@)) =~= pragma_body_docs(pragma.element));
    let ghost body = ir@;
    let r = with_comments_no_spdx(
        pragma.leading_comments.as_slice(),
        pragma.trailing_comments.as_slice(),
        ir,
    );
    proof {
        let n = r@.len() - body.len();
        lemma_docs_append(
            r@.take(n),
            with_comments_docs_ns(pragma.leading_comments@, pragma.trailing_comments@),
            body,
            pragma_body_docs(pragma.element),
        );
        assert(r@.take(n) + body =~= r@);
    }
    r
}

/// The text after the last `/`, the whole text where there is none.
pub open spec fn after_last_slash(s: Seq<char>) -> Seq<char>
    decreases s.len(),
{
    if s.len() == 0 {
        s
    } else if s.last() == '/' {
        Seq::empty()
    } else {
        after_last_slash(s.drop_last()).push(s.last())
    }
}

proof fn lemma_after_last_slash(s: Seq<char>, j: int)
    requires
        0 <= j <= s.len(),
        j == 0 || s[j - 1] == '/',
        forall|k: int| j <= k < s.len() ==> s[k] != '/',
    ensures
        after_last_slash(s) == s.subrange(j, s.len() as int),
    decreases s.len(),
{
    if s.len() > j {
        lemma_after_last_slash(s.drop_last(), j);
        assert(s.subrange(j, s.len() as int) =~= s.drop_last().subrange(j, s.len() - 1).push(
            s.last(),
        ));
    } else if j > 0 {
        assert(s.subrange(j, s.len() as int) =~= Seq::<char>::empty());
    }
}

/// The symbol that a plain import names: the file name without directories
/// and without `.sol`, or the last identifier of a path.
pub open spec fn import_symbol(p: ImportPath) -> Seq<char> {
    match p {
        ImportPath::Filename(s) => strip_suffix_or_keep(after_last_slash(s@), ".sol"@),
        ImportPath::Path(ip) => if ip.identifiers@.len() > 0 {
            ip.identifiers@.last()@
        } else {
            Seq::empty()
        },
    }
}

/// The symbol that a plain import names.
fn extract_symbol_from_path(path: &ImportPath) -> (r: String)
    ensures
        r@ == import_symbol(*path),
{
    match path {
        ImportPath::Filename(s) => {
            let cs = chars_of(s.as_str());
            let mut j: usize = cs.len();
            while j > 0 && cs[j - 1] != '/'
                invariant
                    j <= cs@.len(),
                    forall|k: int| j <= k < cs@.len() ==> cs@[k] != '/',
                decreases j,
            {
                j = j - 1;
            }
            proof {
                lemma_after_last_slash(cs@, j as int);
            }
            let file = slice_chars(cs.as_slice(), j, cs.len());
            let sol = chars_of(".sol");
            let stem = strip_suffix_chars(file.as_slice(), sol.as_slice());
            string_from(stem.as_slice())
        },
        ImportPath::Path(ip) => {
            if ip.identifiers.len() > 0 {
                ip.identifiers[ip.identifiers.len() - 1].clone()
            } else {
                String::new()
            }
        },
    }
}

/// The IR of an import path: a quoted file name, or the dotted identifiers.
pub open spec fn import_path_doc(p: ImportPath) -> Doc {
    match p {
        ImportPath::Filename(s) => Doc::Text(seq!['"'] + s@ + seq!['"']),
        ImportPath::Path(ip) => Doc::Text(identifier_path_text(ip)),
    }
}

/// The IR of an import path.
fn import_path_ir(path: &ImportPath) -> (r: IRElement)
    ensures
        doc_match(r, import_path_doc(*path)),
{
    match path {
        ImportPath::Filename(s) => {
            let mut cs: Vec<char> = vec!['"'];
            let sc = chars_of(s.as_str());
            push_all(&mut cs, sc.as_slice());
            cs.push('"');
            assert(cs@ =~= seq!['"'] + s@ + seq!['"']);
            IRElement::Text(string_from(cs.as_slice()))
        },
        ImportPath::Path(ip) => IRElement::Text(format_identifier_path(ip)),
    }
}

/// The imported names of a renaming import: `a as b, c`.
pub open spec fn rename_docs(rs: Seq<(String, Option<String>)>) -> Seq<Doc>
    decreases rs.len(),
{
    if rs.len() == 0 {
        Seq::empty()
    } else {
        let pre = rename_docs(rs.drop_last());
        let sep = if rs.len() > 1 {
            seq![Doc::Text(", "@)]
        } else {
            Seq::empty()
        };
        pre + sep + seq![Doc::Text(rs.last().0@)] + match rs.last().1 {
            Some(n) => seq![Doc::Text(" as "@), Doc::Text(n@)],
            None => Seq::empty(),
        }
    }
}

/// The end of a braced import: ` }`, ` from` and the path, indented when the
/// line breaks.
pub open spec fn from_path_docs(p: ImportPath) -> Seq<Doc> {
    seq![Doc::Text(" }"@), Doc::Text(" from"@), Doc::Indent(seq![Doc::Soft, import_path_doc(p)])]
}

/// The elements of an import's group. A plain import is written as a named
/// import of its file's symbol.
pub open spec fn import_inner_docs(i: Import) -> Seq<Doc> {
    seq![Doc::Text("import"@), Doc::Text(" "@)] + match i {
        Import::Plain(p) => seq![Doc::Text("{ "@), Doc::Text(import_symbol(p))] + from_path_docs(p),
        Import::GlobalSymbol(p, sym) => seq![import_path_doc(p), Doc::Text(" as "@), Doc::Text(sym@)],
        Import::Rename(p, rs) => seq![Doc::Text("{ "@)] + rename_docs(rs@) + from_path_docs(p),
    } + seq![Doc::Text(";"@)]
}

/// Appends an element with its model.
fn push_elem(ir: &mut Vec<IRElement>, e: IRElement, Ghost(ds): Ghost<Seq<Doc>>, Ghost(d): Ghost<Doc>)
    requires
        docs(old(ir)@, ds),
        doc_match(e, d),
    ensures
        docs(final(ir)@, ds.push(d)),
{
    proof {
        lemma_docs_push(ir@, ds, e, d);
    }
    ir.push(e);
}

/// Appends ` }`, ` from` and the indented path.
fn push_from_path(ir: &mut Vec<IRElement>, path: &ImportPath, Ghost(ds): Ghost<Seq<Doc>>)
    requires
        docs(old(ir)@, ds),
    ensures
        docs(final(ir)@, ds + from_path_docs(*path)),
{
    push_text(ir, " }", Ghost(ds));
    push_text(ir, " from", Ghost(ds.push(Doc::Text(" }"@))));
    let p = import_path_ir(path);
    let ghost pd = seq![Doc::Soft, import_path_doc(*path)];
    let inner = vec![IRElement::SoftLineBreak, p];
    proof {
        lemma_docs(inner@, pd);
    }
    let e = IRElement::Indent(inner);
    push_elem(
        ir,
        e,
        Ghost(ds.push(Doc::Text(" }"@)).push(Doc::Text(" from"@))),
        Ghost(Doc::Indent(pd)),
    );
    assert(ds.push(Doc::Text(" }"@)).push(Doc::Text(" from"@)).push(Doc::Indent(pd))
        =~= ds + from_path_docs(*path));
}

/// The IR of an import directive: one group. Comments around imports are
/// dropped, since imports are reordered.
#[verifier::spinoff_prover]
pub fn build_import_ir(import: &CommentedElement<Import>) -> (r: Vec<IRElement>)
    ensures
        docs(r@, seq![Doc::Group(import_inner_docs(import.element))]),
{
    let mut ir: Vec<IRElement> = Vec::new();
    proof {
        lemma_docs(ir@, Seq::empty());
    }
    let ghost d0: Seq<Doc> = Seq::empty();
    push_text(&mut ir, "import", Ghost(d0));
    let ghost d1 = seq![Doc::Text("import"@)];
    assert(d0.push(Doc::Text("import"@)) =~= d1);
    push_text(&mut ir, " ", Ghost(d1));
    let ghost head = seq![Doc::Text("import"@), Doc::Text(" "@)];
    assert(d1.push(Doc::Text(" "@)) =~= head);
    let ghost mut ds = head;
    match &import.element {
        Import::Plain(path) => {
            let sym = extract_symbol_from_path(path);
            push_text(&mut ir, "{ ", Ghost(ds));
            push_text(&mut ir, sym.as_str(), Ghost(ds.push(Doc::Text("{ "@))));
            push_from_path(
                &mut ir,
                path,
                Ghost(ds.push(Doc::Text("{ "@)).push(Doc::Text(sym@))),
            );
            proof {
                ds = ds.push(Doc::Text("{ "@)).push(Doc::Text(sym@)) + from_path_docs(*path);
            }
            assert(ds =~= head + (seq![Doc::Text("{ "@), Doc::Text(import_symbol(*path))]
                + from_path_docs(*path)));
        },
        Import::GlobalSymbol(path, sym) => {
            let p = import_path_ir(path);
            push_elem(&mut ir, p, Ghost(ds), Ghost(import_path_doc(*path)));
            push_text(&mut ir, " as ", Ghost(ds.push(import_path_doc(*path))));
            push_text(
                &mut ir,
                sym.as_str(),
                Ghost(ds.push(import_path_doc(*path)).push(Doc::Text(" as "@))),
            );
            proof {
                ds = ds.push(import_path_doc(*path)).push(Doc::Text(" as "@)).push(
                    Doc::Text(sym@),
                );
            }
            assert(ds =~= head + seq![
                import_path_doc(*path),
                Doc::Text(" as "@),
                Doc::Text(sym@),
            ]);
        },
        Import::Rename(path, renames) => {
            push_text(&mut ir, "{ ", Ghost(ds));
            let ghost base = ds.push(Doc::Text("{ "@));
            let mut i: usize = 0;
            assert(renames@.take(0) =~= Seq::<(String, Option<String>)>::empty());
            assert(base =~= base + rename_docs(renames@.take(0)));
            while i < renames.len()
                invariant
                    i <= renames@.len(),
                    docs(ir@, base + rename_docs(renames@.take(i as int))),
                decreases renames@.len() - i,
            {
                let ghost pre = base + rename_docs(renames@.take(i as int));
                assert(renames@.take(i + 1).drop_last() =~= renames@.take(i as int));
                assert(renames@.take(i + 1).last() == renames@[i as int]);
                let ghost mut cur = pre;
                if i > 0 {
                    push_text(&mut ir, ", ", Ghost(cur));
                    proof {
                        cur = cur.push(Doc::Text(", "@));
                    }
                }
                let (from, to) = &renames[i];
                push_text(&mut ir, from.as_str(), Ghost(cur));
                proof {
                    cur = cur.push(Doc::Text(from@));
                }
                match to {
                    Some(n) => {
                        push_text(&mut ir, " as ", Ghost(cur));
                        push_text(&mut ir, n.as_str(), Ghost(cur.push(Doc::Text(" as "@))));
                        proof {
                            cur = cur.push(Doc::Text(" as "@)).push(Doc::Text(n@));
                        }
                    },
                    None => {},
                }
                assert(cur =~= base + rename_docs(renames@.take(i + 1)));
                i = i + 1;
            }
            assert(renames@.take(renames@.len() as int) =~= renames@);
            push_from_path(&mut ir, path, Ghost(base + rename_docs(renames@)));
            proof {
                ds = base + rename_docs(renames@) + from_path_docs(*path);
            }
            assert(ds =~= head + (seq![Doc::Text("{ "@)] + rename_docs(renames@) + from_path_docs(
                *path,
            )));
        },
    }
    push_text(&mut ir, ";", Ghost(ds));
    assert(ds.push(Doc::Text(";"@)) =~= import_inner_docs(import.element));
    let ghost inner = ir@;
    let g = IRElement::Group(ir);
    let r = vec![g];
    proof {
        lemma_docs(r@, seq![Doc::Group(import_inner_docs(import.element))]);
    }
    r
}

/// The symbol of an operator.
pub open spec fn operator_text(o: UserDefinedOperator) -> Seq<char> {
    match o {
        UserDefinedOperator::BitwiseAnd => "&"@,
        UserDefinedOperator::BitwiseNot => "~"@,
        UserDefinedOperator::BitwiseOr => "|"@,
        UserDefinedOperator::BitwiseXor => "^"@,
        UserDefinedOperator::Add => "+"@,
        UserDefinedOperator::Divide => "/"@,
        UserDefinedOperator::Modulo => "%"@,
        UserDefinedOperator::Multiply => "*"@,
        UserDefinedOperator::Subtract => "-"@,
        UserDefinedOperator::Negate => "-"@,
        UserDefinedOperator::Equal => "=="@,
        UserDefinedOperator::More => ">"@,
        UserDefinedOperator::MoreEqual => ">="@,
        UserDefinedOperator::Less => "<"@,
        UserDefinedOperator::LessEqual => "<="@,
        UserDefinedOperator::NotEqual => "!="@,
    }
}

/// The symbol of an operator.
fn operator_str(o: &UserDefinedOperator) -> (r: &'static str)
    ensures
        r@ == operator_text(*o),
{
    match o {
        UserDefinedOperator::BitwiseAnd => "&",
        UserDefinedOperator::BitwiseNot => "~",
        UserDefinedOperator::BitwiseOr => "|",
        UserDefinedOperator::BitwiseXor => "^",
        UserDefinedOperator::Add => "+",
        UserDefinedOperator::Divide => "/",
        UserDefinedOperator::Modulo => "%",
        UserDefinedOperator::Multiply => "*",
        UserDefinedOperator::Subtract => "-",
        UserDefinedOperator::Negate => "-",
        UserDefinedOperator::Equal => "==",
        UserDefinedOperator::More => ">",
        UserDefinedOperator::MoreEqual => ">=",
        UserDefinedOperator::Less => "<",
        UserDefinedOperator::LessEqual => "<=",
        UserDefinedOperator::NotEqual => "!=",
    }
}

/// The functions of a `using` list, separated by a comma and a soft break,
/// each with ` as ` and its operator when it is bound to one.
pub open spec fn using_fn_docs(fs: Seq<UsingFunction>) -> Seq<Doc>
    decreases fs.len(),
{
    if fs.len() == 0 {
        Seq::empty()
    } else {
        let f = fs.last();
        using_fn_docs(fs.drop_last()) + (if fs.len() > 1 {
            seq![Doc::Text(","@), Doc::Soft]
        } else {
            Seq::empty()
        }) + seq![Doc::Text(identifier_path_text(f.path))] + match f.oper {
            Some(o) => seq![Doc::Text(" as "@), Doc::Text(operator_text(o))],
            None => Seq::empty(),
        }
    }
}

/// What a `using` directive attaches: the library, the braced functions
/// (more than two of them in an indented group that can break), or `ERROR`.
pub open spec fn using_list_docs(l: UsingList) -> Seq<Doc> {
    match l {
        UsingList::Library(p) => seq![Doc::Text(identifier_path_text(p))],
        UsingList::Functions(fs) => seq![Doc::Text("{"@)] + (if fs@.len() > 2 {
            seq![Doc::Indent(seq![Doc::Soft, Doc::Group(using_fn_docs(fs@)), Doc::Soft])]
        } else {
            using_fn_docs(fs@)
        }) + seq![Doc::Text("}"@)],
        UsingList::Error => seq![Doc::Text("ERROR"@)],
    }
}

/// A `using` directive as one group: `using`, what it attaches, ` for `, the
/// type (`*` for all), ` global` if it is, `;`.
pub open spec fn using_docs(u: Using) -> Seq<Doc> {
    seq![
        Doc::Group(
            seq![Doc::Text("using"@), Doc::Text(" "@)] + using_list_docs(u.list) + seq![
                Doc::Text(" for "@),
                match u.ty_ir {
                    Some(t) => doc_of(t),
                    None => Doc::Text("*"@),
                },
            ] + (if u.global {
                seq![Doc::Text(" global"@)]
            } else {
                Seq::empty()
            }) + seq![Doc::Text(";"@)],
        ),
    ]
}

/// The IR of the functions of a `using` list.
fn using_fn_ir(fs: &Vec<UsingFunction>) -> (r: Vec<IRElement>)
    ensures
        docs(r@, using_fn_docs(fs@)),
{
    let mut ir: Vec<IRElement> = Vec::new();
    proof {
        lemma_docs(ir@, Seq::empty());
    }
    let mut i: usize = 0;
    assert(fs@.take(0) =~= Seq::<UsingFunction>::empty());
    while i < fs.len()
        invariant
            i <= fs@.len(),
            docs(ir@, using_fn_docs(fs@.take(i as int))),
        decreases fs@.len() - i,
    {
        let ghost pre = using_fn_docs(fs@.take(i as int));
        assert(fs@.take(i + 1).drop_last() =~= fs@.take(i as int));
        assert(fs@.take(i + 1).last() == fs@[i as int]);
        let ghost sep = if i + 1 > 1 {
            seq![Doc::Text(","@), Doc::Soft]
        } else {
            Seq::<Doc>::empty()
        };
        if i > 0 {
            push_text(&mut ir, ",", Ghost(pre));
            push_elem(&mut ir, IRElement::SoftLineBreak, Ghost(pre.push(Doc::Text(","@))), Ghost(Doc::Soft));
            assert(pre.push(Doc::Text(","@)).push(Doc::Soft) =~= pre + sep);
        } else {
            assert(pre =~= pre + sep);
        }
        let f = &fs[i];
        let path = format_identifier_path(&f.path);
        push_text(&mut ir, path.as_str(), Ghost(pre + sep));
        let ghost p1 = (pre + sep).push(Doc::Text(path@));
        match &f.oper {
            Some(o) => {
                push_text(&mut ir, " as ", Ghost(p1));
                push_text(&mut ir, operator_str(o), Ghost(p1.push(Doc::Text(" as "@))));
                assert(p1.push(Doc::Text(" as "@)).push(Doc::Text(operator_text(*o))) =~= using_fn_docs(
                    fs@.take(i + 1),
                ));
            },
            None => {
                assert(p1 =~= using_fn_docs(fs@.take(i + 1)));
            },
        }
        i = i + 1;
    }
    assert(fs@.take(i as int) =~= fs@);
    ir
}

/// The IR of a `using` directive, after the comments around it: one group
/// with `using`, the library or the braced functions (more than two of them
/// in an indented group that can break), ` for `, the type (`*` for all),
/// ` global` if it is, and `;`.
#[verifier::spinoff_prover]
pub fn build_using_directive_ir(using: CommentedElement<Using>) -> (r: Vec<IRElement>)
    ensures
        docs(r@, with_comments_docs(using.leading_comments@, using.trailing_comments@) + using_docs(using.element)),
{
    let ghost u = using.element;
    let CommentedElement { element, leading_comments, trailing_comments } = using;
    let Using { list, ty_ir, global } = element;
    let mut ir: Vec<IRElement> = vec![IRElement::text("using"), IRElement::text(" ")];
    let ghost d0 = seq![Doc::Text("using"@), Doc::Text(" "@)];
    proof {
        lemma_docs(ir@, d0);
    }
    match &list {
        UsingList::Library(p) => {
            let path = format_identifier_path(p);
            push_text(&mut ir, path.as_str(), Ghost(d0));
            assert(d0.push(Doc::Text(path@)) =~= d0 + using_list_docs(u.list));
        },
        UsingList::Functions(fs) => {
            push_text(&mut ir, "{", Ghost(d0));
            let ghost d1 = d0.push(Doc::Text("{"@));
            let group = using_fn_ir(fs);
            let ghost fd = using_fn_docs(fs@);
            let ghost mid = if fs@.len() > 2 {
                seq![Doc::Indent(seq![Doc::Soft, Doc::Group(fd), Doc::Soft])]
            } else {
                fd
            };
            if fs.len() > 2 {
                let inner = vec![IRElement::SoftLineBreak, IRElement::Group(group), IRElement::SoftLineBreak];
                proof {
                    lemma_docs(inner@, seq![Doc::Soft, Doc::Group(fd), Doc::Soft]);
                }
                push_elem(&mut ir, IRElement::Indent(inner), Ghost(d1), Ghost(mid[0]));
                assert(d1.push(mid[0]) =~= d1 + mid);
            } else {
                let mut g = group;
                proof {
                    lemma_docs_append(ir@, d1, g@, fd);
                }
                ir.append(&mut g);
            }
            push_text(&mut ir, "}", Ghost(d1 + mid));
            assert((d1 + mid).push(Doc::Text("}"@)) =~= d0 + using_list_docs(u.list));
        },
        UsingList::Error => {
            push_text(&mut ir, "ERROR", Ghost(d0));
            assert(d0.push(Doc::Text("ERROR"@)) =~= d0 + using_list_docs(u.list));
        },
    }
    let ghost d2 = d0 + using_list_docs(u.list);
    assert(docs(ir@, d2));
    push_text(&mut ir, " for ", Ghost(d2));
    let ghost d3 = d2.push(Doc::Text(" for "@));
    let ghost td = match u.ty_ir {
        Some(t) => doc_of(t),
        None => Doc::Text("*"@),
    };
    match ty_ir {
        Some(t) => {
            proof {
                lemma_doc_of(t);
            }
            push_elem(&mut ir, t, Ghost(d3), Ghost(td));
        },
        None => {
            push_text(&mut ir, "*", Ghost(d3));
        },
    }
    let ghost d4 = d3.push(td);
    let ghost gl = if u.global {
        seq![Doc::Text(" global"@)]
    } else {
        Seq::<Doc>::empty()
    };
    if global {
        push_text(&mut ir, " global", Ghost(d4));
        assert(d4.push(Doc::Text(" global"@)) =~= d4 + gl);
    } else {
        assert(d4 =~= d4 + gl);
    }
    push_text(&mut ir, ";", Ghost(d4 + gl));
    let ghost inner = (d4 + gl).push(Doc::Text(";"@));
    let ghost x = seq![Doc::Text("using"@), Doc::Text(" "@)] + using_list_docs(u.list) + seq![
        Doc::Text(" for "@),
        td,
    ] + gl + seq![Doc::Text(";"@)];
    assert(inner =~= x);
    assert(using_docs(u).len() == 1);
    assert(using_docs(u)[0] is Group);
    assert(using_docs(u)[0]->Group_0 =~= x);
    assert(using_docs(u) == seq![Doc::Group(x)]);
    let body = vec![IRElement::Group(ir)];
    proof {
        lemma_docs(body@, seq![Doc::Group(inner)]);
    }
    let ghost bv = body@;
    let r = with_comments(leading_comments.as_slice(), trailing_comments.as_slice(), body);
    proof {
        let n = r@.len() - bv.len();
        lemma_docs_append(r@.take(n), with_comments_docs(leading_comments@, trailing_comments@), bv, using_docs(u));
        assert(r@.take(n) + bv =~= r@);
    }
    r
}

/// A user-defined value type: `type Name is T;`.
pub open spec fn type_definition_docs(t: TypeDefinition) -> Seq<Doc> {
    seq![
        Doc::Text("type"@),
        Doc::Text(" "@),
        Doc::Text(t.name@),
        Doc::Text(" is "@),
        doc_of(t.ty_ir),
        Doc::Text(";"@),
    ]
}

/// The IR of a user-defined value type after the comments around it:
/// `type Name is T;`.
pub fn build_type_definition_ir(type_def: CommentedElement<TypeDefinition>) -> (r: Vec<IRElement>)
    ensures
        docs(
            r@,
            with_comments_docs(type_def.leading_comments@, type_def.trailing_comments@) + type_definition_docs(
                type_def.element,
            ),
        ),
{
    let ghost t = type_def.element;
    let CommentedElement { element, leading_comments, trailing_comments } = type_def;
    let TypeDefinition { name, ty_ir } = element;
    proof {
        lemma_doc_of(ty_ir);
    }
    let body = vec![
        IRElement::text("type"),
        IRElement::text(" "),
        IRElement::Text(name),
        IRElement::text(" is "),
        ty_ir,
        IRElement::text(";"),
    ];
    proof {
        lemma_docs(body@, type_definition_docs(t));
    }
    let ghost bv = body@;
    let r = with_comments(leading_comments.as_slice(), trailing_comments.as_slice(), body);
    proof {
        let n = r@.len() - bv.len();
        lemma_docs_append(
            r@.take(n),
            with_comments_docs(leading_comments@, trailing_comments@),
            bv,
            type_definition_docs(t),
        );
        assert(r@.take(n) + bv =~= r@);
    }
    r
}

} // verus!
