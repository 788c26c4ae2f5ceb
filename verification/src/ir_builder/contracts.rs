//! Contracts: their NatSpec block with the tags every contract carries,
//! their header and body, and the events they declare.
use vstd::prelude::*;
use crate::ir_builder::ir::{doc_match, doc_of, docs, lemma_doc_of, lemma_docs, Doc, IRElement};
use crate::ir_builder::functions::{extend_last, extend_last_chars};
use crate::ir_builder::types::{
    assoc_append, assoc_get, assoc_insert, generate_enum_natspec, moved_comments_docs, names_of, param_names,
    push_block, push_doc, push_moved_comments, push_text, table_append, table_get, table_insert, table_views,
    todo_natspec_docs,
};
use crate::ir_builder::variables::{after, strip_all_prefix, strip_all_prefix_chars};
use crate::ir_builder::{lemma_docs_drop_last, push_hard};
use crate::ir_builder::constants::{
    const_views, has_name, resolve_chars, resolved_order, struct_const_deps, struct_deps_chars, ConstTable,
};
use crate::ir_builder::ir::{docs_of, lemma_docs_of};
use crate::ast::{BinaryOp, CollectedFunction, Expression};
use crate::model::{expr_refs, is_constant, value_refs, VariableAttribute};
use crate::ir_builder::variables::var_ok;
use crate::ir_builder::function_ir::{build_function_ir, function_item_docs, fns_ok};
use crate::ir_builder::function_definition::fn_ok;
use crate::ir_builder::ordering::{format_identifier_path, identifier_path_text};
use crate::ir_builder::toplevel::{
    build_type_definition_ir, build_using_directive_ir, type_definition_docs, using_docs,
};
use crate::ir_builder::comments::{
    build_comment, build_natspec_comment_ir, comment_doc, natspec_content_ok, natspec_docs, with_comments_docs,
};
use crate::ir_builder::types::{
    build_enum_ir, build_error_ir, build_struct_ir, comment_lines_docs, enum_ir_docs, error_ir_docs, struct_ir_docs,
};
use crate::ir_builder::variables::{build_variable_definition_ir, var_comments_ok, var_decl_docs, var_doc_docs};
use crate::model::{
    comment_text, mapping_depth, Base, CollectedEnum, CollectedError, CollectedEvent, CollectedStruct, Comment,
    CommentedElement, ContractContents, ContractDefinition, CollectedContract, ContractTy, Parameter, TypeDefinition, Using,
    VariableDefinition,
};
use crate::ir_builder::{lemma_docs_append, lemma_docs_push, text_with_word_breaks, word_break_docs};
use crate::text::{
    chars_equal, chars_of, ends_with, is_ws, trim_end, trim_start, has_suffix, find_char, first_index, has_prefix, join, lemma_first_index, lines, split_lines,
    strip_prefix_chars, strip_prefix_or_keep, strip_suffix_chars, strip_suffix_or_keep, join_chars, push_all, slice_chars, starts_with, str_views,
    string_from, trim, trim_chars, views, words,
};

verus! {

/// What a contract's NatSpec lines provide.
pub struct ContractDocs {
    /// `@title`, `@author` and `@custom:terry` lines, in order.
    pub head: Seq<Seq<char>>,
    /// Whether a `@title` line was seen.
    pub has_title: bool,
    /// Whether an `@author` line was seen.
    pub has_author: bool,
    /// Whether a `@custom:terry` line was seen.
    pub has_terry: bool,
    /// `@notice` and `@dev` texts, with their continuation lines.
    pub notices: Seq<Seq<char>>,
    /// Plain lines seen before any notice.
    pub desc: Seq<Seq<char>>,
    /// Other tags.
    pub customs: Seq<Seq<char>>,
    /// The last `@custom:date` line.
    pub date: Option<Seq<char>>,
}

/// The contract's documentation after one more line.
pub open spec fn contract_line(s: ContractDocs, line: Seq<char>) -> ContractDocs {
    let t = trim(line);
    if has_prefix(t, "@title "@) {
        ContractDocs { head: s.head.push(t), has_title: true, ..s }
    } else if has_prefix(t, "@author "@) {
        ContractDocs { head: s.head.push(t), has_author: true, ..s }
    } else if has_prefix(t, "@custom:terry "@) {
        ContractDocs { head: s.head.push(t), has_terry: true, ..s }
    } else if has_prefix(t, "@custom:date "@) {
        ContractDocs { date: Some(t), ..s }
    } else if has_prefix(t, "@notice "@) {
        ContractDocs { notices: s.notices.push(trim(after(t, 8))), ..s }
    } else if has_prefix(t, "@dev "@) {
        ContractDocs { notices: s.notices.push(trim(after(t, 5))), ..s }
    } else if has_prefix(t, "@custom:benediction "@) {
        s
    } else if has_prefix(t, "@"@) {
        ContractDocs { customs: s.customs.push(t), ..s }
    } else if t.len() > 0 {
        if s.notices.len() > 0 {
            ContractDocs {
                notices: s.notices.drop_last().push(s.notices.last() + seq![' '] + t),
                ..s
            }
        } else {
            ContractDocs { desc: s.desc.push(t), ..s }
        }
    } else {
        s
    }
}

/// What the lines provide, in order.
pub open spec fn contract_scan(ls: Seq<Seq<char>>) -> ContractDocs
    decreases ls.len(),
{
    if ls.len() == 0 {
        ContractDocs {
            head: Seq::empty(),
            has_title: false,
            has_author: false,
            has_terry: false,
            notices: Seq::empty(),
            desc: Seq::empty(),
            customs: Seq::empty(),
            date: None,
        }
    } else {
        contract_line(contract_scan(ls.drop_last()), ls.last())
    }
}

/// Each text followed by a line break.
pub open spec fn lines_then_breaks(ts: Seq<Seq<char>>) -> Seq<Doc>
    decreases ts.len(),
{
    if ts.len() == 0 {
        Seq::empty()
    } else {
        lines_then_breaks(ts.drop_last()) + seq![Doc::Text(ts.last()), Doc::Hard]
    }
}

/// The standard benediction line.
pub open spec fn benediction() -> Seq<char> {
    "@custom:benediction DEVS BENEDICAT ET PROTEGAT CONTRACTVM MEVM"@
}

/// The default `@custom:terry` line.
pub open spec fn default_terry() -> Seq<char> {
    "@custom:terry \"Is this too much voodoo for the next ten centuries?\""@
}

/// The body of a contract's NatSpec block: the benediction; the title,
/// author and terry lines as given, with defaults for the missing ones; the
/// other tags; a blank line and the description (notices first, else plain
/// lines, else `TODO`); a blank line and the date (`TODO.` when missing).
pub open spec fn contract_content_docs(s: ContractDocs, name: Seq<char>) -> Seq<Doc> {
    seq![Doc::Hard, Doc::Text(benediction()), Doc::Hard] + lines_then_breaks(s.head) + (if !s.has_title {
        seq![Doc::Text("@title "@ + name), Doc::Hard]
    } else {
        Seq::empty()
    }) + (if !s.has_author {
        seq![Doc::Text("@author TODO"@), Doc::Hard]
    } else {
        Seq::empty()
    }) + (if !s.has_terry {
        seq![Doc::Text(default_terry()), Doc::Hard]
    } else {
        Seq::empty()
    }) + lines_then_breaks(s.customs) + seq![Doc::Hard] + (if s.notices.len() > 0 {
        seq![Doc::Group(word_break_docs(words(join(s.notices, " "@))))]
    } else if s.desc.len() > 0 {
        seq![Doc::Group(word_break_docs(words(join(s.desc, " "@))))]
    } else {
        seq![Doc::Text("TODO"@)]
    }) + seq![Doc::Hard, Doc::Hard] + match s.date {
        Some(d) => seq![Doc::Text(d)],
        None => seq![Doc::Text("@custom:date TODO."@)],
    }
}

/// The NatSpec block of contract `name` documented by `lines`.
pub open spec fn contract_natspec_docs(lines: Seq<Seq<char>>, name: Seq<char>) -> Seq<Doc> {
    seq![
        Doc::Text("/**"@),
        Doc::Indent(contract_content_docs(contract_scan(lines), name)),
        Doc::Hard,
        Doc::Text("*/"@),
    ]
}

/// The gathered documentation, held as character vectors.
struct ContractState {
    head: Vec<Vec<char>>,
    has_title: bool,
    has_author: bool,
    has_terry: bool,
    notices: Vec<Vec<char>>,
    desc: Vec<Vec<char>>,
    customs: Vec<Vec<char>>,
    date: Option<Vec<char>>,
}

impl ContractState {
    spec fn parts(&self) -> ContractDocs {
        ContractDocs {
            head: views(self.head@),
            has_title: self.has_title,
            has_author: self.has_author,
            has_terry: self.has_terry,
            notices: views(self.notices@),
            desc: views(self.desc@),
            customs: views(self.customs@),
            date: match self.date {
                Some(d) => Some(d@),
                None => None,
            },
        }
    }
}

/// Pushes a character vector, extending the views.
fn push_view(v: &mut Vec<Vec<char>>, x: Vec<char>)
    ensures
        views(final(v)@) == views(old(v)@).push(x@),
{
    let ghost before = views(v@);
    let ghost xv = x@;
    v.push(x);
    assert(views(v@) =~= before.push(xv));
}

/// Takes one more NatSpec line.
#[verifier::spinoff_prover]
fn contract_step(st: &mut ContractState, line: &String)
    ensures
        final(st).parts() == contract_line(old(st).parts(), line@),
{
    let lc = chars_of(line.as_str());
    let t = trim_chars(lc.as_slice());
    let ghost s0 = st.parts();
    let ghost tv = trim(line@);
    assert(t@ == tv);
    assert(views(st.notices@).len() == st.notices@.len());
    proof {
        reveal_strlit("@notice ");
        reveal_strlit("@dev ");
    }
    let n = t.len();
    if starts_with(t.as_slice(), chars_of("@title ").as_slice()) {
        push_view(&mut st.head, t);
        st.has_title = true;
    } else if starts_with(t.as_slice(), chars_of("@author ").as_slice()) {
        push_view(&mut st.head, t);
        st.has_author = true;
    } else if starts_with(t.as_slice(), chars_of("@custom:terry ").as_slice()) {
        push_view(&mut st.head, t);
        st.has_terry = true;
    } else if starts_with(t.as_slice(), chars_of("@custom:date ").as_slice()) {
        st.date = Some(t);
    } else if starts_with(t.as_slice(), chars_of("@notice ").as_slice()) {
        let rest = slice_chars(t.as_slice(), 8, n);
        push_view(&mut st.notices, trim_chars(rest.as_slice()));
    } else if starts_with(t.as_slice(), chars_of("@dev ").as_slice()) {
        let rest = slice_chars(t.as_slice(), 5, n);
        push_view(&mut st.notices, trim_chars(rest.as_slice()));
    } else if starts_with(t.as_slice(), chars_of("@custom:benediction ").as_slice()) {
    } else if starts_with(t.as_slice(), chars_of("@").as_slice()) {
        push_view(&mut st.customs, t);
    } else if n > 0 {
        if st.notices.len() > 0 {
            let ghost before = views(st.notices@);
            let ghost old_notices = st.notices@;
            assert(before.last() == old_notices.last()@);
            let mut last = st.notices.pop().unwrap();
            assert(views(st.notices@) =~= before.drop_last());
            let ghost l0 = last@;
            last.push(' ');
            push_all(&mut last, t.as_slice());
            assert(last@ =~= l0 + seq![' '] + tv);
            push_view(&mut st.notices, last);
        } else {
            push_view(&mut st.desc, t);
        }
    }
}

/// Appends each text followed by a line break.
fn push_lines_then_breaks(ir: &mut Vec<IRElement>, ts: &Vec<Vec<char>>, Ghost(ds): Ghost<Seq<Doc>>)
    requires
        docs(old(ir)@, ds),
    ensures
        docs(final(ir)@, ds + lines_then_breaks(views(ts@))),
{
    let ghost tv = views(ts@);
    let mut i: usize = 0;
    assert(tv.take(0) =~= Seq::<Seq<char>>::empty());
    assert(ds =~= ds + lines_then_breaks(tv.take(0)));
    while i < ts.len()
        invariant
            i <= ts@.len(),
            tv == views(ts@),
            docs(ir@, ds + lines_then_breaks(tv.take(i as int))),
        decreases ts@.len() - i,
    {
        let ghost pre = ds + lines_then_breaks(tv.take(i as int));
        assert(tv.take(i + 1).drop_last() =~= tv.take(i as int));
        assert(tv[i as int] == ts@[i as int]@);
        let text = string_from(ts[i].as_slice());
        push_text(ir, text.as_str(), Ghost(pre));
        push_hard(ir, Ghost(pre.push(Doc::Text(tv[i as int]))));
        assert(pre.push(Doc::Text(tv[i as int])).push(Doc::Hard) =~= ds + lines_then_breaks(
            tv.take(i + 1),
        ));
        i = i + 1;
    }
    assert(tv.take(ts@.len() as int) =~= tv);
}

/// Appends the group of the words of the texts joined by spaces.
fn push_words(ir: &mut Vec<IRElement>, ts: &Vec<Vec<char>>, Ghost(ds): Ghost<Seq<Doc>>)
    requires
        docs(old(ir)@, ds),
    ensures
        docs(final(ir)@, ds.push(Doc::Group(word_break_docs(words(join(views(ts@), " "@)))))),
{
    proof {
        reveal_strlit(" ");
    }
    let space: Vec<char> = vec![' '];
    assert(space@ =~= " "@);
    let joined = join_chars(ts, space.as_slice());
    let text = string_from(joined.as_slice());
    let inner = text_with_word_breaks(text.as_str());
    let g = IRElement::Group(inner);
    proof {
        lemma_docs_push(ir@, ds, g, Doc::Group(word_break_docs(words(join(views(ts@), " "@)))));
    }
    ir.push(g);
}

/// The body of the NatSpec block.
#[verifier::spinoff_prover]
#[verifier::rlimit(30)]
fn contract_content(st: &ContractState, name: &str) -> (content: Vec<IRElement>)
    ensures
        docs(content@, contract_content_docs(st.parts(), name@)),
{
    let ghost p = st.parts();
    assert(views(st.notices@).len() == st.notices@.len());
    assert(views(st.desc@).len() == st.desc@.len());
    let mut c: Vec<IRElement> = Vec::new();
    proof {
        lemma_docs(c@, Seq::empty());
    }
    let ghost d0: Seq<Doc> = Seq::empty();
    push_hard(&mut c, Ghost(d0));
    push_text(
        &mut c,
        "@custom:benediction DEVS BENEDICAT ET PROTEGAT CONTRACTVM MEVM",
        Ghost(d0.push(Doc::Hard)),
    );
    push_hard(&mut c, Ghost(d0.push(Doc::Hard).push(Doc::Text(benediction()))));
    let ghost d1 = seq![Doc::Hard, Doc::Text(benediction()), Doc::Hard];
    assert(d0.push(Doc::Hard).push(Doc::Text(benediction())).push(Doc::Hard) =~= d1);
    push_lines_then_breaks(&mut c, &st.head, Ghost(d1));
    let ghost d2 = d1 + lines_then_breaks(p.head);
    let ghost mut d = d2;
    if !st.has_title {
        let mut title = chars_of("@title ");
        push_all(&mut title, chars_of(name).as_slice());
        let ts = string_from(title.as_slice());
        push_text(&mut c, ts.as_str(), Ghost(d));
        push_hard(&mut c, Ghost(d.push(Doc::Text(ts@))));
        proof {
            d = d.push(Doc::Text(ts@)).push(Doc::Hard);
        }
    }
    let ghost d3 = d;
    assert(d3 =~= d2 + (if !p.has_title {
        seq![Doc::Text("@title "@ + name@), Doc::Hard]
    } else {
        Seq::empty()
    }));
    if !st.has_author {
        push_text(&mut c, "@author TODO", Ghost(d));
        push_hard(&mut c, Ghost(d.push(Doc::Text("@author TODO"@))));
        proof {
            d = d.push(Doc::Text("@author TODO"@)).push(Doc::Hard);
        }
    }
    let ghost d4 = d;
    assert(d4 =~= d3 + (if !p.has_author {
        seq![Doc::Text("@author TODO"@), Doc::Hard]
    } else {
        Seq::empty()
    }));
    if !st.has_terry {
        push_text(
            &mut c,
            "@custom:terry \"Is this too much voodoo for the next ten centuries?\"",
            Ghost(d),
        );
        push_hard(&mut c, Ghost(d.push(Doc::Text(default_terry()))));
        proof {
            d = d.push(Doc::Text(default_terry())).push(Doc::Hard);
        }
    }
    let ghost d5 = d;
    assert(d5 =~= d4 + (if !p.has_terry {
        seq![Doc::Text(default_terry()), Doc::Hard]
    } else {
        Seq::empty()
    }));
    push_lines_then_breaks(&mut c, &st.customs, Ghost(d5));
    let ghost d6 = d5 + lines_then_breaks(p.customs);
    push_hard(&mut c, Ghost(d6));
    let ghost d7 = d6.push(Doc::Hard);
    if st.notices.len() > 0 {
        push_words(&mut c, &st.notices, Ghost(d7));
    } else if st.desc.len() > 0 {
        push_words(&mut c, &st.desc, Ghost(d7));
    } else {
        push_text(&mut c, "TODO", Ghost(d7));
    }
    let ghost d8 = d7.push(
        if p.notices.len() > 0 {
            Doc::Group(word_break_docs(words(join(p.notices, " "@))))
        } else if p.desc.len() > 0 {
            Doc::Group(word_break_docs(words(join(p.desc, " "@))))
        } else {
            Doc::Text("TODO"@)
        },
    );
    push_hard(&mut c, Ghost(d8));
    push_hard(&mut c, Ghost(d8.push(Doc::Hard)));
    let ghost d9 = d8.push(Doc::Hard).push(Doc::Hard);
    match &st.date {
        Some(dt) => {
            let ds = string_from(dt.as_slice());
            push_text(&mut c, ds.as_str(), Ghost(d9));
        },
        None => {
            push_text(&mut c, "@custom:date TODO.", Ghost(d9));
        },
    }
    assert(d9.push(
        match p.date {
            Some(dd) => Doc::Text(dd),
            None => Doc::Text("@custom:date TODO."@),
        },
    ) =~= contract_content_docs(p, name@));
    c
}

/// The NatSpec block of a contract: the standard benediction, the title,
/// author and terry lines (with defaults for missing ones), other tags, the
/// description (or `TODO`) and the date (or `@custom:date TODO.`).
pub fn build_contract_natspec_ir(natspec_lines: &[String], contract_name: &str) -> (r: Vec<
    IRElement,
>)
    ensures
        docs(r@, contract_natspec_docs(str_views(natspec_lines@), contract_name@)),
{
    let ghost lv = str_views(natspec_lines@);
    let mut st = ContractState {
        head: Vec::new(),
        has_title: false,
        has_author: false,
        has_terry: false,
        notices: Vec::new(),
        desc: Vec::new(),
        customs: Vec::new(),
        date: None,
    };
    assert(st.parts() == contract_scan(lv.take(0))) by {
        assert(lv.take(0) =~= Seq::<Seq<char>>::empty());
        assert(views(st.head@) =~= Seq::<Seq<char>>::empty());
        assert(views(st.notices@) =~= Seq::<Seq<char>>::empty());
        assert(views(st.desc@) =~= Seq::<Seq<char>>::empty());
        assert(views(st.customs@) =~= Seq::<Seq<char>>::empty());
    }
    let mut i: usize = 0;
    while i < natspec_lines.len()
        invariant
            i <= natspec_lines@.len(),
            lv == str_views(natspec_lines@),
            st.parts() == contract_scan(lv.take(i as int)),
        decreases natspec_lines@.len() - i,
    {
        assert(lv.take(i + 1).drop_last() =~= lv.take(i as int));
        assert(lv.take(i + 1).last() == natspec_lines@[i as int]@);
        contract_step(&mut st, &natspec_lines[i]);
        i = i + 1;
    }
    assert(lv.take(i as int) =~= lv);
    let content = contract_content(&st, contract_name);
    let r = vec![
        IRElement::text("/**"),
        IRElement::Indent(content),
        IRElement::HardLineBreak,
        IRElement::text("*/"),
    ];
    proof {
        lemma_docs(r@, contract_natspec_docs(lv, contract_name@));
    }
    r
}

/// Placeholder NatSpec for an undocumented contract: every tag at its
/// default.
pub fn generate_contract_natspec(contract_name: &str) -> (r: Vec<IRElement>)
    ensures
        docs(r@, contract_natspec_docs(Seq::empty(), contract_name@)),
{
    let none: Vec<String> = Vec::new();
    assert(str_views(none@) =~= Seq::<Seq<char>>::empty());
    build_contract_natspec_ir(none.as_slice(), contract_name)
}

/// A text line of the IR that starts with `tag`.
pub open spec fn has_tag_line(ds: Seq<Doc>, tag: Seq<char>) -> bool {
    exists|i: int| 0 <= i < ds.len() && (#[trigger] ds[i] matches Doc::Text(t) && has_prefix(t, tag))
}

proof fn lemma_lines_then_breaks(ts: Seq<Seq<char>>)
    ensures
        lines_then_breaks(ts).len() == 2 * ts.len(),
        forall|k: int| 0 <= k < ts.len() ==> lines_then_breaks(ts)[2 * k] == Doc::Text(#[trigger] ts[k]),
    decreases ts.len(),
{
    if ts.len() > 0 {
        lemma_lines_then_breaks(ts.drop_last());
        assert forall|k: int| 0 <= k < ts.len() implies lines_then_breaks(ts)[2 * k] == Doc::Text(
            #[trigger] ts[k],
        ) by {
            if k < ts.len() - 1 {
                assert(lines_then_breaks(ts)[2 * k] == lines_then_breaks(ts.drop_last())[2 * k]);
                assert(ts.drop_last()[k] == ts[k]);
            }
        }
    }
}

proof fn lemma_scan_facts(ls: Seq<Seq<char>>)
    ensures
        contract_scan(ls).has_title ==> exists|k: int|
            0 <= k < contract_scan(ls).head.len() && has_prefix(
                #[trigger] contract_scan(ls).head[k],
                "@title "@,
            ),
        contract_scan(ls).has_author ==> exists|k: int|
            0 <= k < contract_scan(ls).head.len() && has_prefix(
                #[trigger] contract_scan(ls).head[k],
                "@author "@,
            ),
        contract_scan(ls).has_terry ==> exists|k: int|
            0 <= k < contract_scan(ls).head.len() && has_prefix(
                #[trigger] contract_scan(ls).head[k],
                "@custom:terry "@,
            ),
        contract_scan(ls).date matches Some(d) ==> has_prefix(d, "@custom:date "@),
    decreases ls.len(),
{
    if ls.len() > 0 {
        let s0 = contract_scan(ls.drop_last());
        let s = contract_scan(ls);
        lemma_scan_facts(ls.drop_last());
        if s0.has_title {
            let k = choose|k: int| 0 <= k < s0.head.len() && has_prefix(#[trigger] s0.head[k], "@title "@);
            assert(s.head.len() >= s0.head.len() && s.head[k] == s0.head[k]);
        }
        if s0.has_author {
            let k = choose|k: int| 0 <= k < s0.head.len() && has_prefix(#[trigger] s0.head[k], "@author "@);
            assert(s.head.len() >= s0.head.len() && s.head[k] == s0.head[k]);
        }
        if s0.has_terry {
            let k = choose|k: int|
                0 <= k < s0.head.len() && has_prefix(#[trigger] s0.head[k], "@custom:terry "@);
            assert(s.head.len() >= s0.head.len() && s.head[k] == s0.head[k]);
        }
        if s.head.len() > s0.head.len() {
            assert(s.head[s0.head.len() as int] == trim(ls.last()));
        }
    }
}

/// Every contract NatSpec block starts with the standard benediction and
/// holds a `@title`, an `@author` and a `@custom:terry` line, and ends with
/// a `@custom:date` line, whatever documentation the contract had.
#[verifier::spinoff_prover]
pub proof fn law_contract_natspec_complete(lines: Seq<Seq<char>>, name: Seq<char>)
    ensures
        contract_content_docs(contract_scan(lines), name)[1] == Doc::Text(benediction()),
        has_tag_line(contract_content_docs(contract_scan(lines), name), "@title "@),
        has_tag_line(contract_content_docs(contract_scan(lines), name), "@author "@),
        has_tag_line(contract_content_docs(contract_scan(lines), name), "@custom:terry "@),
        (contract_content_docs(contract_scan(lines), name).last() matches Doc::Text(t) && has_prefix(
            t,
            "@custom:date "@,
        )),
{
    let s = contract_scan(lines);
    let c = contract_content_docs(s, name);
    lemma_scan_facts(lines);
    lemma_lines_then_breaks(s.head);
    reveal_strlit("@title ");
    reveal_strlit("@author ");
    reveal_strlit("@author TODO");
    reveal_strlit("@custom:terry ");
    reveal_strlit("@custom:terry \"Is this too much voodoo for the next ten centuries?\"");
    reveal_strlit("@custom:date ");
    reveal_strlit("@custom:date TODO.");
    let a = seq![Doc::Hard, Doc::Text(benediction()), Doc::Hard];
    let h = lines_then_breaks(s.head);
    let t1 = if !s.has_title {
        seq![Doc::Text("@title "@ + name), Doc::Hard]
    } else {
        Seq::empty()
    };
    let t2 = if !s.has_author {
        seq![Doc::Text("@author TODO"@), Doc::Hard]
    } else {
        Seq::empty()
    };
    let t3 = if !s.has_terry {
        seq![Doc::Text(default_terry()), Doc::Hard]
    } else {
        Seq::empty()
    };
    let pre = a + h + t1 + t2 + t3;
    assert(c.subrange(0, pre.len() as int) =~= pre);
    if s.has_title {
        let k = choose|k: int| 0 <= k < s.head.len() && has_prefix(#[trigger] s.head[k], "@title "@);
        assert(c[3 + 2 * k] == pre[3 + 2 * k]);
        assert(pre[3 + 2 * k] == h[2 * k]);
    } else {
        let i: int = 3 + h.len() as int;
        assert(c[i] == pre[i]);
        assert(has_prefix("@title "@ + name, "@title "@)) by {
            assert(("@title "@ + name).subrange(0, 7) =~= "@title "@);
        }
    }
    if s.has_author {
        let k = choose|k: int| 0 <= k < s.head.len() && has_prefix(#[trigger] s.head[k], "@author "@);
        assert(c[3 + 2 * k] == pre[3 + 2 * k]);
        assert(pre[3 + 2 * k] == h[2 * k]);
    } else {
        let i: int = 3 + h.len() as int + t1.len() as int;
        assert(c[i] == pre[i]);
        assert(has_prefix("@author TODO"@, "@author "@)) by {
            assert(("@author TODO"@).subrange(0, 8) =~= "@author "@);
        }
    }
    if s.has_terry {
        let k = choose|k: int|
            0 <= k < s.head.len() && has_prefix(#[trigger] s.head[k], "@custom:terry "@);
        assert(c[3 + 2 * k] == pre[3 + 2 * k]);
        assert(pre[3 + 2 * k] == h[2 * k]);
    } else {
        let i: int = 3 + h.len() as int + t1.len() as int + t2.len() as int;
        assert(c[i] == pre[i]);
        assert(has_prefix(default_terry(), "@custom:terry "@)) by {
            assert(default_terry().subrange(0, 14) =~= "@custom:terry "@);
        }
    }
    match s.date {
        Some(d) => {},
        None => {
            assert(has_prefix("@custom:date TODO."@, "@custom:date "@)) by {
                assert(("@custom:date TODO."@).subrange(0, 13) =~= "@custom:date "@);
            }
        },
    }
}

/// What an event's NatSpec comments provide.
pub struct EventDocs {
    /// Description texts, with their continuation lines.
    pub desc: Seq<Seq<char>>,
    /// The description of each documented parameter.
    pub table: Seq<(Seq<char>, Seq<char>)>,
    /// The parameter whose description a plain line continues.
    pub current: Option<Seq<char>>,
}

/// The text of a NatSpec comment without its markers; other comments are
/// not read.
pub open spec fn event_comment_text(c: Comment) -> Option<Seq<char>> {
    match c {
        Comment::DocLine(t) => Some(trim(strip_prefix_or_keep(trim(t@), "///"@))),
        Comment::DocBlock(t) => Some(
            trim(strip_suffix_or_keep(strip_prefix_or_keep(trim(t@), "/**"@), "*/"@)),
        ),
        _ => None,
    }
}

/// The event's documentation after one more line.
pub open spec fn event_line(s: EventDocs, line: Seq<char>) -> EventDocs {
    let t = trim(line);
    if has_prefix(t, "@notice "@) {
        EventDocs { desc: s.desc.push(after(t, 8)), current: None, ..s }
    } else if has_prefix(t, "@param "@) {
        let rest = after(t, 7);
        match first_index(rest, ' ') {
            Some(k) => EventDocs {
                table: assoc_insert(
                    s.table,
                    rest.subrange(0, k),
                    rest.subrange(k + 1, rest.len() as int),
                ),
                current: Some(rest.subrange(0, k)),
                ..s
            },
            None => EventDocs {
                table: assoc_insert(s.table, rest, "TODO"@),
                current: Some(rest),
                ..s
            },
        }
    } else if t.len() > 0 && !has_prefix(t, "@"@) {
        match s.current {
            Some(p) => EventDocs { table: assoc_append(s.table, p, t), ..s },
            None => if s.desc.len() > 0 {
                EventDocs { desc: extend_last(s.desc, t), ..s }
            } else {
                EventDocs { desc: s.desc.push(t), ..s }
            },
        }
    } else {
        s
    }
}

/// The documentation after more lines.
pub open spec fn event_lines(s: EventDocs, ls: Seq<Seq<char>>) -> EventDocs
    decreases ls.len(),
{
    if ls.len() == 0 {
        s
    } else {
        event_line(event_lines(s, ls.drop_last()), ls.last())
    }
}

/// The documentation that the NatSpec comments provide, line by line.
pub open spec fn event_scan(cs: Seq<Comment>) -> EventDocs
    decreases cs.len(),
{
    if cs.len() == 0 {
        EventDocs { desc: Seq::empty(), table: Seq::empty(), current: None }
    } else {
        let s = event_scan(cs.drop_last());
        match event_comment_text(cs.last()) {
            Some(text) => event_lines(s, lines(text)),
            None => s,
        }
    }
}

/// The description of parameter `n` in `table`, or `TODO` when it has none.
pub open spec fn described(table: Seq<(Seq<char>, Seq<char>)>, n: Seq<char>) -> Seq<char> {
    match assoc_get(table, n) {
        Some(d) => d,
        None => "TODO"@,
    }
}

/// `@param n ` followed by the description `d`, able to wrap.
pub open spec fn param_group(n: Seq<char>, d: Seq<char>) -> Doc {
    Doc::Group(
        seq![
            Doc::Text("@param "@ + n + seq![' ']),
            Doc::Indent(seq![Doc::Group(word_break_docs(words(d)))]),
        ],
    )
}

/// `@param name ` and the description (documented or `TODO`), able to
/// wrap, for each named parameter, each followed by a line break.
pub open spec fn event_param_docs(
    params: Seq<Option<String>>,
    table: Seq<(Seq<char>, Seq<char>)>,
) -> Seq<Doc>
    decreases params.len(),
{
    if params.len() == 0 {
        Seq::empty()
    } else {
        event_param_docs(params.drop_last(), table) + match params.last() {
            Some(n) => seq![param_group(n@, described(table, n@)), Doc::Hard],
            None => Seq::empty(),
        }
    }
}

/// The NatSpec block of an event with parameters `params` (`None` for an
/// unnamed one) from its comments: the description (`TODO` when empty),
/// then every named parameter with its documented description or `TODO`.
pub open spec fn event_natspec_docs(cs: Seq<Comment>, params: Seq<Option<String>>) -> Seq<Doc> {
    let s = event_scan(cs);
    let description = join(s.desc, " "@);
    seq![
        Doc::Text("/**"@),
        Doc::Indent(
            seq![
                Doc::Hard,
                if description.len() > 0 {
                    Doc::Group(word_break_docs(words(description)))
                } else {
                    Doc::Text("TODO"@)
                },
            ] + if params.len() > 0 {
                (seq![Doc::Hard, Doc::Hard] + event_param_docs(params, s.table)).drop_last()
            } else {
                Seq::empty()
            },
        ),
        Doc::Hard,
        Doc::Text("*/"@),
    ]
}

/// The gathered event documentation, held as character vectors.
struct EventState {
    desc: Vec<Vec<char>>,
    table: Vec<(Vec<char>, Vec<char>)>,
    current: Option<Vec<char>>,
}

impl EventState {
    spec fn parts(&self) -> EventDocs {
        EventDocs {
            desc: views(self.desc@),
            table: table_views(self.table@),
            current: match self.current {
                Some(c) => Some(c@),
                None => None,
            },
        }
    }
}

/// The text of a NatSpec comment without its markers.
fn event_comment_text_chars(c: &Comment) -> (r: Option<Vec<char>>)
    ensures
        (match r {
            Some(v) => Some(v@),
            None => None::<Seq<char>>,
        }) == event_comment_text(*c),
{
    match c {
        Comment::DocLine(t) => {
            let tt = trim_chars(chars_of(t.as_str()).as_slice());
            let a = strip_prefix_chars(tt.as_slice(), chars_of("///").as_slice());
            Some(trim_chars(a.as_slice()))
        },
        Comment::DocBlock(t) => {
            let tt = trim_chars(chars_of(t.as_str()).as_slice());
            let a = strip_prefix_chars(tt.as_slice(), chars_of("/**").as_slice());
            let b = strip_suffix_chars(a.as_slice(), chars_of("*/").as_slice());
            Some(trim_chars(b.as_slice()))
        },
        _ => None,
    }
}

/// Takes one more line of an event's NatSpec.
#[verifier::spinoff_prover]
fn event_step(st: &mut EventState, line: &[char])
    ensures
        final(st).parts() == event_line(old(st).parts(), line@),
{
    let t = trim_chars(line);
    let ghost s0 = st.parts();
    proof {
        reveal_strlit("@notice ");
        reveal_strlit("@param ");
    }
    assert(views(st.desc@).len() == st.desc@.len());
    let n = t.len();
    let at = chars_of("@");
    if starts_with(t.as_slice(), chars_of("@notice ").as_slice()) {
        let rest = slice_chars(t.as_slice(), 8, n);
        push_view(&mut st.desc, rest);
        st.current = None;
    } else if starts_with(t.as_slice(), chars_of("@param ").as_slice()) {
        let rest = slice_chars(t.as_slice(), 7, n);
        let m = rest.len();
        let found = find_char(rest.as_slice(), ' ');
        proof {
            lemma_first_index(rest@, ' ');
            match first_index(rest@, ' ') {
                Some(j) => {
                    assert(found == Some(j as usize));
                },
                None => {},
            }
        }
        match found {
            Some(k) => {
                let name = slice_chars(rest.as_slice(), 0, k);
                let key = slice_chars(rest.as_slice(), 0, k);
                let d = slice_chars(rest.as_slice(), k + 1, m);
                table_insert(&mut st.table, key, d);
                st.current = Some(name);
            },
            None => {
                let key = slice_chars(rest.as_slice(), 0, m);
                let name = slice_chars(rest.as_slice(), 0, m);
                assert(key@ =~= rest@);
                assert(name@ =~= rest@);
                table_insert(&mut st.table, key, chars_of("TODO"));
                st.current = Some(name);
            },
        }
    } else if n > 0 && !starts_with(t.as_slice(), at.as_slice()) {
        match &st.current {
            Some(p) => {
                let key = slice_chars(p.as_slice(), 0, p.len());
                assert(key@ =~= p@);
                table_append(&mut st.table, key.as_slice(), t.as_slice());
            },
            None => {
                if st.desc.len() > 0 {
                    extend_last_chars(&mut st.desc, t.as_slice());
                } else {
                    push_view(&mut st.desc, t);
                }
            },
        }
    }
}

/// Appends each named parameter's group followed by a line break.
fn push_event_params(
    ir: &mut Vec<IRElement>,
    params: &[Option<String>],
    table: &Vec<(Vec<char>, Vec<char>)>,
    Ghost(ds): Ghost<Seq<Doc>>,
)
    requires
        docs(old(ir)@, ds),
    ensures
        docs(final(ir)@, ds + event_param_docs(params@, table_views(table@))),
{
    let ghost tb = table_views(table@);
    let mut i: usize = 0;
    proof {
        reveal_strlit("@param ");
    }
    assert(params@.take(0) =~= Seq::<Option<String>>::empty());
    assert(ds =~= ds + event_param_docs(params@.take(0), tb));
    while i < params.len()
        invariant
            i <= params@.len(),
            tb == table_views(table@),
            docs(ir@, ds + event_param_docs(params@.take(i as int), tb)),
        decreases params@.len() - i,
    {
        let ghost pre = ds + event_param_docs(params@.take(i as int), tb);
        assert(params@.take(i + 1).drop_last() =~= params@.take(i as int));
        assert(params@.take(i + 1).last() == params@[i as int]);
        match &params[i] {
            Some(name) => {
                let nc = chars_of(name.as_str());
                let d = match table_get(table, nc.as_slice()) {
                    Some(v) => v,
                    None => chars_of("TODO"),
                };
                let ghost dv = d@;
                assert(dv == described(tb, name@));
                let dsv = string_from(d.as_slice());
                let inner = vec![IRElement::Group(text_with_word_breaks(dsv.as_str()))];
                proof {
                    lemma_docs(inner@, seq![Doc::Group(word_break_docs(words(dv)))]);
                }
                let mut head = chars_of("@param ");
                push_all(&mut head, nc.as_slice());
                head.push(' ');
                let ghost hv = head@;
                assert(hv =~= "@param "@ + name@ + seq![' ']);
                let parts = vec![IRElement::Text(string_from(head.as_slice())), IRElement::Indent(inner)];
                let ghost gd = param_group(name@, dv);
                let ghost gparts = match gd {
                    Doc::Group(ps) => ps,
                    _ => Seq::empty(),
                };
                assert(gparts =~= seq![
                    Doc::Text(hv),
                    Doc::Indent(seq![Doc::Group(word_break_docs(words(dv)))]),
                ]);
                proof {
                    lemma_docs(parts@, gparts);
                }
                let g = IRElement::Group(parts);
                proof {
                    lemma_docs_push(ir@, pre, g, gd);
                }
                ir.push(g);
                push_hard(ir, Ghost(pre.push(gd)));
                assert(params@[i as int] == Some(*name));
                assert(event_param_docs(params@.take(i + 1), tb) =~= event_param_docs(
                    params@.take(i as int),
                    tb,
                ) + seq![gd, Doc::Hard]);
                assert(pre.push(gd).push(Doc::Hard) =~= ds + event_param_docs(
                    params@.take(i + 1),
                    tb,
                ));
            },
            None => {
                assert(pre =~= ds + event_param_docs(params@.take(i + 1), tb));
            },
        }
        i = i + 1;
    }
    assert(params@.take(i as int) =~= params@);
}

/// The NatSpec block of an event from its comments: the description (or
/// `TODO`), then `@param` for every named parameter with its documented
/// description, or `TODO` where it has none.
pub fn build_event_natspec_from_comments(comments: &[Comment], parameters: &[Option<String>]) -> (r:
    Vec<IRElement>)
    ensures
        docs(r@, event_natspec_docs(comments@, parameters@)),
{
    let mut st = EventState { desc: Vec::new(), table: Vec::new(), current: None };
    assert(st.parts() == event_scan(comments@.take(0))) by {
        assert(comments@.take(0) =~= Seq::<Comment>::empty());
        assert(views(st.desc@) =~= Seq::<Seq<char>>::empty());
        assert(table_views(st.table@) =~= Seq::<(Seq<char>, Seq<char>)>::empty());
    }
    let mut i: usize = 0;
    while i < comments.len()
        invariant
            i <= comments@.len(),
            st.parts() == event_scan(comments@.take(i as int)),
        decreases comments@.len() - i,
    {
        assert(comments@.take(i + 1).drop_last() =~= comments@.take(i as int));
        assert(comments@.take(i + 1).last() == comments@[i as int]);
        match event_comment_text_chars(&comments[i]) {
            Some(text) => {
                let ls = split_lines(text.as_slice());
                let ghost lv = views(ls@);
                let ghost s0 = st.parts();
                let mut j: usize = 0;
                assert(lv.take(0) =~= Seq::<Seq<char>>::empty());
                while j < ls.len()
                    invariant
                        j <= ls@.len(),
                        lv == views(ls@),
                        st.parts() == event_lines(s0, lv.take(j as int)),
                    decreases ls@.len() - j,
                {
                    assert(lv.take(j + 1).drop_last() =~= lv.take(j as int));
                    assert(lv.take(j + 1).last() == ls@[j as int]@);
                    event_step(&mut st, ls[j].as_slice());
                    j = j + 1;
                }
                assert(lv.take(j as int) =~= lv);
            },
            None => {},
        }
        i = i + 1;
    }
    assert(comments@.take(i as int) =~= comments@);
    let ghost s = st.parts();
    proof {
        reveal_strlit(" ");
    }
    let space: Vec<char> = vec![' '];
    assert(space@ =~= " "@);
    let description = join_chars(&st.desc, space.as_slice());
    let mut c: Vec<IRElement> = vec![IRElement::HardLineBreak];
    let ghost d0 = seq![Doc::Hard];
    proof {
        lemma_docs(c@, d0);
    }
    let ghost hd = if description@.len() > 0 {
        Doc::Group(word_break_docs(words(description@)))
    } else {
        Doc::Text("TODO"@)
    };
    if description.len() > 0 {
        let dsv = string_from(description.as_slice());
        let g = IRElement::Group(text_with_word_breaks(dsv.as_str()));
        proof {
            lemma_docs_push(c@, d0, g, hd);
        }
        c.push(g);
    } else {
        let e = IRElement::text("TODO");
        proof {
            lemma_docs_push(c@, d0, e, hd);
        }
        c.push(e);
    }
    let ghost d1 = d0.push(hd);
    if parameters.len() > 0 {
        push_hard(&mut c, Ghost(d1));
        push_hard(&mut c, Ghost(d1.push(Doc::Hard)));
        let ghost d2 = d1.push(Doc::Hard).push(Doc::Hard);
        push_event_params(&mut c, parameters, &st.table, Ghost(d2));
        let ghost full = d2 + event_param_docs(parameters@, s.table);
        proof {
            lemma_docs_drop_last(c@, full);
        }
        c.pop();
        assert(full.drop_last() =~= seq![Doc::Hard, hd] + (seq![Doc::Hard, Doc::Hard]
            + event_param_docs(parameters@, s.table)).drop_last());
    } else {
        assert(d1 =~= seq![Doc::Hard, hd]);
    }
    let r = vec![IRElement::text("/**"), IRElement::Indent(c), IRElement::HardLineBreak, IRElement::text("*/")];
    proof {
        lemma_docs(r@, event_natspec_docs(comments@, parameters@));
    }
    r
}

/// The placeholder NatSpec block of an undocumented event: `TODO`, then
/// `@param name TODO` for each named parameter.
pub fn generate_event_natspec(parameters: &[Option<String>]) -> (r: Vec<IRElement>)
    ensures
        docs(r@, todo_natspec_docs(parameters@)),
{
    generate_enum_natspec(parameters)
}

/// One parameter line of an event: a line break, the type, ` indexed` if it
/// is, the name if it has one, and a comma unless it is the last.
pub open spec fn event_param_line_docs(p: Parameter, last: bool) -> Seq<Doc> {
    seq![Doc::Hard, doc_of(p.ty_ir)] + (if p.indexed {
        seq![Doc::Text(" indexed"@)]
    } else {
        Seq::empty()
    }) + (match p.name {
        Some(n) => seq![Doc::Text(" "@), Doc::Text(n@)],
        None => Seq::empty(),
    }) + (if last {
        Seq::empty()
    } else {
        seq![Doc::Text(","@)]
    })
}

/// The lines of the parameters `ps`, the first of `n` parameters.
pub open spec fn event_param_lines(ps: Seq<CommentedElement<Parameter>>, n: int) -> Seq<Doc>
    decreases ps.len(),
{
    if ps.len() == 0 {
        Seq::empty()
    } else {
        event_param_lines(ps.drop_last(), n) + event_param_line_docs(ps.last().element, ps.len() >= n)
    }
}

/// `event Name (`, the parameters indented on lines of their own, then
/// ` anonymous` if it is, and `);`, all in one group.
pub open spec fn event_definition_docs(name: Seq<char>, anonymous: bool, ps: Seq<CommentedElement<Parameter>>) -> Seq<
    Doc,
> {
    let head = seq![Doc::Text("event"@), Doc::Text(" "@), Doc::Text(name), Doc::Text(" ("@)] + (if ps.len() > 0 {
        seq![Doc::Indent(event_param_lines(ps, ps.len() as int)), Doc::Hard]
    } else {
        Seq::empty()
    });
    seq![
        Doc::Group(
            if anonymous {
                head + seq![Doc::Text(" anonymous"@), Doc::Text(");"@)]
            } else {
                head + seq![Doc::Text(");"@)]
            },
        ),
    ]
}

/// An event: its NatSpec block (built from the comments before it, or a
/// placeholder when it has no comments at all), the definition, and the
/// comments after it moved onto the lines below.
pub open spec fn event_ir_docs(e: CollectedEvent) -> Seq<Doc> {
    let lead = e.definition.leading_comments@;
    let trail = e.definition.trailing_comments@;
    let names = param_names(e.parameters@);
    (if lead.len() > 0 || trail.len() > 0 {
        if lead.len() > 0 {
            event_natspec_docs(lead, names).push(Doc::Hard)
        } else {
            Seq::empty()
        }
    } else {
        todo_natspec_docs(names).push(Doc::Hard)
    }) + event_definition_docs(e.definition.element@, e.anonymous, e.parameters@) + moved_comments_docs(trail)
}

/// Appends the parameter lines of an event.
fn push_event_param_lines(
    ir: &mut Vec<IRElement>,
    params: Vec<CommentedElement<Parameter>>,
    Ghost(ds): Ghost<Seq<Doc>>,
)
    requires
        docs(old(ir)@, ds),
    ensures
        docs(final(ir)@, ds + event_param_lines(params@, params@.len() as int)),
{
    let ghost orig = params@;
    let ghost n = orig.len() as int;
    let total = params.len();
    let mut rest = params;
    let mut i: usize = 0;
    assert(orig.take(0) =~= Seq::<CommentedElement<Parameter>>::empty());
    assert(ds =~= ds + event_param_lines(orig.take(0), n));
    while rest.len() > 0
        invariant
            i <= orig.len(),
            orig.len() == total,
            n == orig.len(),
            rest@ == orig.subrange(i as int, orig.len() as int),
            docs(ir@, ds + event_param_lines(orig.take(i as int), n)),
        decreases rest@.len(),
    {
        let ghost pre = ds + event_param_lines(orig.take(i as int), n);
        assert(orig.take(i + 1).drop_last() =~= orig.take(i as int));
        assert(orig.take(i + 1).last() == rest@[0]);
        let p = rest.remove(0);
        assert(rest@ =~= orig.subrange(i + 1, orig.len() as int));
        let ghost pv = p.element;
        let CommentedElement { element, leading_comments: _, trailing_comments: _ } = p;
        let Parameter { ty_ir, indexed, name } = element;
        push_hard(ir, Ghost(pre));
        proof {
            lemma_doc_of(ty_ir);
        }
        push_doc(ir, ty_ir, Ghost(pre.push(Doc::Hard)), Ghost(doc_of(pv.ty_ir)));
        let ghost p0 = pre.push(Doc::Hard).push(doc_of(pv.ty_ir));
        let ghost ix = if pv.indexed {
            seq![Doc::Text(" indexed"@)]
        } else {
            Seq::<Doc>::empty()
        };
        if indexed {
            push_text(ir, " indexed", Ghost(p0));
            assert(p0.push(Doc::Text(" indexed"@)) =~= p0 + ix);
        } else {
            assert(p0 =~= p0 + ix);
        }
        let ghost p1 = p0 + ix;
        let ghost nm = match pv.name {
            Some(x) => seq![Doc::Text(" "@), Doc::Text(x@)],
            None => Seq::<Doc>::empty(),
        };
        match name {
            Some(x) => {
                push_text(ir, " ", Ghost(p1));
                let ghost xv = x@;
                push_doc(ir, IRElement::Text(x), Ghost(p1.push(Doc::Text(" "@))), Ghost(Doc::Text(xv)));
                assert(p1.push(Doc::Text(" "@)).push(Doc::Text(xv)) =~= p1 + nm);
            },
            None => {
                assert(p1 =~= p1 + nm);
            },
        }
        let ghost p2 = p1 + nm;
        let ghost comma = if i + 1 >= n {
            Seq::<Doc>::empty()
        } else {
            seq![Doc::Text(","@)]
        };
        if i < total - 1 {
            push_text(ir, ",", Ghost(p2));
            assert(p2.push(Doc::Text(","@)) =~= p2 + comma);
        } else {
            assert(p2 =~= p2 + comma);
        }
        assert(p2 + comma =~= ds + event_param_lines(orig.take(i + 1), n));
        i = i + 1;
    }
    assert(orig.take(i as int) =~= orig);
}

/// `event Name (`, the parameters indented on lines of their own, then
/// ` anonymous` if it is, and `);`, all in one group.
fn build_event_definition(name: String, anonymous: bool, parameters: Vec<CommentedElement<Parameter>>) -> (r: Vec<
    IRElement,
>)
    ensures
        docs(r@, event_definition_docs(name@, anonymous, parameters@)),
{
    let ghost nv = name@;
    let ghost ps = parameters@;
    let mut ir: Vec<IRElement> = vec![
        IRElement::text("event"),
        IRElement::text(" "),
        IRElement::Text(name),
        IRElement::text(" ("),
    ];
    let ghost d0 = seq![Doc::Text("event"@), Doc::Text(" "@), Doc::Text(nv), Doc::Text(" ("@)];
    proof {
        lemma_docs(ir@, d0);
    }
    let ghost mid = if ps.len() > 0 {
        seq![Doc::Indent(event_param_lines(ps, ps.len() as int)), Doc::Hard]
    } else {
        Seq::<Doc>::empty()
    };
    if parameters.len() > 0 {
        let mut content: Vec<IRElement> = Vec::new();
        assert(docs(content@, Seq::<Doc>::empty()));
        push_event_param_lines(&mut content, parameters, Ghost(Seq::empty()));
        assert(Seq::<Doc>::empty() + event_param_lines(ps, ps.len() as int) =~= event_param_lines(
            ps,
            ps.len() as int,
        ));
        push_doc(&mut ir, IRElement::Indent(content), Ghost(d0), Ghost(Doc::Indent(event_param_lines(ps, ps.len() as int))));
        push_hard(&mut ir, Ghost(d0.push(Doc::Indent(event_param_lines(ps, ps.len() as int)))));
        assert(d0.push(Doc::Indent(event_param_lines(ps, ps.len() as int))).push(Doc::Hard) =~= d0 + mid);
    } else {
        assert(d0 =~= d0 + mid);
    }
    let ghost head = d0 + mid;
    if anonymous {
        push_text(&mut ir, " anonymous", Ghost(head));
        push_text(&mut ir, ");", Ghost(head.push(Doc::Text(" anonymous"@))));
        assert(head.push(Doc::Text(" anonymous"@)).push(Doc::Text(");"@)) =~= head + seq![
            Doc::Text(" anonymous"@),
            Doc::Text(");"@),
        ]);
    } else {
        push_text(&mut ir, ");", Ghost(head));
        assert(head.push(Doc::Text(");"@)) =~= head + seq![Doc::Text(");"@)]);
    }
    let r = vec![IRElement::Group(ir)];
    proof {
        lemma_docs(r@, event_definition_docs(nv, anonymous, ps));
    }
    r
}

/// An event: its NatSpec block (built from the comments before it, or a
/// placeholder with `TODO`s when it has no comments at all), the
/// definition, and the comments after it moved onto the lines below.
#[verifier::spinoff_prover]
pub fn build_event_ir(event: CollectedEvent) -> (r: Vec<IRElement>)
    ensures
        docs(r@, event_ir_docs(event)),
{
    let ghost e = event;
    let CollectedEvent { definition, anonymous, parameters } = event;
    let CommentedElement { element: name, leading_comments, trailing_comments } = definition;
    let names = names_of(&parameters);
    let mut ir: Vec<IRElement> = Vec::new();
    let ghost lead = leading_comments@;
    let ghost pre = if lead.len() > 0 || trailing_comments@.len() > 0 {
        if lead.len() > 0 {
            event_natspec_docs(lead, names@).push(Doc::Hard)
        } else {
            Seq::<Doc>::empty()
        }
    } else {
        todo_natspec_docs(names@).push(Doc::Hard)
    };
    assert(docs(ir@, Seq::<Doc>::empty()));
    if leading_comments.len() > 0 || trailing_comments.len() > 0 {
        if leading_comments.len() > 0 {
            let block = build_event_natspec_from_comments(leading_comments.as_slice(), names.as_slice());
            push_block(&mut ir, block, Ghost(Seq::empty()), Ghost(event_natspec_docs(lead, names@)));
            push_hard(&mut ir, Ghost(Seq::<Doc>::empty() + event_natspec_docs(lead, names@)));
            assert((Seq::<Doc>::empty() + event_natspec_docs(lead, names@)).push(Doc::Hard) =~= pre);
        } else {
            assert(ir@ =~= Seq::<IRElement>::empty());
        }
    } else {
        let block = generate_event_natspec(names.as_slice());
        push_block(&mut ir, block, Ghost(Seq::empty()), Ghost(todo_natspec_docs(names@)));
        push_hard(&mut ir, Ghost(Seq::<Doc>::empty() + todo_natspec_docs(names@)));
        assert((Seq::<Doc>::empty() + todo_natspec_docs(names@)).push(Doc::Hard) =~= pre);
    }
    assert(docs(ir@, pre));
    let ghost dd = event_definition_docs(e.definition.element@, e.anonymous, e.parameters@);
    let def = build_event_definition(name, anonymous, parameters);
    push_block(&mut ir, def, Ghost(pre), Ghost(dd));
    push_moved_comments(&mut ir, &trailing_comments, Ghost(pre + dd));
    assert(pre + dd + moved_comments_docs(trailing_comments@) =~= event_ir_docs(e));
    ir
}

/// The arguments of a base, separated by `, `.
pub open spec fn base_args_docs(args: Seq<IRElement>) -> Seq<Doc>
    decreases args.len(),
{
    if args.len() == 0 {
        Seq::empty()
    } else {
        base_args_docs(args.drop_last()) + (if args.len() > 1 {
            seq![Doc::Text(", "@)]
        } else {
            Seq::empty()
        }) + seq![doc_of(args.last())]
    }
}

/// A base contract: its path and, when given, its arguments in brackets.
pub open spec fn base_docs(b: Base) -> Doc {
    Doc::Group(
        seq![Doc::Text(identifier_path_text(b.name))] + match b.args {
            Some(a) => seq![Doc::Text("("@)] + base_args_docs(a@) + seq![Doc::Text(")"@)],
            None => Seq::empty(),
        },
    )
}

/// The keyword of a kind of contract.
pub open spec fn kind_docs(ty: ContractTy) -> Seq<Doc> {
    match ty {
        ContractTy::Contract => seq![Doc::Text("contract"@)],
        ContractTy::Abstract => seq![Doc::Text("abstract"@), Doc::Text(" "@), Doc::Text("contract"@)],
        ContractTy::Interface => seq![Doc::Text("interface"@)],
        ContractTy::Library => seq![Doc::Text("library"@)],
    }
}

/// The bases, each on a line of its own, separated by commas.
pub open spec fn inheritance_docs(bs: Seq<Base>) -> Seq<Doc>
    decreases bs.len(),
{
    if bs.len() == 0 {
        Seq::empty()
    } else {
        inheritance_docs(bs.drop_last()) + (if bs.len() > 1 {
            seq![Doc::Text(","@)]
        } else {
            Seq::empty()
        }) + seq![Doc::Hard, base_docs(bs.last())]
    }
}

/// A contract's header up to its opening brace: the kind, the name, and the
/// bases indented on lines of their own after ` is`.
pub open spec fn contract_head_docs(d: ContractDefinition) -> Seq<Doc> {
    kind_docs(d.ty) + seq![Doc::Text(" "@)] + (match d.name {
        Some(n) => seq![Doc::Text(n@)],
        None => Seq::empty(),
    }) + if d.base@.len() > 0 {
        seq![
            Doc::Text(" is"@),
            Doc::Indent(inheritance_docs(d.base@) + seq![Doc::Text(" "@), Doc::Text("{"@)]),
        ]
    } else {
        seq![Doc::Text(" "@), Doc::Text("{"@)]
    }
}

/// An element of a contract's body, by its kind and its index among the
/// elements of that kind.
pub enum BodyItem {
    Using(int),
    Type(int),
    Enum(int),
    Var(int),
    Struct(int),
    Error(int),
    Event(int),
    Function(int),
}

/// The name of a state variable.
pub open spec fn var_name(v: CommentedElement<VariableDefinition>) -> Option<Seq<char>> {
    match v.element.name {
        Some(n) => Some(n@),
        None => None,
    }
}

/// Whether a state variable is a named constant.
pub open spec fn named_constant(v: CommentedElement<VariableDefinition>) -> bool {
    is_constant(v.element) && v.element.name is Some
}

/// The index of the last constant called `name`.
pub open spec fn const_index(vars: Seq<CommentedElement<VariableDefinition>>, name: Seq<char>) -> Option<int>
    decreases vars.len(),
{
    if vars.len() == 0 {
        None
    } else if named_constant(vars.last()) && var_name(vars.last()) == Some(name) {
        Some(vars.len() - 1)
    } else {
        const_index(vars.drop_last(), name)
    }
}

/// The named constants with the names their values refer to, the last
/// first, so that a name finds its last constant.
pub open spec fn const_table_of(vars: Seq<CommentedElement<VariableDefinition>>) -> ConstTable
    decreases vars.len(),
{
    if vars.len() == 0 {
        Seq::empty()
    } else {
        let rest = const_table_of(vars.drop_last());
        let v = vars.last();
        if named_constant(v) {
            seq![(var_name(v)->0, value_refs(v.element))] + rest
        } else {
            rest
        }
    }
}

/// Places, in order, the constants among `deps` not yet placed.
pub open spec fn emit_consts(
    vars: Seq<CommentedElement<VariableDefinition>>,
    deps: Seq<Seq<char>>,
    items: Seq<BodyItem>,
    emitted: Seq<Seq<char>>,
) -> (Seq<BodyItem>, Seq<Seq<char>>)
    decreases deps.len(),
{
    if deps.len() == 0 {
        (items, emitted)
    } else {
        let d = deps[0];
        let (i2, e2) = match const_index(vars, d) {
            Some(k) => if !emitted.contains(d) {
                (items.push(BodyItem::Var(k)), emitted.push(d))
            } else {
                (items, emitted)
            },
            None => (items, emitted),
        };
        emit_consts(vars, deps.drop_first(), i2, e2)
    }
}

/// The first `n` structs, each preceded by the constants its array sizes
/// need that are not yet placed; and the names of the constants placed.
pub open spec fn struct_items(c: ContractContents, n: int) -> (Seq<BodyItem>, Seq<Seq<char>>)
    decreases n,
{
    if n <= 0 {
        (Seq::empty(), Seq::empty())
    } else {
        let (it, em) = struct_items(c, n - 1);
        let deps = resolved_order(const_table_of(c.variables@), struct_const_deps(c.structs@[n - 1]));
        let (it2, em2) = emit_consts(c.variables@, deps, it, em);
        (it2.push(BodyItem::Struct(n - 1)), em2)
    }
}

/// The first `n` state variables, but those whose name was placed before a
/// struct.
pub open spec fn var_items(vars: Seq<CommentedElement<VariableDefinition>>, emitted: Seq<Seq<char>>, n: int) -> Seq<
    BodyItem,
>
    decreases n,
{
    if n <= 0 {
        Seq::empty()
    } else {
        var_items(vars, emitted, n - 1) + match var_name(vars[n - 1]) {
            Some(x) => if emitted.contains(x) {
                Seq::empty()
            } else {
                seq![BodyItem::Var(n - 1)]
            },
            None => seq![BodyItem::Var(n - 1)],
        }
    }
}

/// The elements of a contract's body in the order they are laid out:
/// `using` directives, types, enums, structs with the constants they need,
/// errors, events, the other state variables, functions.
pub open spec fn body_items(c: ContractContents) -> Seq<BodyItem> {
    let (st, em) = struct_items(c, c.structs@.len() as int);
    Seq::new(c.using_directives@.len(), |i: int| BodyItem::Using(i)) + Seq::new(
        c.types@.len(),
        |i: int| BodyItem::Type(i),
    ) + Seq::new(c.enums@.len(), |i: int| BodyItem::Enum(i)) + st + Seq::new(
        c.errors@.len(),
        |i: int| BodyItem::Error(i),
    ) + Seq::new(c.events@.len(), |i: int| BodyItem::Event(i)) + var_items(
        c.variables@,
        em,
        c.variables@.len() as int,
    ) + Seq::new(c.functions@.len(), |i: int| BodyItem::Function(i))
}

/// The IR model of one element of a contract's body.
#[verifier::opaque]
pub open spec fn item_docs(c: ContractContents, it: BodyItem) -> Seq<Doc> {
    match it {
        BodyItem::Using(i) => {
            let u = c.using_directives@[i];
            with_comments_docs(u.leading_comments@, u.trailing_comments@) + using_docs(u.element)
        },
        BodyItem::Type(i) => {
            let t = c.types@[i];
            with_comments_docs(t.leading_comments@, t.trailing_comments@) + type_definition_docs(t.element)
        },
        BodyItem::Enum(i) => enum_ir_docs(c.enums@[i]),
        BodyItem::Var(i) => var_doc_docs(c.variables@[i]) + var_decl_docs(c.variables@[i].element),
        BodyItem::Struct(i) => struct_ir_docs(c.structs@[i]),
        BodyItem::Error(i) => error_ir_docs(c.errors@[i]),
        BodyItem::Event(i) => event_ir_docs(c.events@[i]),
        BodyItem::Function(i) => function_item_docs(c.functions@[i]),
    }
}

/// The elements, each after a line break, and after a blank line when
/// something came before (`started` for something before `items`).
pub open spec fn items_docs(c: ContractContents, items: Seq<BodyItem>, started: bool) -> Seq<Doc>
    decreases items.len(),
{
    if items.len() == 0 {
        Seq::empty()
    } else {
        items_docs(c, items.drop_last(), started) + (if started || items.len() > 1 {
            seq![Doc::Hard, Doc::Hard]
        } else {
            seq![Doc::Hard]
        }) + item_docs(c, items.last())
    }
}

/// Whether a contract's body has anything.
pub open spec fn has_contents(c: ContractContents) -> bool {
    c.using_directives@.len() > 0 || c.types@.len() > 0 || c.enums@.len() > 0 || c.structs@.len() > 0
        || c.errors@.len() > 0 || c.events@.len() > 0 || c.variables@.len() > 0 || c.functions@.len() > 0
}

/// A contract: its header, its body indented (or a space when it is
/// empty), and `}`.
pub open spec fn contract_definition_docs(d: ContractDefinition, c: ContractContents) -> Seq<Doc> {
    contract_head_docs(d) + (if has_contents(c) {
        seq![Doc::Indent(seq![Doc::Hard] + items_docs(c, body_items(c), false)), Doc::Hard]
    } else {
        seq![Doc::Text(" "@)]
    }) + seq![Doc::Text("}"@)]
}

/// Every state variable and every function of a contract's body can be
/// laid out.
pub open spec fn contents_ok(c: ContractContents) -> bool {
    vars_ok(c.variables@) && fns_ok(c.functions@)
}

/// Whether a `constant` attribute is among `attrs`.
pub fn has_constant(attrs: &Vec<VariableAttribute>) -> (b: bool)
    ensures
        b == exists|i: int| 0 <= i < attrs@.len() && #[trigger] attrs@[i] == VariableAttribute::Constant,
{
    let mut i: usize = 0;
    while i < attrs.len()
        invariant
            i <= attrs@.len(),
            forall|k: int| 0 <= k < i ==> attrs@[k] != VariableAttribute::Constant,
        decreases attrs@.len() - i,
    {
        match &attrs[i] {
            VariableAttribute::Constant => {
                return true;
            },
            _ => {},
        }
        i = i + 1;
    }
    false
}

/// Appends the names `e` refers to through arithmetic, parentheses, member
/// accesses and subscripts.
pub fn collect_refs(e: &Expression, out: &mut Vec<Vec<char>>)
    ensures
        views(final(out)@) == views(old(out)@) + expr_refs(*e),
    decreases e,
{
    let ghost o = views(out@);
    match e {
        Expression::Variable(n) => {
            out.push(chars_of(n.as_str()));
            assert(views(out@) =~= o + expr_refs(*e));
        },
        Expression::ArraySubscript(b, i) => {
            collect_refs(&**b, out);
            match i {
                Some(x) => {
                    collect_refs(&**x, out);
                },
                None => {},
            }
            assert(views(out@) =~= o + expr_refs(*e));
        },
        Expression::MemberAccess(b, _) => {
            collect_refs(&**b, out);
        },
        Expression::Binary(op, a, b) => {
            match op {
                BinaryOp::Add | BinaryOp::Subtract | BinaryOp::Multiply | BinaryOp::Divide | BinaryOp::Modulo => {
                    collect_refs(&**a, out);
                    collect_refs(&**b, out);
                    assert(views(out@) =~= o + expr_refs(*e));
                },
                _ => {
                    assert(views(out@) =~= o + expr_refs(*e));
                },
            }
        },
        Expression::Parenthesis(x) => {
            collect_refs(&**x, out);
        },
        _ => {
            assert(views(out@) =~= o + expr_refs(*e));
        },
    }
}

/// Every state variable can be laid out.
pub open spec fn vars_ok(vars: Seq<CommentedElement<VariableDefinition>>) -> bool {
    forall|i: int|
        0 <= i < vars.len() ==> var_comments_ok(#[trigger] vars[i].leading_comments@) && var_ok(vars[i].element)
}

/// Layouts of consecutive runs of elements join into the layout of the
/// whole run.
pub proof fn lemma_items_docs_append(c: ContractContents, a: Seq<BodyItem>, b: Seq<BodyItem>, s: bool)
    ensures
        items_docs(c, a + b, s) == items_docs(c, a, s) + items_docs(c, b, s || a.len() > 0),
    decreases b.len(),
{
    if b.len() == 0 {
        assert(a + b =~= a);
        assert(items_docs(c, a, s) + items_docs(c, b, s || a.len() > 0) =~= items_docs(c, a, s));
    } else {
        lemma_items_docs_append(c, a, b.drop_last(), s);
        assert((a + b).drop_last() =~= a + b.drop_last());
        assert((a + b).last() == b.last());
    }
}

/// A base contract: its path and, when given, its arguments in brackets,
/// separated by `, `.
pub fn format_base(base: Base) -> (r: IRElement)
    ensures
        doc_match(r, base_docs(base)),
{
    let ghost b = base;
    let Base { name, args } = base;
    let path = format_identifier_path(&name);
    let mut ir: Vec<IRElement> = vec![IRElement::text(path.as_str())];
    let ghost d0 = seq![Doc::Text(identifier_path_text(b.name))];
    proof {
        lemma_docs(ir@, d0);
    }
    let ghost tail = match b.args {
        Some(a) => seq![Doc::Text("("@)] + base_args_docs(a@) + seq![Doc::Text(")"@)],
        None => Seq::<Doc>::empty(),
    };
    match args {
        Some(a) => {
            let ghost orig = a@;
            push_text(&mut ir, "(", Ghost(d0));
            let ghost d1 = d0.push(Doc::Text("("@));
            let n = a.len();
            let mut rest = a;
            let mut i: usize = 0;
            assert(orig.take(0) =~= Seq::<IRElement>::empty());
            assert(d1 =~= d1 + base_args_docs(orig.take(0)));
            while rest.len() > 0
                invariant
                    i <= orig.len(),
                    orig.len() == n,
                    rest@ == orig.subrange(i as int, orig.len() as int),
                    docs(ir@, d1 + base_args_docs(orig.take(i as int))),
                decreases rest@.len(),
            {
                let ghost pre = d1 + base_args_docs(orig.take(i as int));
                assert(orig.take(i + 1).drop_last() =~= orig.take(i as int));
                assert(orig.take(i + 1).last() == rest@[0]);
                let x = rest.remove(0);
                assert(rest@ =~= orig.subrange(i + 1, orig.len() as int));
                let ghost sep = if i + 1 > 1 {
                    seq![Doc::Text(", "@)]
                } else {
                    Seq::<Doc>::empty()
                };
                if i > 0 {
                    push_text(&mut ir, ", ", Ghost(pre));
                    assert(pre.push(Doc::Text(", "@)) =~= pre + sep);
                } else {
                    assert(pre =~= pre + sep);
                }
                let ghost xd = doc_of(x);
                proof {
                    lemma_doc_of(x);
                }
                push_doc(&mut ir, x, Ghost(pre + sep), Ghost(xd));
                assert((pre + sep).push(xd) =~= d1 + base_args_docs(orig.take(i + 1)));
                i = i + 1;
            }
            assert(orig.take(i as int) =~= orig);
            push_text(&mut ir, ")", Ghost(d1 + base_args_docs(orig)));
            assert((d1 + base_args_docs(orig)).push(Doc::Text(")"@)) =~= d0 + tail);
        },
        None => {
            assert(d0 =~= d0 + tail);
        },
    }
    let r = IRElement::Group(ir);
    assert(d0 + tail =~= match base_docs(b) {
        Doc::Group(x) => x,
        _ => Seq::empty(),
    });
    r
}

/// The bases, each on a line of its own, separated by commas.
fn push_bases(ir: &mut Vec<IRElement>, bases: Vec<Base>, Ghost(ds): Ghost<Seq<Doc>>)
    requires
        docs(old(ir)@, ds),
    ensures
        docs(final(ir)@, ds + inheritance_docs(bases@)),
{
    let ghost orig = bases@;
    let n = bases.len();
    let mut rest = bases;
    let mut i: usize = 0;
    assert(orig.take(0) =~= Seq::<Base>::empty());
    assert(ds =~= ds + inheritance_docs(orig.take(0)));
    while rest.len() > 0
        invariant
            i <= orig.len(),
            orig.len() == n,
            rest@ == orig.subrange(i as int, orig.len() as int),
            docs(ir@, ds + inheritance_docs(orig.take(i as int))),
        decreases rest@.len(),
    {
        let ghost pre = ds + inheritance_docs(orig.take(i as int));
        assert(orig.take(i + 1).drop_last() =~= orig.take(i as int));
        assert(orig.take(i + 1).last() == rest@[0]);
        let b = rest.remove(0);
        assert(rest@ =~= orig.subrange(i + 1, orig.len() as int));
        let ghost sep = if i + 1 > 1 {
            seq![Doc::Text(","@)]
        } else {
            Seq::<Doc>::empty()
        };
        if i > 0 {
            push_text(ir, ",", Ghost(pre));
            assert(pre.push(Doc::Text(","@)) =~= pre + sep);
        } else {
            assert(pre =~= pre + sep);
        }
        push_hard(ir, Ghost(pre + sep));
        let ghost bd = base_docs(b);
        let e = format_base(b);
        push_doc(ir, e, Ghost((pre + sep).push(Doc::Hard)), Ghost(bd));
        assert((pre + sep).push(Doc::Hard).push(bd) =~= ds + inheritance_docs(orig.take(i + 1)));
        i = i + 1;
    }
    assert(orig.take(i as int) =~= orig);
}

/// A contract's header up to its opening brace.
fn build_contract_head(d: ContractDefinition) -> (r: Vec<IRElement>)
    ensures
        docs(r@, contract_head_docs(d)),
{
    let ghost dv = d;
    let ContractDefinition { ty, name, base } = d;
    let mut ir: Vec<IRElement> = Vec::new();
    assert(docs(ir@, Seq::<Doc>::empty()));
    let ghost e = Seq::<Doc>::empty();
    match ty {
        ContractTy::Contract => {
            push_text(&mut ir, "contract", Ghost(e));
        },
        ContractTy::Abstract => {
            push_text(&mut ir, "abstract", Ghost(e));
            push_text(&mut ir, " ", Ghost(e.push(Doc::Text("abstract"@))));
            push_text(&mut ir, "contract", Ghost(e.push(Doc::Text("abstract"@)).push(Doc::Text(" "@))));
        },
        ContractTy::Interface => {
            push_text(&mut ir, "interface", Ghost(e));
        },
        ContractTy::Library => {
            push_text(&mut ir, "library", Ghost(e));
        },
    }
    let ghost k = kind_docs(dv.ty);
    assert(docs(ir@, k)) by {
        assert(e.push(Doc::Text("abstract"@)).push(Doc::Text(" "@)).push(Doc::Text("contract"@)) =~= seq![
            Doc::Text("abstract"@),
            Doc::Text(" "@),
            Doc::Text("contract"@),
        ]);
        assert(e.push(Doc::Text("contract"@)) =~= seq![Doc::Text("contract"@)]);
        assert(e.push(Doc::Text("interface"@)) =~= seq![Doc::Text("interface"@)]);
        assert(e.push(Doc::Text("library"@)) =~= seq![Doc::Text("library"@)]);
    }
    push_text(&mut ir, " ", Ghost(k));
    let ghost k1 = k.push(Doc::Text(" "@));
    let ghost nm = match dv.name {
        Some(n) => seq![Doc::Text(n@)],
        None => Seq::<Doc>::empty(),
    };
    match name {
        Some(n) => {
            let ghost nv = n@;
            push_doc(&mut ir, IRElement::Text(n), Ghost(k1), Ghost(Doc::Text(nv)));
            assert(k1.push(Doc::Text(nv)) =~= k1 + nm);
        },
        None => {
            assert(k1 =~= k1 + nm);
        },
    }
    let ghost k2 = k1 + nm;
    let ghost tail = if dv.base@.len() > 0 {
        seq![
            Doc::Text(" is"@),
            Doc::Indent(inheritance_docs(dv.base@) + seq![Doc::Text(" "@), Doc::Text("{"@)]),
        ]
    } else {
        seq![Doc::Text(" "@), Doc::Text("{"@)]
    };
    if base.len() > 0 {
        push_text(&mut ir, " is", Ghost(k2));
        let mut inner: Vec<IRElement> = Vec::new();
        assert(docs(inner@, Seq::<Doc>::empty()));
        push_bases(&mut inner, base, Ghost(Seq::empty()));
        let ghost idd = Seq::<Doc>::empty() + inheritance_docs(dv.base@);
        push_text(&mut inner, " ", Ghost(idd));
        push_text(&mut inner, "{", Ghost(idd.push(Doc::Text(" "@))));
        let ghost ind = idd.push(Doc::Text(" "@)).push(Doc::Text("{"@));
        assert(ind =~= inheritance_docs(dv.base@) + seq![Doc::Text(" "@), Doc::Text("{"@)]);
        push_doc(&mut ir, IRElement::Indent(inner), Ghost(k2.push(Doc::Text(" is"@))), Ghost(Doc::Indent(ind)));
        assert(k2.push(Doc::Text(" is"@)).push(Doc::Indent(ind)) =~= k2 + tail);
    } else {
        push_text(&mut ir, " ", Ghost(k2));
        push_text(&mut ir, "{", Ghost(k2.push(Doc::Text(" "@))));
        assert(k2.push(Doc::Text(" "@)).push(Doc::Text("{"@)) =~= k2 + tail);
    }
    assert(k2 + tail =~= contract_head_docs(dv));
    ir
}

/// Appends an element of a contract's body after a line break, and after a
/// blank line when something came before.
fn push_item(
    body: &mut Vec<IRElement>,
    item: Vec<IRElement>,
    started: bool,
    Ghost(ds): Ghost<Seq<Doc>>,
    Ghost(d): Ghost<Seq<Doc>>,
)
    requires
        docs(old(body)@, ds),
        docs(item@, d),
    ensures
        docs(
            final(body)@,
            ds + (if started {
                seq![Doc::Hard, Doc::Hard]
            } else {
                seq![Doc::Hard]
            }) + d,
        ),
{
    let ghost gap = if started {
        seq![Doc::Hard, Doc::Hard]
    } else {
        seq![Doc::Hard]
    };
    if started {
        push_hard(body, Ghost(ds));
        push_hard(body, Ghost(ds.push(Doc::Hard)));
        assert(ds.push(Doc::Hard).push(Doc::Hard) =~= ds + gap);
    } else {
        push_hard(body, Ghost(ds));
        assert(ds.push(Doc::Hard) =~= ds + gap);
    }
    push_block(body, item, Ghost(ds + gap), Ghost(d));
}

/// Appends the `using` directives.
fn push_usings(
    body: &mut Vec<IRElement>,
    xs: Vec<CommentedElement<Using>>,
    started: bool,
    Ghost(c): Ghost<ContractContents>,
    Ghost(ds): Ghost<Seq<Doc>>,
)
    requires
        docs(old(body)@, ds),
        xs@ == c.using_directives@,
    ensures
        docs(final(body)@, ds + items_docs(c, Seq::new(c.using_directives@.len(), |i: int| BodyItem::Using(i)), started)),
{
    let ghost orig = xs@;
    let ghost items = Seq::new(c.using_directives@.len(), |i: int| BodyItem::Using(i));
    let n = xs.len();
    let mut rest = xs;
    let mut i: usize = 0;
    assert(items.take(0) =~= Seq::<BodyItem>::empty());
    assert(ds =~= ds + items_docs(c, items.take(0), started));
    while rest.len() > 0
        invariant
            i <= orig.len(),
            orig.len() == n,
            orig == c.using_directives@,
            items == Seq::new(c.using_directives@.len(), |i: int| BodyItem::Using(i)),
            rest@ == orig.subrange(i as int, orig.len() as int),
            docs(body@, ds + items_docs(c, items.take(i as int), started)),
        decreases rest@.len(),
    {
        let ghost pre = ds + items_docs(c, items.take(i as int), started);
        assert(items.take(i + 1).drop_last() =~= items.take(i as int));
        assert(items.take(i + 1).last() == BodyItem::Using(i as int));
        assert(orig[i as int] == rest@[0]);
        let x = rest.remove(0);
        assert(rest@ =~= orig.subrange(i + 1, orig.len() as int));
        proof {
            reveal(item_docs);
        }
        let ghost xd = item_docs(c, BodyItem::Using(i as int));
        let ir = build_using_directive_ir(x);
        push_item(body, ir, started || i > 0, Ghost(pre), Ghost(xd));
        assert(pre + (if started || i > 0 {
            seq![Doc::Hard, Doc::Hard]
        } else {
            seq![Doc::Hard]
        }) + xd =~= ds + items_docs(c, items.take(i + 1), started));
        i = i + 1;
    }
    assert(items.take(i as int) =~= items);
}

/// Appends the user-defined value types.
fn push_types(
    body: &mut Vec<IRElement>,
    xs: Vec<CommentedElement<TypeDefinition>>,
    started: bool,
    Ghost(c): Ghost<ContractContents>,
    Ghost(ds): Ghost<Seq<Doc>>,
)
    requires
        docs(old(body)@, ds),
        xs@ == c.types@,
    ensures
        docs(final(body)@, ds + items_docs(c, Seq::new(c.types@.len(), |i: int| BodyItem::Type(i)), started)),
{
    let ghost orig = xs@;
    let ghost items = Seq::new(c.types@.len(), |i: int| BodyItem::Type(i));
    let n = xs.len();
    let mut rest = xs;
    let mut i: usize = 0;
    assert(items.take(0) =~= Seq::<BodyItem>::empty());
    assert(ds =~= ds + items_docs(c, items.take(0), started));
    while rest.len() > 0
        invariant
            i <= orig.len(),
            orig.len() == n,
            orig == c.types@,
            items == Seq::new(c.types@.len(), |i: int| BodyItem::Type(i)),
            rest@ == orig.subrange(i as int, orig.len() as int),
            docs(body@, ds + items_docs(c, items.take(i as int), started)),
        decreases rest@.len(),
    {
        let ghost pre = ds + items_docs(c, items.take(i as int), started);
        assert(items.take(i + 1).drop_last() =~= items.take(i as int));
        assert(items.take(i + 1).last() == BodyItem::Type(i as int));
        assert(orig[i as int] == rest@[0]);
        let x = rest.remove(0);
        assert(rest@ =~= orig.subrange(i + 1, orig.len() as int));
        proof {
            reveal(item_docs);
        }
        let ghost xd = item_docs(c, BodyItem::Type(i as int));
        let ir = build_type_definition_ir(x);
        push_item(body, ir, started || i > 0, Ghost(pre), Ghost(xd));
        assert(pre + (if started || i > 0 {
            seq![Doc::Hard, Doc::Hard]
        } else {
            seq![Doc::Hard]
        }) + xd =~= ds + items_docs(c, items.take(i + 1), started));
        i = i + 1;
    }
    assert(items.take(i as int) =~= items);
}

/// Appends the enums.
fn push_enums(
    body: &mut Vec<IRElement>,
    xs: Vec<CollectedEnum>,
    started: bool,
    Ghost(c): Ghost<ContractContents>,
    Ghost(ds): Ghost<Seq<Doc>>,
)
    requires
        docs(old(body)@, ds),
        xs@ == c.enums@,
    ensures
        docs(final(body)@, ds + items_docs(c, Seq::new(c.enums@.len(), |i: int| BodyItem::Enum(i)), started)),
{
    let ghost orig = xs@;
    let ghost items = Seq::new(c.enums@.len(), |i: int| BodyItem::Enum(i));
    let n = xs.len();
    let mut rest = xs;
    let mut i: usize = 0;
    assert(items.take(0) =~= Seq::<BodyItem>::empty());
    assert(ds =~= ds + items_docs(c, items.take(0), started));
    while rest.len() > 0
        invariant
            i <= orig.len(),
            orig.len() == n,
            orig == c.enums@,
            items == Seq::new(c.enums@.len(), |i: int| BodyItem::Enum(i)),
            rest@ == orig.subrange(i as int, orig.len() as int),
            docs(body@, ds + items_docs(c, items.take(i as int), started)),
        decreases rest@.len(),
    {
        let ghost pre = ds + items_docs(c, items.take(i as int), started);
        assert(items.take(i + 1).drop_last() =~= items.take(i as int));
        assert(items.take(i + 1).last() == BodyItem::Enum(i as int));
        assert(orig[i as int] == rest@[0]);
        let x = rest.remove(0);
        assert(rest@ =~= orig.subrange(i + 1, orig.len() as int));
        proof {
            reveal(item_docs);
        }
        let ghost xd = item_docs(c, BodyItem::Enum(i as int));
        let ir = build_enum_ir(&x);
        push_item(body, ir, started || i > 0, Ghost(pre), Ghost(xd));
        assert(pre + (if started || i > 0 {
            seq![Doc::Hard, Doc::Hard]
        } else {
            seq![Doc::Hard]
        }) + xd =~= ds + items_docs(c, items.take(i + 1), started));
        i = i + 1;
    }
    assert(items.take(i as int) =~= items);
}

/// Appends the errors.
fn push_errors(
    body: &mut Vec<IRElement>,
    xs: Vec<CollectedError>,
    started: bool,
    Ghost(c): Ghost<ContractContents>,
    Ghost(ds): Ghost<Seq<Doc>>,
)
    requires
        docs(old(body)@, ds),
        xs@ == c.errors@,
    ensures
        docs(final(body)@, ds + items_docs(c, Seq::new(c.errors@.len(), |i: int| BodyItem::Error(i)), started)),
{
    let ghost orig = xs@;
    let ghost items = Seq::new(c.errors@.len(), |i: int| BodyItem::Error(i));
    let n = xs.len();
    let mut rest = xs;
    let mut i: usize = 0;
    assert(items.take(0) =~= Seq::<BodyItem>::empty());
    assert(ds =~= ds + items_docs(c, items.take(0), started));
    while rest.len() > 0
        invariant
            i <= orig.len(),
            orig.len() == n,
            orig == c.errors@,
            items == Seq::new(c.errors@.len(), |i: int| BodyItem::Error(i)),
            rest@ == orig.subrange(i as int, orig.len() as int),
            docs(body@, ds + items_docs(c, items.take(i as int), started)),
        decreases rest@.len(),
    {
        let ghost pre = ds + items_docs(c, items.take(i as int), started);
        assert(items.take(i + 1).drop_last() =~= items.take(i as int));
        assert(items.take(i + 1).last() == BodyItem::Error(i as int));
        assert(orig[i as int] == rest@[0]);
        let x = rest.remove(0);
        assert(rest@ =~= orig.subrange(i + 1, orig.len() as int));
        proof {
            reveal(item_docs);
        }
        let ghost xd = item_docs(c, BodyItem::Error(i as int));
        let ir = build_error_ir(x);
        push_item(body, ir, started || i > 0, Ghost(pre), Ghost(xd));
        assert(pre + (if started || i > 0 {
            seq![Doc::Hard, Doc::Hard]
        } else {
            seq![Doc::Hard]
        }) + xd =~= ds + items_docs(c, items.take(i + 1), started));
        i = i + 1;
    }
    assert(items.take(i as int) =~= items);
}

/// Appends the events.
fn push_events(
    body: &mut Vec<IRElement>,
    xs: Vec<CollectedEvent>,
    started: bool,
    Ghost(c): Ghost<ContractContents>,
    Ghost(ds): Ghost<Seq<Doc>>,
)
    requires
        docs(old(body)@, ds),
        xs@ == c.events@,
    ensures
        docs(final(body)@, ds + items_docs(c, Seq::new(c.events@.len(), |i: int| BodyItem::Event(i)), started)),
{
    let ghost orig = xs@;
    let ghost items = Seq::new(c.events@.len(), |i: int| BodyItem::Event(i));
    let n = xs.len();
    let mut rest = xs;
    let mut i: usize = 0;
    assert(items.take(0) =~= Seq::<BodyItem>::empty());
    assert(ds =~= ds + items_docs(c, items.take(0), started));
    while rest.len() > 0
        invariant
            i <= orig.len(),
            orig.len() == n,
            orig == c.events@,
            items == Seq::new(c.events@.len(), |i: int| BodyItem::Event(i)),
            rest@ == orig.subrange(i as int, orig.len() as int),
            docs(body@, ds + items_docs(c, items.take(i as int), started)),
        decreases rest@.len(),
    {
        let ghost pre = ds + items_docs(c, items.take(i as int), started);
        assert(items.take(i + 1).drop_last() =~= items.take(i as int));
        assert(items.take(i + 1).last() == BodyItem::Event(i as int));
        assert(orig[i as int] == rest@[0]);
        let x = rest.remove(0);
        assert(rest@ =~= orig.subrange(i + 1, orig.len() as int));
        proof {
            reveal(item_docs);
        }
        let ghost xd = item_docs(c, BodyItem::Event(i as int));
        let ir = build_event_ir(x);
        push_item(body, ir, started || i > 0, Ghost(pre), Ghost(xd));
        assert(pre + (if started || i > 0 {
            seq![Doc::Hard, Doc::Hard]
        } else {
            seq![Doc::Hard]
        }) + xd =~= ds + items_docs(c, items.take(i + 1), started));
        i = i + 1;
    }
    assert(items.take(i as int) =~= items);
}

/// Appends the functions, each laid out by `build_function_ir`.
fn push_functions(
    body: &mut Vec<IRElement>,
    xs: &Vec<CollectedFunction>,
    started: bool,
    Ghost(c): Ghost<ContractContents>,
    Ghost(ds): Ghost<Seq<Doc>>,
)
    requires
        docs(old(body)@, ds),
        xs@ == c.functions@,
        fns_ok(c.functions@),
    ensures
        docs(final(body)@, ds + items_docs(c, Seq::new(c.functions@.len(), |i: int| BodyItem::Function(i)), started)),
{
    let ghost items = Seq::new(c.functions@.len(), |i: int| BodyItem::Function(i));
    let mut i: usize = 0;
    assert(items.take(0) =~= Seq::<BodyItem>::empty());
    assert(ds =~= ds + items_docs(c, items.take(0), started));
    while i < xs.len()
        invariant
            i <= xs@.len(),
            xs@ == c.functions@,
            fns_ok(c.functions@),
            items == Seq::new(c.functions@.len(), |i: int| BodyItem::Function(i)),
            docs(body@, ds + items_docs(c, items.take(i as int), started)),
        decreases xs@.len() - i,
    {
        let ghost pre = ds + items_docs(c, items.take(i as int), started);
        assert(items.take(i + 1).drop_last() =~= items.take(i as int));
        assert(items.take(i + 1).last() == BodyItem::Function(i as int));
        proof {
            reveal(item_docs);
        }
        let ghost xd = item_docs(c, BodyItem::Function(i as int));
        assert(fn_ok(xs@[i as int]));
        let ir = build_function_ir(&xs[i]);
        proof {
            reveal(function_item_docs);
        }
        push_item(body, ir, started || i > 0, Ghost(pre), Ghost(xd));
        assert(pre + (if started || i > 0 {
            seq![Doc::Hard, Doc::Hard]
        } else {
            seq![Doc::Hard]
        }) + xd =~= ds + items_docs(c, items.take(i + 1), started));
        i = i + 1;
    }
    assert(items.take(i as int) =~= items);
}

/// The name of a variable held in a slot, as characters.
pub open spec fn opt_view(o: Option<Vec<char>>) -> Option<Seq<char>> {
    match o {
        Some(v) => Some(v@),
        None => None,
    }
}

/// The slots hold the variables not yet laid out; a variable taken out has
/// a name that was placed.
pub open spec fn slots_ok(
    slots: Seq<Option<CommentedElement<VariableDefinition>>>,
    vars: Seq<CommentedElement<VariableDefinition>>,
    emitted: Seq<Seq<char>>,
) -> bool {
    &&& slots.len() == vars.len()
    &&& forall|i: int|
        0 <= i < slots.len() ==> (#[trigger] slots[i] matches Some(v) ==> v == vars[i]) && (slots[i] is None
            ==> (var_name(vars[i]) matches Some(x) && emitted.contains(x)))
}

/// The names of the variables and of the named constants among them.
pub open spec fn names_ok(
    names: Seq<Option<Vec<char>>>,
    const_names: Seq<Option<Vec<char>>>,
    vars: Seq<CommentedElement<VariableDefinition>>,
) -> bool {
    &&& names.len() == vars.len()
    &&& const_names.len() == vars.len()
    &&& forall|i: int| 0 <= i < vars.len() ==> opt_view(#[trigger] names[i]) == var_name(vars[i])
    &&& forall|i: int|
        0 <= i < vars.len() ==> opt_view(#[trigger] const_names[i]) == if named_constant(vars[i]) {
            var_name(vars[i])
        } else {
            None
        }
}

/// The index that `const_index` finds holds a constant of that name.
proof fn lemma_const_index(vars: Seq<CommentedElement<VariableDefinition>>, name: Seq<char>)
    ensures
        const_index(vars, name) matches Some(k) ==> 0 <= k < vars.len() && named_constant(vars[k]) && var_name(
            vars[k],
        ) == Some(name),
    decreases vars.len(),
{
    if vars.len() > 0 {
        lemma_const_index(vars.drop_last(), name);
    }
}

/// The index of the last constant called `name`.
fn find_const(const_names: &Vec<Option<Vec<char>>>, name: &[char], Ghost(vars): Ghost<
    Seq<CommentedElement<VariableDefinition>>,
>) -> (r: Option<usize>)
    requires
        const_names@.len() == vars.len(),
        forall|i: int|
            0 <= i < vars.len() ==> opt_view(#[trigger] const_names@[i]) == if named_constant(vars[i]) {
                var_name(vars[i])
            } else {
                None
            },
    ensures
        match r {
            Some(k) => const_index(vars, name@) == Some(k as int),
            None => const_index(vars, name@) is None,
        },
{
    let mut i: usize = const_names.len();
    assert(vars.take(i as int) =~= vars);
    while i > 0
        invariant
            i <= vars.len(),
            const_names@.len() == vars.len(),
            forall|k: int|
                0 <= k < vars.len() ==> opt_view(#[trigger] const_names@[k]) == if named_constant(vars[k]) {
                    var_name(vars[k])
                } else {
                    None
                },
            const_index(vars, name@) == const_index(vars.take(i as int), name@),
        decreases i,
    {
        let ghost pre = vars.take(i as int);
        assert(pre.drop_last() =~= vars.take(i - 1));
        assert(pre.last() == vars[i - 1]);
        let found = match &const_names[i - 1] {
            Some(x) => chars_equal(x.as_slice(), name),
            None => false,
        };
        if found {
            return Some(i - 1);
        }
        i = i - 1;
    }
    None
}

/// Takes the variable out of slot `k`.
fn take_slot(slots: &mut Vec<Option<CommentedElement<VariableDefinition>>>, k: usize) -> (r: Option<
    CommentedElement<VariableDefinition>,
>)
    requires
        k < old(slots)@.len(),
    ensures
        r == old(slots)@[k as int],
        final(slots)@ == old(slots)@.update(k as int, None),
{
    let ghost before = slots@;
    let r = slots.remove(k);
    slots.insert(k, None);
    assert(slots@ =~= before.update(k as int, None));
    r
}

/// Places, in order, the constants among `deps` not yet placed.
#[verifier::spinoff_prover]
fn emit_deps(
    body: &mut Vec<IRElement>,
    deps: &Vec<Vec<char>>,
    slots: &mut Vec<Option<CommentedElement<VariableDefinition>>>,
    emitted: &mut Vec<Vec<char>>,
    const_names: &Vec<Option<Vec<char>>>,
    names: &Vec<Option<Vec<char>>>,
    started: bool,
    nonempty: bool,
    Ghost(c): Ghost<ContractContents>,
    Ghost(ds0): Ghost<Seq<Doc>>,
    Ghost(it0): Ghost<Seq<BodyItem>>,
) -> (had: bool)
    requires
        docs(old(body)@, ds0 + items_docs(c, it0, started)),
        slots_ok(old(slots)@, c.variables@, views(old(emitted)@)),
        names_ok(names@, const_names@, c.variables@),
        vars_ok(c.variables@),
        nonempty == (it0.len() > 0),
    ensures
        ({
            let (it1, em1) = emit_consts(c.variables@, views(deps@), it0, views(old(emitted)@));
            &&& docs(final(body)@, ds0 + items_docs(c, it1, started))
            &&& views(final(emitted)@) == em1
            &&& slots_ok(final(slots)@, c.variables@, em1)
            &&& had == (it1.len() > 0)
        }),
{
    let ghost vars = c.variables@;
    let ghost dv = views(deps@);
    let ghost target = emit_consts(vars, dv, it0, views(emitted@));
    let ghost mut it = it0;
    let mut had = nonempty;
    let mut j: usize = 0;
    assert(dv.skip(0) =~= dv);
    while j < deps.len()
        invariant
            j <= deps@.len(),
            had == (it.len() > 0),
            vars == c.variables@,
            dv == views(deps@),
            names_ok(names@, const_names@, vars),
            vars_ok(vars),
            target == emit_consts(vars, dv.skip(j as int), it, views(emitted@)),
            docs(body@, ds0 + items_docs(c, it, started)),
            slots_ok(slots@, vars, views(emitted@)),
        decreases deps@.len() - j,
    {
        assert(dv.skip(j as int)[0] == deps@[j as int]@);
        assert(dv.skip(j as int).drop_first() =~= dv.skip(j + 1));
        let d = deps[j].as_slice();
        let k = find_const(const_names, d, Ghost(vars));
        match k {
            Some(k) => {
                if !has_name(emitted, d) {
                    proof {
                        lemma_const_index(vars, d@);
                    }
                    let ghost em = views(emitted@);
                    let slot = take_slot(slots, k);
                    match slot {
                        Some(v) => {
                            assert(v == vars[k as int]);
                            proof {
            reveal(item_docs);
        }
        let ghost xd = item_docs(c, BodyItem::Var(k as int));
                            let ir = build_variable_definition_ir(v);
                            let ghost pre = ds0 + items_docs(c, it, started);
                            push_item(body, ir, started || had, Ghost(pre), Ghost(xd));
                            had = true;
                            proof {
                                let it2 = it.push(BodyItem::Var(k as int));
                                assert(it2.drop_last() =~= it);
                                assert(pre + (if started || it.len() > 0 {
                                    seq![Doc::Hard, Doc::Hard]
                                } else {
                                    seq![Doc::Hard]
                                }) + xd =~= ds0 + items_docs(c, it2, started));
                                it = it2;
                            }
                            let ghost eb = views(emitted@);
                            emitted.push(copy_name(d));
                            assert(views(emitted@) =~= eb.push(d@));
                            assert(slots_ok(slots@, vars, views(emitted@))) by {
                                let ev = views(emitted@);
                                assert(ev[eb.len() as int] == d@);
                                assert forall|i: int| 0 <= i < slots@.len() implies (#[trigger] slots@[i] matches Some(w)
                                    ==> w == vars[i]) && (slots@[i] is None ==> (var_name(vars[i]) matches Some(x)
                                    && ev.contains(x))) by {
                                    if slots@[i] is None && i != k {
                                        let x = var_name(vars[i])->0;
                                        let m = choose|m: int| 0 <= m < eb.len() && eb[m] == x;
                                        assert(ev[m] == x);
                                    }
                                }
                            }
                        },
                        None => {
                            assert(false);
                        },
                    }
                } else {
                }
            },
            None => {},
        }
        j = j + 1;
    }
    assert(dv.skip(j as int) =~= Seq::<Seq<char>>::empty());
    had
}

/// A copy of a name.
fn copy_name(x: &[char]) -> (r: Vec<char>)
    ensures
        r@ == x@,
{
    let n = x.len();
    let r = slice_chars(x, 0, n);
    assert(r@ =~= x@);
    r
}

/// Each struct's items hold at least the structs.
proof fn lemma_struct_items_len(c: ContractContents, n: int)
    requires
        n >= 0,
    ensures
        struct_items(c, n).0.len() >= n,
    decreases n,
{
    if n > 0 {
        lemma_struct_items_len(c, n - 1);
        let (it, em) = struct_items(c, n - 1);
        let deps = resolved_order(const_table_of(c.variables@), struct_const_deps(c.structs@[n - 1]));
        lemma_emit_consts_grows(c.variables@, deps, it, em);
    }
}

/// Placing constants only adds items.
proof fn lemma_emit_consts_grows(
    vars: Seq<CommentedElement<VariableDefinition>>,
    deps: Seq<Seq<char>>,
    items: Seq<BodyItem>,
    emitted: Seq<Seq<char>>,
)
    ensures
        emit_consts(vars, deps, items, emitted).0.len() >= items.len(),
    decreases deps.len(),
{
    if deps.len() > 0 {
        let d = deps[0];
        let (i2, e2) = match const_index(vars, d) {
            Some(k) => if !emitted.contains(d) {
                (items.push(BodyItem::Var(k)), emitted.push(d))
            } else {
                (items, emitted)
            },
            None => (items, emitted),
        };
        lemma_emit_consts_grows(vars, deps.drop_first(), i2, e2);
    }
}

/// Appends the structs, each after the constants its array sizes need that
/// are not yet placed.
#[verifier::spinoff_prover]
fn push_structs(
    body: &mut Vec<IRElement>,
    structs: Vec<CollectedStruct>,
    slots: &mut Vec<Option<CommentedElement<VariableDefinition>>>,
    emitted: &mut Vec<Vec<char>>,
    table: &Vec<(Vec<char>, Vec<Vec<char>>)>,
    const_names: &Vec<Option<Vec<char>>>,
    names: &Vec<Option<Vec<char>>>,
    started: bool,
    Ghost(c): Ghost<ContractContents>,
    Ghost(ds0): Ghost<Seq<Doc>>,
)
    requires
        docs(old(body)@, ds0),
        structs@ == c.structs@,
        const_views(table@) == const_table_of(c.variables@),
        views(old(emitted)@) == Seq::<Seq<char>>::empty(),
        slots_ok(old(slots)@, c.variables@, Seq::empty()),
        names_ok(names@, const_names@, c.variables@),
        vars_ok(c.variables@),
    ensures
        ({
            let (it, em) = struct_items(c, c.structs@.len() as int);
            &&& docs(final(body)@, ds0 + items_docs(c, it, started))
            &&& views(final(emitted)@) == em
            &&& slots_ok(final(slots)@, c.variables@, em)
        }),
{
    let ghost orig = structs@;
    let n = structs.len();
    let mut rest = structs;
    let mut i: usize = 0;
    let mut had = false;
    assert(ds0 =~= ds0 + items_docs(c, struct_items(c, 0).0, started));
    while rest.len() > 0
        invariant
            i <= orig.len(),
            orig.len() == n,
            orig == c.structs@,
            rest@ == orig.subrange(i as int, orig.len() as int),
            const_views(table@) == const_table_of(c.variables@),
            names_ok(names@, const_names@, c.variables@),
            vars_ok(c.variables@),
            had == (struct_items(c, i as int).0.len() > 0),
            docs(body@, ds0 + items_docs(c, struct_items(c, i as int).0, started)),
            views(emitted@) == struct_items(c, i as int).1,
            slots_ok(slots@, c.variables@, struct_items(c, i as int).1),
        decreases rest@.len(),
    {
        assert(orig[i as int] == rest@[0]);
        let st = rest.remove(0);
        assert(rest@ =~= orig.subrange(i + 1, orig.len() as int));
        let ghost (it, em) = struct_items(c, i as int);
        let sd = struct_deps_chars(&st);
        let deps = resolve_chars(&sd, table);
        let ghost (it2, em2) = emit_consts(c.variables@, views(deps@), it, em);
        let had2 = emit_deps(
            body,
            &deps,
            slots,
            emitted,
            const_names,
            names,
            started,
            had,
            Ghost(c),
            Ghost(ds0),
            Ghost(it),
        );
        proof {
            reveal(item_docs);
        }
        let ghost xd = item_docs(c, BodyItem::Struct(i as int));
        let ir = build_struct_ir(st);
        let ghost pre = ds0 + items_docs(c, it2, started);
        push_item(body, ir, started || had2, Ghost(pre), Ghost(xd));
        proof {
            let it3 = it2.push(BodyItem::Struct(i as int));
            assert(it3.drop_last() =~= it2);
            assert(struct_items(c, i + 1) == (it3, em2));
            assert(pre + (if started || had2 {
                seq![Doc::Hard, Doc::Hard]
            } else {
                seq![Doc::Hard]
            }) + xd =~= ds0 + items_docs(c, it3, started));
        }
        had = true;
        i = i + 1;
    }
}

/// Appends the state variables whose names were not placed before a struct.
#[verifier::spinoff_prover]
fn push_vars(
    body: &mut Vec<IRElement>,
    slots: &mut Vec<Option<CommentedElement<VariableDefinition>>>,
    emitted: &Vec<Vec<char>>,
    const_names: &Vec<Option<Vec<char>>>,
    names: &Vec<Option<Vec<char>>>,
    started: bool,
    Ghost(c): Ghost<ContractContents>,
    Ghost(ds0): Ghost<Seq<Doc>>,
) -> (any: bool)
    requires
        docs(old(body)@, ds0),
        slots_ok(old(slots)@, c.variables@, views(emitted@)),
        names_ok(names@, const_names@, c.variables@),
        vars_ok(c.variables@),
    ensures
        docs(
            final(body)@,
            ds0 + items_docs(c, var_items(c.variables@, views(emitted@), c.variables@.len() as int), started),
        ),
        any == (var_items(c.variables@, views(emitted@), c.variables@.len() as int).len() > 0),
{
    let ghost vars = c.variables@;
    let ghost em = views(emitted@);
    let n = slots.len();
    let mut any = false;
    let mut i: usize = 0;
    assert(ds0 =~= ds0 + items_docs(c, var_items(vars, em, 0), started));
    while i < n
        invariant
            i <= n,
            n == vars.len(),
            vars == c.variables@,
            em == views(emitted@),
            names_ok(names@, const_names@, vars),
            vars_ok(vars),
            any == (var_items(vars, em, i as int).len() > 0),
            docs(body@, ds0 + items_docs(c, var_items(vars, em, i as int), started)),
            slots_ok(old(slots)@, vars, em),
            slots@.len() == n,
            forall|k: int| i <= k < n ==> #[trigger] slots@[k] == old(slots)@[k],
        decreases n - i,
    {
        let ghost it = var_items(vars, em, i as int);
        let skip = match &names[i] {
            Some(x) => has_name(emitted, x.as_slice()),
            None => false,
        };
        assert(opt_view(names@[i as int]) == var_name(vars[i as int]));
        assert(slots@[i as int] == old(slots)@[i as int]);
        if !skip {
            let slot = take_slot(slots, i);
            match slot {
                Some(v) => {
                    proof {
            reveal(item_docs);
        }
        let ghost xd = item_docs(c, BodyItem::Var(i as int));
                    let ir = build_variable_definition_ir(v);
                    let ghost pre = ds0 + items_docs(c, it, started);
                    push_item(body, ir, started || any, Ghost(pre), Ghost(xd));
                    proof {
                        let it2 = it.push(BodyItem::Var(i as int));
                        assert(it2.drop_last() =~= it);
                        assert(var_items(vars, em, i + 1) =~= it2);
                        assert(pre + (if started || any {
                            seq![Doc::Hard, Doc::Hard]
                        } else {
                            seq![Doc::Hard]
                        }) + xd =~= ds0 + items_docs(c, it2, started));
                    }
                    any = true;
                },
                None => {
                    assert(false);
                },
            }
        } else {
            assert(var_items(vars, em, i + 1) =~= it);
        }
        i = i + 1;
    }
    any
}

/// The variables in slots, with their names, the names of the constants,
/// and the constant table.
fn prepare_vars(variables: Vec<CommentedElement<VariableDefinition>>) -> (r: (
    Vec<Option<CommentedElement<VariableDefinition>>>,
    Vec<Option<Vec<char>>>,
    Vec<Option<Vec<char>>>,
    Vec<(Vec<char>, Vec<Vec<char>>)>,
))
    ensures
        slots_ok(r.0@, variables@, Seq::empty()),
        forall|i: int| 0 <= i < r.0@.len() ==> #[trigger] r.0@[i] is Some,
        names_ok(r.1@, r.2@, variables@),
        const_views(r.3@) == const_table_of(variables@),
{
    let ghost orig = variables@;
    let n = variables.len();
    let mut rest = variables;
    let mut slots: Vec<Option<CommentedElement<VariableDefinition>>> = Vec::new();
    let mut names: Vec<Option<Vec<char>>> = Vec::new();
    let mut const_names: Vec<Option<Vec<char>>> = Vec::new();
    let mut table: Vec<(Vec<char>, Vec<Vec<char>>)> = Vec::new();
    let mut i: usize = 0;
    assert(orig.take(0) =~= Seq::<CommentedElement<VariableDefinition>>::empty());
    assert(const_views(table@) =~= const_table_of(orig.take(0)));
    while rest.len() > 0
        invariant
            i <= orig.len(),
            orig.len() == n,
            rest@ == orig.subrange(i as int, orig.len() as int),
            slots@.len() == i,
            forall|k: int| 0 <= k < i ==> #[trigger] slots@[k] == Some(orig[k]),
            names_ok(names@, const_names@, orig.take(i as int)),
            const_views(table@) == const_table_of(orig.take(i as int)),
        decreases rest@.len(),
    {
        assert(orig.take(i + 1).drop_last() =~= orig.take(i as int));
        assert(orig.take(i + 1).last() == rest@[0]);
        assert(orig[i as int] == rest@[0]);
        let v = rest.remove(0);
        assert(rest@ =~= orig.subrange(i + 1, orig.len() as int));
        let nm = match &v.element.name {
            Some(x) => Some(chars_of(x.as_str())),
            None => None,
        };
        assert(opt_view(nm) == var_name(v));
        let constant = has_constant(&v.element.attrs);
        let cn = if constant {
            match &v.element.name {
                Some(x) => Some(chars_of(x.as_str())),
                None => None,
            }
        } else {
            None
        };
        assert(opt_view(cn) == if named_constant(v) {
            var_name(v)
        } else {
            None
        });
        if constant {
            match &v.element.name {
                Some(x) => {
                    let mut refs: Vec<Vec<char>> = Vec::new();
                    match &v.element.initializer {
                        Some(e) => {
                            assert(views(refs@) =~= Seq::<Seq<char>>::empty());
                            collect_refs(e, &mut refs);
                            assert(views(refs@) =~= value_refs(v.element));
                        },
                        None => {
                            assert(views(refs@) =~= value_refs(v.element));
                        },
                    }
                    let ghost tb = const_views(table@);
                    let key = chars_of(x.as_str());
                    let ghost ev = (key@, views(refs@));
                    table.insert(0, (key, refs));
                    assert(const_views(table@) =~= seq![ev] + tb);
                },
                None => {},
            }
        }
        let ghost nb = names@;
        let ghost cb = const_names@;
        names.push(nm);
        const_names.push(cn);
        assert(names_ok(names@, const_names@, orig.take(i + 1))) by {
            let t = orig.take(i + 1);
            assert forall|k: int| 0 <= k < t.len() implies opt_view(#[trigger] names@[k]) == var_name(t[k]) by {
                if k < i {
                    assert(names@[k] == nb[k]);
                    assert(t[k] == orig.take(i as int)[k]);
                }
            }
            assert forall|k: int| 0 <= k < t.len() implies opt_view(#[trigger] const_names@[k]) == if named_constant(
                t[k],
            ) {
                var_name(t[k])
            } else {
                None
            } by {
                if k < i {
                    assert(const_names@[k] == cb[k]);
                    assert(t[k] == orig.take(i as int)[k]);
                }
            }
        }
        slots.push(Some(v));
        i = i + 1;
    }
    assert(orig.take(i as int) =~= orig);
    (slots, names, const_names, table)
}

/// The body's sections, laid out one after the other, are the body's
/// layout.
#[verifier::spinoff_prover]
#[verifier::rlimit(100)]
proof fn lemma_body_layout(
    c: ContractContents,
    b0: Seq<Doc>,
    s1: bool,
    s2: bool,
    s3: bool,
    s4: bool,
    s5: bool,
    s6: bool,
    s7: bool,
)
    requires
        s1 == (c.using_directives@.len() > 0),
        s2 == (s1 || c.types@.len() > 0),
        s3 == (s2 || c.enums@.len() > 0),
        s4 == (s3 || c.structs@.len() > 0),
        s5 == (s4 || c.errors@.len() > 0),
        s6 == (s5 || c.events@.len() > 0),
        s7 == (s6 || var_items(
            c.variables@,
            struct_items(c, c.structs@.len() as int).1,
            c.variables@.len() as int,
        ).len() > 0),
    ensures
        b0 + items_docs(c, Seq::new(c.using_directives@.len(), |i: int| BodyItem::Using(i)), false) + items_docs(
            c,
            Seq::new(c.types@.len(), |i: int| BodyItem::Type(i)),
            s1,
        ) + items_docs(c, Seq::new(c.enums@.len(), |i: int| BodyItem::Enum(i)), s2) + items_docs(
            c,
            struct_items(c, c.structs@.len() as int).0,
            s3,
        ) + items_docs(c, Seq::new(c.errors@.len(), |i: int| BodyItem::Error(i)), s4) + items_docs(
            c,
            Seq::new(c.events@.len(), |i: int| BodyItem::Event(i)),
            s5,
        ) + items_docs(
            c,
            var_items(c.variables@, struct_items(c, c.structs@.len() as int).1, c.variables@.len() as int),
            s6,
        ) + items_docs(c, Seq::new(c.functions@.len(), |i: int| BodyItem::Function(i)), s7) == b0 + items_docs(
            c,
            body_items(c),
            false,
        ),
{
    let u = Seq::new(c.using_directives@.len(), |i: int| BodyItem::Using(i));
    let t = Seq::new(c.types@.len(), |i: int| BodyItem::Type(i));
    let e = Seq::new(c.enums@.len(), |i: int| BodyItem::Enum(i));
    let st = struct_items(c, c.structs@.len() as int).0;
    let em = struct_items(c, c.structs@.len() as int).1;
    let er = Seq::new(c.errors@.len(), |i: int| BodyItem::Error(i));
    let ev = Seq::new(c.events@.len(), |i: int| BodyItem::Event(i));
    let va = var_items(c.variables@, em, c.variables@.len() as int);
    let fu = Seq::new(c.functions@.len(), |i: int| BodyItem::Function(i));
    lemma_struct_items_len(c, c.structs@.len() as int);
    if c.structs@.len() == 0 {
        assert(st.len() == 0);
    }
    let a2 = u + t;
    let a3 = a2 + e;
    let a4 = a3 + st;
    let a5 = a4 + er;
    let a6 = a5 + ev;
    let a7 = a6 + va;
    let a8 = a7 + fu;
    assert((a2.len() > 0) == s2);
    assert((a3.len() > 0) == s3);
    assert((a4.len() > 0) == s4);
    assert((a5.len() > 0) == s5);
    assert((a6.len() > 0) == s6);
    assert((a7.len() > 0) == s7);
    let x1 = items_docs(c, u, false);
    let x2 = items_docs(c, t, s1);
    let x3 = items_docs(c, e, s2);
    let x4 = items_docs(c, st, s3);
    let x5 = items_docs(c, er, s4);
    let x6 = items_docs(c, ev, s5);
    let x7 = items_docs(c, va, s6);
    let x8 = items_docs(c, fu, s7);
    lemma_items_docs_append(c, u, t, false);
    assert(items_docs(c, a2, false) == x1 + x2);
    lemma_items_docs_append(c, a2, e, false);
    assert(items_docs(c, a3, false) == items_docs(c, a2, false) + x3);
    lemma_items_docs_append(c, a3, st, false);
    assert(items_docs(c, a4, false) == items_docs(c, a3, false) + x4);
    lemma_items_docs_append(c, a4, er, false);
    assert(items_docs(c, a5, false) == items_docs(c, a4, false) + x5);
    lemma_items_docs_append(c, a5, ev, false);
    assert(items_docs(c, a6, false) == items_docs(c, a5, false) + x6);
    lemma_items_docs_append(c, a6, va, false);
    assert(items_docs(c, a7, false) == items_docs(c, a6, false) + x7);
    lemma_items_docs_append(c, a7, fu, false);
    assert(items_docs(c, a8, false) == items_docs(c, a7, false) + x8);
    assert(b0 + x1 + x2 + x3 + x4 + x5 + x6 + x7 + x8 =~= b0 + items_docs(c, a8, false));
    assert(body_items(c) == a8) by {
        assert(body_items(c) =~= a8);
    }
}

/// A contract: its kind, name and bases, then its body indented (or a
/// space when it is empty) and `}`. The body holds, each on a line of its
/// own with a blank line between them: the `using` directives, the types,
/// the enums, the structs (each after the constants its array sizes need,
/// dependencies first), the errors, the events, the other state variables
/// and the functions.
#[verifier::spinoff_prover]
pub fn build_contract_definition(definition: ContractDefinition, contents: ContractContents) -> (r: Vec<
    IRElement,
>)
    requires
        contents_ok(contents),
    ensures
        docs(r@, contract_definition_docs(definition, contents)),
{
    let ghost c = contents;
    let ghost d = definition;
    let mut ir = build_contract_head(definition);
    let ghost h = contract_head_docs(d);
    let has = contents.using_directives.len() > 0 || contents.types.len() > 0 || contents.enums.len() > 0
        || contents.structs.len() > 0 || contents.errors.len() > 0 || contents.events.len() > 0
        || contents.variables.len() > 0 || contents.functions.len() > 0;
    if has {
        let ContractContents { using_directives, types, enums, structs, errors, events, variables, functions } =
            contents;
        let (mut slots, names, const_names, table) = prepare_vars(variables);
        let mut emitted: Vec<Vec<char>> = Vec::new();
        assert(views(emitted@) =~= Seq::<Seq<char>>::empty());
        let mut body: Vec<IRElement> = vec![IRElement::HardLineBreak];
        let ghost b0 = seq![Doc::Hard];
        proof {
            lemma_docs(body@, b0);
        }
        let ghost u = Seq::new(c.using_directives@.len(), |i: int| BodyItem::Using(i));
        let ghost t = Seq::new(c.types@.len(), |i: int| BodyItem::Type(i));
        let ghost e = Seq::new(c.enums@.len(), |i: int| BodyItem::Enum(i));
        let ghost st = struct_items(c, c.structs@.len() as int).0;
        let ghost em = struct_items(c, c.structs@.len() as int).1;
        let ghost er = Seq::new(c.errors@.len(), |i: int| BodyItem::Error(i));
        let ghost ev = Seq::new(c.events@.len(), |i: int| BodyItem::Event(i));
        let ghost va = var_items(c.variables@, em, c.variables@.len() as int);
        let ghost fu = Seq::new(c.functions@.len(), |i: int| BodyItem::Function(i));
        let s0 = false;
        let s1 = using_directives.len() > 0;
        push_usings(&mut body, using_directives, s0, Ghost(c), Ghost(b0));
        let ghost d1 = b0 + items_docs(c, u, s0);
        let s2 = s1 || types.len() > 0;
        push_types(&mut body, types, s1, Ghost(c), Ghost(d1));
        let ghost d2 = d1 + items_docs(c, t, s1);
        let s3 = s2 || enums.len() > 0;
        push_enums(&mut body, enums, s2, Ghost(c), Ghost(d2));
        let ghost d3 = d2 + items_docs(c, e, s2);
        let s4 = s3 || structs.len() > 0;
        push_structs(
            &mut body,
            structs,
            &mut slots,
            &mut emitted,
            &table,
            &const_names,
            &names,
            s3,
            Ghost(c),
            Ghost(d3),
        );
        let ghost d4 = d3 + items_docs(c, st, s3);
        let s5 = s4 || errors.len() > 0;
        push_errors(&mut body, errors, s4, Ghost(c), Ghost(d4));
        let ghost d5 = d4 + items_docs(c, er, s4);
        let s6 = s5 || events.len() > 0;
        push_events(&mut body, events, s5, Ghost(c), Ghost(d5));
        let ghost d6 = d5 + items_docs(c, ev, s5);
        let any = push_vars(&mut body, &mut slots, &emitted, &const_names, &names, s6, Ghost(c), Ghost(d6));
        let s7 = s6 || any;
        let ghost d7 = d6 + items_docs(c, va, s6);
        push_functions(&mut body, &functions, s7, Ghost(c), Ghost(d7));
        let ghost d8 = d7 + items_docs(c, fu, s7);
        proof {
            lemma_body_layout(c, b0, s1, s2, s3, s4, s5, s6, s7);
        }
        let ghost inner = b0 + items_docs(c, body_items(c), false);
        push_doc(&mut ir, IRElement::Indent(body), Ghost(h), Ghost(Doc::Indent(inner)));
        push_hard(&mut ir, Ghost(h.push(Doc::Indent(inner))));
        push_text(&mut ir, "}", Ghost(h.push(Doc::Indent(inner)).push(Doc::Hard)));
        assert(h.push(Doc::Indent(inner)).push(Doc::Hard).push(Doc::Text("}"@)) =~= contract_definition_docs(d, c));
    } else {
        push_text(&mut ir, " ", Ghost(h));
        push_text(&mut ir, "}", Ghost(h.push(Doc::Text(" "@))));
        assert(h.push(Doc::Text(" "@)).push(Doc::Text("}"@)) =~= contract_definition_docs(d, c));
    }
    ir
}

/// What a contract's leading comments hold: the IR of the plain comments,
/// the NatSpec lines, whether there is NatSpec, and the last `/** */`
/// comment with a tag.
pub struct ContractComments {
    pub pre: Seq<Doc>,
    pub lines: Seq<Seq<char>>,
    pub is_natspec: bool,
    pub original: Option<Seq<char>>,
}

/// The inside of a `/** */` comment: trimmed, without `/**` and, if the
/// rest ends with it, `*/` (else the whole trimmed text is kept).
pub open spec fn doc_block_inner(t: Seq<char>) -> Seq<char> {
    let tt = trim(t);
    let a = strip_prefix_or_keep(tt, "/**"@);
    trim(
        if has_suffix(a, "*/"@) {
            a.subrange(0, a.len() - 2)
        } else {
            tt
        },
    )
}

/// A line of a block comment: trimmed and without leading `*`s.
pub open spec fn star_line(l: Seq<char>) -> Seq<char> {
    trim(strip_all_prefix(trim(l), "*"@))
}

/// The lines of a block comment that say something, without leading `*`s.
pub open spec fn star_lines(ls: Seq<Seq<char>>) -> Seq<Seq<char>>
    decreases ls.len(),
{
    if ls.len() == 0 {
        Seq::empty()
    } else {
        let r = star_lines(ls.drop_last());
        if star_line(ls.last()).len() > 0 {
            r.push(star_line(ls.last()))
        } else {
            r
        }
    }
}

/// Reads a contract's leading comments in order.
pub open spec fn contract_comment_scan(cs: Seq<Comment>) -> ContractComments
    decreases cs.len(),
{
    if cs.len() == 0 {
        ContractComments { pre: Seq::empty(), lines: Seq::empty(), is_natspec: false, original: None }
    } else {
        let s = contract_comment_scan(cs.drop_last());
        let c = cs.last();
        match c {
            Comment::DocLine(t) => {
                let tr = trim(strip_all_prefix(t@, "///"@));
                ContractComments { lines: s.lines.push(tr), is_natspec: s.is_natspec || tr.contains('@'), ..s }
            },
            Comment::DocBlock(t) => if t@.contains('@') {
                ContractComments {
                    lines: s.lines + star_lines(lines(doc_block_inner(t@))),
                    is_natspec: true,
                    original: Some(t@),
                    ..s
                }
            } else {
                s
            },
            _ => ContractComments { pre: s.pre + seq![comment_doc(c, false), Doc::Hard], ..s },
        }
    }
}

/// Whether some line is a tag line `@custom:preserve`.
pub open spec fn has_preserve(ls: Seq<Seq<char>>) -> bool {
    exists|i: int|
        0 <= i < ls.len() && (trim(#[trigger] ls[i]) == "@custom:preserve"@ || has_prefix(
            ls[i],
            "@custom:preserve "@,
        ))
}

/// Whether some line starts with `tag`.
pub open spec fn has_line_with(ls: Seq<Seq<char>>, tag: Seq<char>) -> bool {
    exists|i: int| 0 <= i < ls.len() && has_prefix(#[trigger] ls[i], tag)
}

/// Whether the NatSpec lines have everything a contract's NatSpec needs: a
/// benediction, a title, an author, a terry, a date and a description.
pub open spec fn natspec_complete(ls: Seq<Seq<char>>) -> bool {
    &&& has_line_with(ls, "@custom:benediction "@)
    &&& has_line_with(ls, "@title "@)
    &&& has_line_with(ls, "@author "@)
    &&& has_line_with(ls, "@custom:terry "@)
    &&& has_line_with(ls, "@custom:date "@)
    &&& exists|i: int| 0 <= i < ls.len() && #[trigger] ls[i].len() > 0 && !has_prefix(ls[i], "@"@)
}

/// A contract's documentation from its leading comments: the plain
/// comments, then its NatSpec: kept as written when marked
/// `@custom:preserve` (or complete, for a `/** */` block), else rebuilt with
/// the missing tags filled in; NatSpec-free doc comments are kept; with no
/// comments at all, a placeholder NatSpec block.
pub open spec fn contract_doc_docs(cs: Seq<Comment>, name: Seq<char>) -> Seq<Doc> {
    if cs.len() > 0 {
        let s = contract_comment_scan(cs);
        s.pre + if s.is_natspec && s.lines.len() > 0 {
            if has_preserve(s.lines) {
                match s.original {
                    Some(o) => natspec_docs(o).push(Doc::Hard),
                    None => comment_lines_docs(cs),
                }
            } else if natspec_complete(s.lines) && s.original is Some {
                natspec_docs(s.original->0).push(Doc::Hard)
            } else {
                contract_natspec_docs(s.lines, name).push(Doc::Hard)
            }
        } else if s.lines.len() > 0 {
            comment_lines_docs(cs)
        } else {
            Seq::empty()
        }
    } else {
        contract_natspec_docs(Seq::empty(), name).push(Doc::Hard)
    }
}

/// The name used in a contract's NatSpec: its name, `TODO` without one.
pub open spec fn natspec_name(d: ContractDefinition) -> Seq<char> {
    match d.name {
        Some(n) => n@,
        None => "TODO"@,
    }
}

/// A contract: its documentation, its definition, and the comments after
/// it moved onto the lines below.
pub open spec fn contract_ir_docs(c: CollectedContract) -> Seq<Doc> {
    contract_doc_docs(c.definition.leading_comments@, natspec_name(c.definition.element))
        + contract_definition_docs(c.definition.element, c.contents) + moved_comments_docs(
        c.definition.trailing_comments@,
    )
}

/// Trimming keeps every character that is not whitespace.
proof fn lemma_trim_keeps(s: Seq<char>, c: char)
    requires
        !is_ws(c),
        s.contains(c),
    ensures
        trim(s).contains(c),
{
    lemma_trim_start_keeps(s, c);
    lemma_trim_end_keeps(trim_start(s), c);
}

proof fn lemma_trim_start_keeps(s: Seq<char>, c: char)
    requires
        !is_ws(c),
        s.contains(c),
    ensures
        trim_start(s).contains(c),
    decreases s.len(),
{
    if s.len() > 0 && is_ws(s[0]) {
        let i = choose|i: int| 0 <= i < s.len() && s[i] == c;
        let r = s.subrange(1, s.len() as int);
        assert(r[i - 1] == c);
        lemma_trim_start_keeps(r, c);
    }
}

proof fn lemma_trim_end_keeps(s: Seq<char>, c: char)
    requires
        !is_ws(c),
        s.contains(c),
    ensures
        trim_end(s).contains(c),
    decreases s.len(),
{
    if s.len() > 0 && is_ws(s.last()) {
        let i = choose|i: int| 0 <= i < s.len() && s[i] == c;
        assert(s.drop_last()[i] == c);
        lemma_trim_end_keeps(s.drop_last(), c);
    }
}

/// A comment with a tag is not the bare `/**/`.
proof fn lemma_tagged_content_ok(t: Seq<char>)
    requires
        t.contains('@'),
    ensures
        natspec_content_ok(t),
{
    lemma_trim_keeps(t, '@');
    let tt = trim(t);
    reveal_strlit("/**");
    reveal_strlit("*/");
    if has_prefix(tt, "/**"@) && has_suffix(tt, "*/"@) && tt.len() < 5 {
        let open = tt.subrange(0, 3);
        let close = tt.subrange(tt.len() - 2, tt.len() as int);
        assert("/**"@ =~= seq!['/', '*', '*']);
        assert("*/"@ =~= seq!['*', '/']);
        assert(open == "/**"@);
        assert(open[0] == tt[0] && open[1] == tt[1] && open[2] == tt[2]);
        assert(tt[0] == '/' && tt[1] == '*' && tt[2] == '*');
        assert(close == "*/"@);
        assert(close[1] == tt[tt.len() - 1]);
        assert(tt[tt.len() - 1] == '/');
        assert(tt.len() == 4);
        let i = choose|i: int| 0 <= i < tt.len() && tt[i] == '@';
        assert(false);
    }
}

/// Whether `c` is among the characters.
pub(crate) fn has_char(v: &[char], c: char) -> (b: bool)
    ensures
        b == v@.contains(c),
{
    let mut i: usize = 0;
    while i < v.len()
        invariant
            i <= v@.len(),
            forall|k: int| 0 <= k < i ==> v@[k] != c,
        decreases v@.len() - i,
    {
        if v[i] == c {
            assert(v@[i as int] == c);
            return true;
        }
        i = i + 1;
    }
    false
}

/// Appends each comment followed by a line break.
pub(crate) fn push_comment_lines(ir: &mut Vec<IRElement>, cs: &Vec<Comment>, Ghost(ds): Ghost<Seq<Doc>>)
    requires
        docs(old(ir)@, ds),
    ensures
        docs(final(ir)@, ds + comment_lines_docs(cs@)),
{
    let mut i: usize = 0;
    assert(cs@.take(0) =~= Seq::<Comment>::empty());
    assert(ds =~= ds + comment_lines_docs(cs@.take(0)));
    while i < cs.len()
        invariant
            i <= cs@.len(),
            docs(ir@, ds + comment_lines_docs(cs@.take(i as int))),
        decreases cs@.len() - i,
    {
        let ghost pre = ds + comment_lines_docs(cs@.take(i as int));
        assert(cs@.take(i + 1).drop_last() =~= cs@.take(i as int));
        assert(cs@.take(i + 1).last() == cs@[i as int]);
        let ghost cd = comment_doc(cs@[i as int], false);
        let e = build_comment(&cs[i]);
        push_doc(ir, e, Ghost(pre), Ghost(cd));
        push_hard(ir, Ghost(pre.push(cd)));
        assert(pre.push(cd).push(Doc::Hard) =~= ds + comment_lines_docs(cs@.take(i + 1)));
        i = i + 1;
    }
    assert(cs@.take(i as int) =~= cs@);
}

/// The lines of a block comment that say something, without leading `*`s.
fn star_lines_of(inner: &[char]) -> (r: Vec<Vec<char>>)
    ensures
        views(r@) == star_lines(lines(inner@)),
{
    let ls = split_lines(inner);
    let ghost lv = views(ls@);
    let mut r: Vec<Vec<char>> = Vec::new();
    let mut j: usize = 0;
    assert(lv.take(0) =~= Seq::<Seq<char>>::empty());
    assert(views(r@) =~= Seq::<Seq<char>>::empty());
    proof {
        reveal_strlit("*");
    }
    while j < ls.len()
        invariant
            j <= ls@.len(),
            lv == views(ls@),
            views(r@) == star_lines(lv.take(j as int)),
        decreases ls@.len() - j,
    {
        assert(lv.take(j + 1).drop_last() =~= lv.take(j as int));
        assert(lv.take(j + 1).last() == ls@[j as int]@);
        let t = trim_chars(ls[j].as_slice());
        let u = strip_all_prefix_chars(t.as_slice(), chars_of("*").as_slice());
        let l = trim_chars(u.as_slice());
        if l.len() > 0 {
            let ghost before = views(r@);
            let ghost lvv = l@;
            r.push(l);
            assert(views(r@) =~= before.push(lvv));
        }
        j = j + 1;
    }
    assert(lv.take(j as int) =~= lv);
    r
}

/// The inside of a `/** */` comment.
fn doc_block_inner_chars(t: &String) -> (r: Vec<char>)
    ensures
        r@ == doc_block_inner(t@),
{
    proof {
        reveal_strlit("/**");
        reveal_strlit("*/");
    }
    let tt = trim_chars(chars_of(t.as_str()).as_slice());
    let a = strip_prefix_chars(tt.as_slice(), chars_of("/**").as_slice());
    if ends_with(a.as_slice(), chars_of("*/").as_slice()) {
        let b = slice_chars(a.as_slice(), 0, a.len() - 2);
        trim_chars(b.as_slice())
    } else {
        trim_chars(tt.as_slice())
    }
}

/// Reads a contract's leading comments: lays out the plain ones, and gives
/// the NatSpec lines, whether there is NatSpec, and the index of the last
/// `/** */` comment with a tag.
#[verifier::spinoff_prover]
fn scan_contract_comments(cs: &Vec<Comment>, ir: &mut Vec<IRElement>, Ghost(ds): Ghost<Seq<Doc>>) -> (r: (
    Vec<Vec<char>>,
    bool,
    Option<usize>,
))
    requires
        docs(old(ir)@, ds),
    ensures
        ({
            let s = contract_comment_scan(cs@);
            &&& docs(final(ir)@, ds + s.pre)
            &&& views(r.0@) == s.lines
            &&& r.1 == s.is_natspec
            &&& match r.2 {
                Some(i) => i < cs@.len() && s.original == Some(comment_text(cs@[i as int])) && comment_text(
                    cs@[i as int],
                ).contains('@'),
                None => s.original is None,
            }
        }),
{
    let mut lines: Vec<Vec<char>> = Vec::new();
    let mut is_natspec = false;
    let mut original: Option<usize> = None;
    let mut i: usize = 0;
    assert(cs@.take(0) =~= Seq::<Comment>::empty());
    assert(ds =~= ds + contract_comment_scan(cs@.take(0)).pre);
    assert(views(lines@) =~= Seq::<Seq<char>>::empty());
    while i < cs.len()
        invariant
            i <= cs@.len(),
            ({
                let s = contract_comment_scan(cs@.take(i as int));
                &&& docs(ir@, ds + s.pre)
                &&& views(lines@) == s.lines
                &&& is_natspec == s.is_natspec
                &&& match original {
                    Some(k) => k < i && s.original == Some(comment_text(cs@[k as int])) && comment_text(
                        cs@[k as int],
                    ).contains('@'),
                    None => s.original is None,
                }
            }),
        decreases cs@.len() - i,
    {
        let ghost s0 = contract_comment_scan(cs@.take(i as int));
        assert(cs@.take(i + 1).drop_last() =~= cs@.take(i as int));
        assert(cs@.take(i + 1).last() == cs@[i as int]);
        proof {
            reveal_strlit("///");
        }
        match &cs[i] {
            Comment::DocLine(t) => {
                let a = strip_all_prefix_chars(chars_of(t.as_str()).as_slice(), chars_of("///").as_slice());
                let tr = trim_chars(a.as_slice());
                if has_char(tr.as_slice(), '@') {
                    is_natspec = true;
                }
                let ghost before = views(lines@);
                let ghost trv = tr@;
                lines.push(tr);
                assert(views(lines@) =~= before.push(trv));
            },
            Comment::DocBlock(t) => {
                let tv = chars_of(t.as_str());
                if has_char(tv.as_slice(), '@') {
                    is_natspec = true;
                    original = Some(i);
                    let inner = doc_block_inner_chars(t);
                    let more = star_lines_of(inner.as_slice());
                    let ghost before = views(lines@);
                    let mut m = more;
                    let ghost mv = views(m@);
                    lines.append(&mut m);
                    assert(views(lines@) =~= before + mv);
                }
            },
            _ => {
                let ghost cd = comment_doc(cs@[i as int], false);
                let e = build_comment(&cs[i]);
                push_doc(ir, e, Ghost(ds + s0.pre), Ghost(cd));
                push_hard(ir, Ghost((ds + s0.pre).push(cd)));
                assert((ds + s0.pre).push(cd).push(Doc::Hard) =~= ds + (s0.pre + seq![cd, Doc::Hard]));
            },
        }
        i = i + 1;
    }
    assert(cs@.take(i as int) =~= cs@);
    (lines, is_natspec, original)
}

/// Whether some line is a tag line `@custom:preserve`.
fn has_preserve_line(ls: &Vec<Vec<char>>) -> (b: bool)
    ensures
        b == has_preserve(views(ls@)),
{
    proof {
        reveal_strlit("@custom:preserve");
        reveal_strlit("@custom:preserve ");
    }
    let mut i: usize = 0;
    while i < ls.len()
        invariant
            i <= ls@.len(),
            forall|k: int|
                0 <= k < i ==> !(trim(#[trigger] views(ls@)[k]) == "@custom:preserve"@ || has_prefix(
                    views(ls@)[k],
                    "@custom:preserve "@,
                )),
        decreases ls@.len() - i,
    {
        let t = trim_chars(ls[i].as_slice());
        assert(views(ls@)[i as int] == ls@[i as int]@);
        if chars_equal(t.as_slice(), chars_of("@custom:preserve").as_slice()) || starts_with(
            ls[i].as_slice(),
            chars_of("@custom:preserve ").as_slice(),
        ) {
            return true;
        }
        i = i + 1;
    }
    false
}

/// Whether some line starts with `tag`.
fn has_line_starting(ls: &Vec<Vec<char>>, tag: &[char]) -> (b: bool)
    ensures
        b == has_line_with(views(ls@), tag@),
{
    let mut i: usize = 0;
    while i < ls.len()
        invariant
            i <= ls@.len(),
            forall|k: int| 0 <= k < i ==> !has_prefix(#[trigger] views(ls@)[k], tag@),
        decreases ls@.len() - i,
    {
        assert(views(ls@)[i as int] == ls@[i as int]@);
        if starts_with(ls[i].as_slice(), tag) {
            return true;
        }
        i = i + 1;
    }
    false
}

/// Whether the NatSpec lines are complete.
fn natspec_is_complete(ls: &Vec<Vec<char>>) -> (b: bool)
    ensures
        b == natspec_complete(views(ls@)),
{
    let mut described = false;
    let mut i: usize = 0;
    proof {
        reveal_strlit("@");
    }
    while i < ls.len()
        invariant
            i <= ls@.len(),
            described == exists|k: int| 0 <= k < i && #[trigger] views(ls@)[k].len() > 0 && !has_prefix(
                views(ls@)[k],
                "@"@,
            ),
        decreases ls@.len() - i,
    {
        assert(views(ls@)[i as int] == ls@[i as int]@);
        if ls[i].len() > 0 && !starts_with(ls[i].as_slice(), chars_of("@").as_slice()) {
            described = true;
        }
        i = i + 1;
    }
    has_line_starting(ls, chars_of("@custom:benediction ").as_slice()) && has_line_starting(
        ls,
        chars_of("@title ").as_slice(),
    ) && has_line_starting(ls, chars_of("@author ").as_slice()) && has_line_starting(
        ls,
        chars_of("@custom:terry ").as_slice(),
    ) && has_line_starting(ls, chars_of("@custom:date ").as_slice()) && described
}

/// The lines as strings.
pub(crate) fn line_strings(ls: &Vec<Vec<char>>) -> (r: Vec<String>)
    ensures
        str_views(r@) == views(ls@),
{
    let mut out: Vec<String> = Vec::new();
    let mut j: usize = 0;
    while j < ls.len()
        invariant
            j <= ls@.len(),
            str_views(out@) == views(ls@).take(j as int),
        decreases ls@.len() - j,
    {
        let ghost before = str_views(out@);
        let x = string_from(ls[j].as_slice());
        let ghost xv = x@;
        out.push(x);
        assert(str_views(out@) =~= before.push(xv));
        assert(views(ls@).take(j + 1) =~= views(ls@).take(j as int).push(xv));
        j = j + 1;
    }
    assert(views(ls@).take(j as int) =~= views(ls@));
    out
}

/// The documentation of a contract from its leading comments.
#[verifier::spinoff_prover]
fn build_contract_docs(cs: &Vec<Comment>, name: &str) -> (r: Vec<IRElement>)
    ensures
        docs(r@, contract_doc_docs(cs@, name@)),
{
    let mut ir: Vec<IRElement> = Vec::new();
    let ghost e = Seq::<Doc>::empty();
    assert(docs(ir@, e));
    if cs.len() > 0 {
        let (lines, is_natspec, original) = scan_contract_comments(cs, &mut ir, Ghost(e));
        let ghost s = contract_comment_scan(cs@);
        let ghost p = e + s.pre;
        assert(p =~= s.pre);
        if is_natspec && lines.len() > 0 {
            if has_preserve_line(&lines) {
                match original {
                    Some(i) => {
                        let t = cs[i].text();
                        proof {
                            lemma_tagged_content_ok(t@);
                        }
                        let block = build_natspec_comment_ir(t.as_str());
                        push_block(&mut ir, block, Ghost(p), Ghost(natspec_docs(t@)));
                        push_hard(&mut ir, Ghost(p + natspec_docs(t@)));
                        assert((p + natspec_docs(t@)).push(Doc::Hard) =~= s.pre + natspec_docs(t@).push(Doc::Hard));
                    },
                    None => {
                        push_comment_lines(&mut ir, cs, Ghost(p));
                    },
                }
            } else if natspec_is_complete(&lines) && original.is_some() {
                let i = original.unwrap();
                let t = cs[i].text();
                proof {
                    lemma_tagged_content_ok(t@);
                }
                let block = build_natspec_comment_ir(t.as_str());
                push_block(&mut ir, block, Ghost(p), Ghost(natspec_docs(t@)));
                push_hard(&mut ir, Ghost(p + natspec_docs(t@)));
                assert((p + natspec_docs(t@)).push(Doc::Hard) =~= s.pre + natspec_docs(t@).push(Doc::Hard));
            } else {
                let strs = line_strings(&lines);
                let block = build_contract_natspec_ir(strs.as_slice(), name);
                push_block(&mut ir, block, Ghost(p), Ghost(contract_natspec_docs(s.lines, name@)));
                push_hard(&mut ir, Ghost(p + contract_natspec_docs(s.lines, name@)));
                assert((p + contract_natspec_docs(s.lines, name@)).push(Doc::Hard) =~= s.pre
                    + contract_natspec_docs(s.lines, name@).push(Doc::Hard));
            }
        } else if lines.len() > 0 {
            push_comment_lines(&mut ir, cs, Ghost(p));
        } else {
            assert(p =~= s.pre + Seq::<Doc>::empty());
        }
    } else {
        let block = generate_contract_natspec(name);
        push_block(&mut ir, block, Ghost(e), Ghost(contract_natspec_docs(Seq::empty(), name@)));
        push_hard(&mut ir, Ghost(e + contract_natspec_docs(Seq::empty(), name@)));
        assert((e + contract_natspec_docs(Seq::empty(), name@)).push(Doc::Hard) =~= contract_natspec_docs(
            Seq::empty(),
            name@,
        ).push(Doc::Hard));
    }
    ir
}

/// A contract: its documentation (its NatSpec kept when marked
/// `@custom:preserve` or complete, else rebuilt with the missing tags, or a
/// placeholder when it has no comments), its definition, and the comments
/// after it moved onto the lines below.
#[verifier::spinoff_prover]
pub fn build_contract_ir(contract: CollectedContract) -> (r: Vec<IRElement>)
    requires
        contents_ok(contract.contents),
    ensures
        docs(r@, contract_ir_docs(contract)),
{
    let ghost c = contract;
    let CollectedContract { definition, contents } = contract;
    let CommentedElement { element: def, leading_comments, trailing_comments } = definition;
    proof {
        reveal_strlit("TODO");
    }
    let name = match &def.name {
        Some(n) => n.clone(),
        None => string_from(chars_of("TODO").as_slice()),
    };
    assert(name@ == natspec_name(c.definition.element));
    let mut ir = build_contract_docs(&leading_comments, name.as_str());
    let ghost d0 = contract_doc_docs(c.definition.leading_comments@, natspec_name(c.definition.element));
    let ghost dd = contract_definition_docs(c.definition.element, c.contents);
    let def_ir = build_contract_definition(def, contents);
    push_block(&mut ir, def_ir, Ghost(d0), Ghost(dd));
    push_moved_comments(&mut ir, &trailing_comments, Ghost(d0 + dd));
    ir
}

} // verus!
