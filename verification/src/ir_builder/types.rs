//! NatSpec blocks for enums, and the name-to-description table that the
//! NatSpec of enums and events is gathered into.
use vstd::prelude::*;
use crate::ir_builder::functions::{find_ws, lemma_ws_index, ws_index};
use crate::ir_builder::expressions::pair_views;
use crate::ir_builder::ir::{doc_match, doc_of, docs, lemma_doc_of, lemma_docs, Doc, IRElement};
use crate::ir_builder::variables::{
    after, strip_all_prefix, strip_all_prefix_chars, strip_all_suffix, strip_all_suffix_chars,
};
use crate::ir_builder::{
    lemma_docs_append, lemma_docs_drop_last, lemma_docs_push, push_hard, text_with_word_breaks, word_break_docs,
};
use crate::model::{comment_text, CollectedEnum, CollectedError, CollectedStruct, Comment, CommentedElement, Parameter, StructMember};
use crate::ir_builder::comments::{build_comment, comment_doc};
use crate::text::{
    chars_equal, chars_of, char_utf8_len, ends_with, find_char, first_index, has_prefix, has_suffix, is_whitespace,
    is_ws, join, join_chars, lemma_first_index, str_views, strip_prefix_chars, strip_prefix_or_keep,
    strip_suffix_chars, strip_suffix_or_keep, lines, push_all, slice_chars, split_lines, starts_with, string_from,
    trim, trim_chars, views, words,
};

verus! {

/// The index of the first entry for key `k`, if any.
pub open spec fn assoc_index(s: Seq<(Seq<char>, Seq<char>)>, k: Seq<char>) -> Option<int>
    decreases s.len(),
{
    if s.len() == 0 {
        None
    } else {
        match assoc_index(s.drop_last(), k) {
            Some(i) => Some(i),
            None => if s.last().0 == k {
                Some(s.len() - 1)
            } else {
                None
            },
        }
    }
}

/// The table with `k` mapped to `v`: its entry replaced, or a new entry.
pub open spec fn assoc_insert(s: Seq<(Seq<char>, Seq<char>)>, k: Seq<char>, v: Seq<char>) -> Seq<
    (Seq<char>, Seq<char>),
> {
    match assoc_index(s, k) {
        Some(i) => s.update(i, (k, v)),
        None => s.push((k, v)),
    }
}

/// The description of `k`, if the table has one.
pub open spec fn assoc_get(s: Seq<(Seq<char>, Seq<char>)>, k: Seq<char>) -> Option<Seq<char>> {
    match assoc_index(s, k) {
        Some(i) => Some(s[i].1),
        None => None,
    }
}

/// The table with ` t` appended to the description of `k`, if it has one.
pub open spec fn assoc_append(s: Seq<(Seq<char>, Seq<char>)>, k: Seq<char>, t: Seq<char>) -> Seq<
    (Seq<char>, Seq<char>),
> {
    match assoc_index(s, k) {
        Some(i) => s.update(i, (k, s[i].1 + seq![' '] + t)),
        None => s,
    }
}

/// The views of a table's entries.
pub open spec fn table_views(v: Seq<(Vec<char>, Vec<char>)>) -> Seq<(Seq<char>, Seq<char>)> {
    v.map_values(|p: (Vec<char>, Vec<char>)| (p.0@, p.1@))
}

proof fn lemma_assoc_index(s: Seq<(Seq<char>, Seq<char>)>, k: Seq<char>)
    ensures
        match assoc_index(s, k) {
            Some(i) => 0 <= i < s.len() && s[i].0 == k && forall|j: int| 0 <= j < i ==> s[j].0 != k,
            None => forall|j: int| 0 <= j < s.len() ==> s[j].0 != k,
        },
    decreases s.len(),
{
    if s.len() > 0 {
        let p = s.drop_last();
        lemma_assoc_index(p, k);
        match assoc_index(p, k) {
            Some(i) => {
                assert forall|j: int| 0 <= j < i implies s[j].0 != k by {
                    assert(s[j] == p[j]);
                }
                assert(s[i] == p[i]);
            },
            None => {
                assert forall|j: int| 0 <= j < s.len() - 1 implies s[j].0 != k by {
                    assert(s[j] == p[j]);
                }
            },
        }
    }
}

/// The index of the entry for `k`, if any.
pub(crate) fn table_find(t: &Vec<(Vec<char>, Vec<char>)>, k: &[char]) -> (r: Option<usize>)
    ensures
        r == (match assoc_index(table_views(t@), k@) {
            Some(i) => Some(i as usize),
            None => None::<usize>,
        }),
        r matches Some(i) ==> i < t@.len() && assoc_index(table_views(t@), k@) == Some(i as int),
        r is None ==> assoc_index(table_views(t@), k@) is None,
{
    proof {
        lemma_assoc_index(table_views(t@), k@);
    }
    let mut i: usize = 0;
    while i < t.len()
        invariant
            i <= t@.len(),
            forall|j: int| 0 <= j < i ==> table_views(t@)[j].0 != k@,
        decreases t@.len() - i,
    {
        assert(table_views(t@)[i as int] == (t@[i as int].0@, t@[i as int].1@));
        if chars_equal(t[i].0.as_slice(), k) {
            proof {
                lemma_assoc_index(table_views(t@), k@);
                match assoc_index(table_views(t@), k@) {
                    Some(m) => {
                        assert(m == i);
                    },
                    None => {},
                }
            }
            return Some(i);
        }
        i = i + 1;
    }
    proof {
        lemma_assoc_index(table_views(t@), k@);
        match assoc_index(table_views(t@), k@) {
            Some(m) => {
                assert(table_views(t@)[m].0 != k@);
            },
            None => {},
        }
    }
    None
}

/// Maps `k` to `v`.
pub(crate) fn table_insert(t: &mut Vec<(Vec<char>, Vec<char>)>, k: Vec<char>, v: Vec<char>)
    ensures
        table_views(final(t)@) == assoc_insert(table_views(old(t)@), k@, v@),
{
    let ghost before = table_views(t@);
    let ghost kv = (k@, v@);
    match table_find(t, k.as_slice()) {
        Some(i) => {
            t.set(i, (k, v));
            assert(table_views(t@) =~= before.update(i as int, kv));
        },
        None => {
            t.push((k, v));
            assert(table_views(t@) =~= before.push(kv));
        },
    }
}

/// Appends ` x` to the description of `k`, if there is one.
pub(crate) fn table_append(t: &mut Vec<(Vec<char>, Vec<char>)>, k: &[char], x: &[char])
    ensures
        table_views(final(t)@) == assoc_append(table_views(old(t)@), k@, x@),
{
    let ghost before = table_views(t@);
    proof {
        lemma_assoc_index(before, k@);
    }
    match table_find(t, k) {
        Some(i) => {
            assert(before[i as int] == (t@[i as int].0@, t@[i as int].1@));
            let mut v = slice_chars(t[i].1.as_slice(), 0, t[i].1.len());
            let key = slice_chars(t[i].0.as_slice(), 0, t[i].0.len());
            v.push(' ');
            push_all(&mut v, x);
            let ghost nv = (k@, before[i as int].1 + seq![' '] + x@);
            assert(v@ =~= nv.1);
            assert(key@ =~= k@);
            t.set(i, (key, v));
            assert(table_views(t@) =~= before.update(i as int, nv));
        },
        None => {},
    }
}

/// The description of `k`, if there is one.
pub(crate) fn table_get(t: &Vec<(Vec<char>, Vec<char>)>, k: &[char]) -> (r: Option<Vec<char>>)
    ensures
        (match r {
            Some(v) => Some(v@),
            None => None::<Seq<char>>,
        }) == assoc_get(table_views(t@), k@),
{
    match table_find(t, k) {
        Some(i) => {
            assert(table_views(t@)[i as int] == (t@[i as int].0@, t@[i as int].1@));
            let v = slice_chars(t[i].1.as_slice(), 0, t[i].1.len());
            assert(v@ =~= t@[i as int].1@);
            Some(v)
        },
        None => None,
    }
}

/// What an enum's comments provide.
pub struct EnumDocs {
    /// Description texts.
    pub desc: Seq<Seq<char>>,
    /// The description of each documented value.
    pub table: Seq<(Seq<char>, Seq<char>)>,
    /// The value whose description a plain line continues.
    pub current: Option<Seq<char>>,
}

/// The text of a comment without its markers.
pub open spec fn enum_comment_text(c: Comment) -> Seq<char> {
    match c {
        Comment::DocLine(t) => trim(strip_all_prefix(t@, "///"@)),
        Comment::DocBlock(t) => trim(strip_all_suffix(strip_all_prefix(trim(t@), "/**"@), "*/"@)),
        Comment::Line(t) => trim(strip_all_prefix(t@, "//"@)),
        Comment::Block(t) => trim(strip_all_suffix(strip_all_prefix(trim(t@), "/*"@), "*/"@)),
    }
}

/// The name of a `@param` tag's text and its description: split at the
/// first whitespace.
pub open spec fn name_and_desc(rest: Seq<char>) -> (Seq<char>, Seq<char>) {
    match ws_index(rest) {
        Some(k) => (rest.subrange(0, k), trim(rest.subrange(k + 1, rest.len() as int))),
        None => (rest, Seq::empty()),
    }
}

/// The enum's documentation after one more line.
pub open spec fn enum_line(s: EnumDocs, line: Seq<char>) -> EnumDocs {
    let t = trim(line);
    if has_prefix(t, "@dev "@) {
        EnumDocs { desc: s.desc.push(trim(after(t, 5))), current: None, ..s }
    } else if has_prefix(t, "@notice "@) {
        EnumDocs { desc: s.desc.push(trim(after(t, 8))), current: None, ..s }
    } else if has_prefix(t, "@param "@) {
        let (name, d) = name_and_desc(after(t, 7));
        EnumDocs { table: assoc_insert(s.table, name, d), current: Some(name), ..s }
    } else if t.len() > 0 && !has_prefix(t, "@"@) {
        match s.current {
            Some(p) => EnumDocs { table: assoc_append(s.table, p, t), ..s },
            None => EnumDocs { desc: s.desc.push(t), ..s },
        }
    } else if has_prefix(t, "@"@) {
        EnumDocs { current: None, ..s }
    } else {
        s
    }
}

/// The documentation after more lines.
pub open spec fn enum_lines(s: EnumDocs, ls: Seq<Seq<char>>) -> EnumDocs
    decreases ls.len(),
{
    if ls.len() == 0 {
        s
    } else {
        enum_line(enum_lines(s, ls.drop_last()), ls.last())
    }
}

/// The documentation that the comments provide, line by line.
pub open spec fn enum_scan(cs: Seq<Comment>) -> EnumDocs
    decreases cs.len(),
{
    if cs.len() == 0 {
        EnumDocs { desc: Seq::empty(), table: Seq::empty(), current: None }
    } else {
        enum_lines(enum_scan(cs.drop_last()), lines(enum_comment_text(cs.last())))
    }
}

/// `@param name description` for each named value (`TODO` where it has no
/// description), each followed by a line break.
pub open spec fn value_docs(values: Seq<Option<String>>, table: Seq<(Seq<char>, Seq<char>)>) -> Seq<
    Doc,
>
    decreases values.len(),
{
    if values.len() == 0 {
        Seq::empty()
    } else {
        value_docs(values.drop_last(), table) + match values.last() {
            Some(n) => seq![
                Doc::Text(
                    "@param "@ + n@ + seq![' '] + match assoc_get(table, n@) {
                        Some(d) => if d.len() > 0 {
                            d
                        } else {
                            "TODO"@
                        },
                        None => "TODO"@,
                    },
                ),
                Doc::Hard,
            ],
            None => Seq::empty(),
        }
    }
}

/// The value lines after a blank line, the last line break removed.
pub open spec fn values_section(values: Seq<Option<String>>, table: Seq<(Seq<char>, Seq<char>)>) -> Seq<
    Doc,
> {
    if values.len() > 0 {
        (seq![Doc::Hard, Doc::Hard] + value_docs(values, table)).drop_last()
    } else {
        Seq::empty()
    }
}

/// The NatSpec block of an enum with values `values` (`None` for an unnamed
/// one) from its comments: the description (`TODO` when none), then each
/// value with its documented description or `TODO`.
pub open spec fn enum_natspec_docs(cs: Seq<Comment>, values: Seq<Option<String>>) -> Seq<Doc> {
    let s = enum_scan(cs);
    let description = if s.desc.len() == 0 {
        "TODO"@
    } else {
        join(s.desc, " "@)
    };
    seq![
        Doc::Text("/**"@),
        Doc::Indent(
            seq![Doc::Hard, Doc::Group(word_break_docs(words(description)))] + values_section(
                values,
                s.table,
            ),
        ),
        Doc::Hard,
        Doc::Text("*/"@),
    ]
}

/// The placeholder NatSpec block of an undocumented enum or event: `TODO`,
/// then `@param name TODO` for each named value or parameter.
pub open spec fn todo_natspec_docs(values: Seq<Option<String>>) -> Seq<Doc> {
    seq![
        Doc::Text("/**"@),
        Doc::Indent(seq![Doc::Hard, Doc::Text("TODO"@)] + values_section(values, Seq::empty())),
        Doc::Hard,
        Doc::Text("*/"@),
    ]
}

/// The gathered documentation, held as character vectors.
struct EnumState {
    desc: Vec<Vec<char>>,
    table: Vec<(Vec<char>, Vec<char>)>,
    current: Option<Vec<char>>,
}

impl EnumState {
    spec fn parts(&self) -> EnumDocs {
        EnumDocs {
            desc: views(self.desc@),
            table: table_views(self.table@),
            current: match self.current {
                Some(c) => Some(c@),
                None => None,
            },
        }
    }
}

/// Pushes a character vector, extending the views.
fn push_view(v: &mut Vec<Vec<char>>, x: Vec<char>)
    ensures
        views(final(v)@) == views(old(v)@).push(x@),
{
    let ghost before = views(v@);
    let ghost xv = x@;
    v.push(x);
    assert(views(v@) =~= before.push(xv));
}

/// The text of a comment without its markers.
fn enum_comment_text_chars(c: &Comment) -> (r: Vec<char>)
    ensures
        r@ == enum_comment_text(*c),
{
    match c {
        Comment::DocLine(t) => {
            let a = strip_all_prefix_chars(chars_of(t.as_str()).as_slice(), chars_of("///").as_slice());
            trim_chars(a.as_slice())
        },
        Comment::DocBlock(t) => {
            let tt = trim_chars(chars_of(t.as_str()).as_slice());
            let a = strip_all_prefix_chars(tt.as_slice(), chars_of("/**").as_slice());
            let b = strip_all_suffix_chars(a.as_slice(), chars_of("*/").as_slice());
            trim_chars(b.as_slice())
        },
        Comment::Line(t) => {
            let a = strip_all_prefix_chars(chars_of(t.as_str()).as_slice(), chars_of("//").as_slice());
            trim_chars(a.as_slice())
        },
        Comment::Block(t) => {
            let tt = trim_chars(chars_of(t.as_str()).as_slice());
            let a = strip_all_prefix_chars(tt.as_slice(), chars_of("/*").as_slice());
            let b = strip_all_suffix_chars(a.as_slice(), chars_of("*/").as_slice());
            trim_chars(b.as_slice())
        },
    }
}

/// A `@param` tag's name and description.
fn name_and_desc_chars(rest: &[char]) -> (r: (Vec<char>, Vec<char>))
    ensures
        (r.0@, r.1@) == name_and_desc(rest@),
{
    let n = rest.len();
    proof {
        lemma_ws_index(rest@);
    }
    match find_ws(rest) {
        Some(k) => {
            let name = slice_chars(rest, 0, k);
            let d = slice_chars(rest, k + 1, n);
            (name, trim_chars(d.as_slice()))
        },
        None => {
            let name = slice_chars(rest, 0, n);
            assert(name@ =~= rest@);
            (name, Vec::new())
        },
    }
}

/// Takes one more line of an enum's comments.
#[verifier::spinoff_prover]
fn enum_step(st: &mut EnumState, line: &[char])
    ensures
        final(st).parts() == enum_line(old(st).parts(), line@),
{
    let t = trim_chars(line);
    let ghost s0 = st.parts();
    let ghost tv = trim(line@);
    proof {
        reveal_strlit("@dev ");
        reveal_strlit("@notice ");
        reveal_strlit("@param ");
    }
    let n = t.len();
    let at = chars_of("@");
    if starts_with(t.as_slice(), chars_of("@dev ").as_slice()) {
        let rest = slice_chars(t.as_slice(), 5, n);
        push_view(&mut st.desc, trim_chars(rest.as_slice()));
        st.current = None;
    } else if starts_with(t.as_slice(), chars_of("@notice ").as_slice()) {
        let rest = slice_chars(t.as_slice(), 8, n);
        push_view(&mut st.desc, trim_chars(rest.as_slice()));
        st.current = None;
    } else if starts_with(t.as_slice(), chars_of("@param ").as_slice()) {
        let rest = slice_chars(t.as_slice(), 7, n);
        let (name, d) = name_and_desc_chars(rest.as_slice());
        let key = slice_chars(name.as_slice(), 0, name.len());
        assert(key@ =~= name@);
        table_insert(&mut st.table, key, d);
        st.current = Some(name);
    } else if n > 0 && !starts_with(t.as_slice(), at.as_slice()) {
        match &st.current {
            Some(p) => {
                let key = slice_chars(p.as_slice(), 0, p.len());
                assert(key@ =~= p@);
                table_append(&mut st.table, key.as_slice(), t.as_slice());
            },
            None => {
                push_view(&mut st.desc, t);
            },
        }
    } else if starts_with(t.as_slice(), at.as_slice()) {
        st.current = None;
    }
}

/// Takes the lines of one more comment.
fn enum_comment(st: &mut EnumState, c: &Comment)
    ensures
        final(st).parts() == enum_lines(old(st).parts(), lines(enum_comment_text(*c))),
{
    let text = enum_comment_text_chars(c);
    let ls = crate::text::split_lines(text.as_slice());
    let ghost lv = views(ls@);
    let ghost s0 = st.parts();
    let mut j: usize = 0;
    assert(lv.take(0) =~= Seq::<Seq<char>>::empty());
    while j < ls.len()
        invariant
            j <= ls@.len(),
            lv == views(ls@),
            st.parts() == enum_lines(s0, lv.take(j as int)),
        decreases ls@.len() - j,
    {
        assert(lv.take(j + 1).drop_last() =~= lv.take(j as int));
        assert(lv.take(j + 1).last() == ls@[j as int]@);
        enum_step(st, ls[j].as_slice());
        j = j + 1;
    }
    assert(lv.take(j as int) =~= lv);
}

/// Appends each named value's line followed by a line break.
fn push_value_lines(
    ir: &mut Vec<IRElement>,
    values: &[Option<String>],
    table: &Vec<(Vec<char>, Vec<char>)>,
    Ghost(ds): Ghost<Seq<Doc>>,
)
    requires
        docs(old(ir)@, ds),
    ensures
        docs(final(ir)@, ds + value_docs(values@, table_views(table@))),
{
    let ghost tb = table_views(table@);
    let mut i: usize = 0;
    proof {
        reveal_strlit("@param ");
    }
    assert(values@.take(0) =~= Seq::<Option<String>>::empty());
    assert(ds =~= ds + value_docs(values@.take(0), tb));
    while i < values.len()
        invariant
            i <= values@.len(),
            tb == table_views(table@),
            docs(ir@, ds + value_docs(values@.take(i as int), tb)),
        decreases values@.len() - i,
    {
        let ghost pre = ds + value_docs(values@.take(i as int), tb);
        assert(values@.take(i + 1).drop_last() =~= values@.take(i as int));
        assert(values@.take(i + 1).last() == values@[i as int]);
        match &values[i] {
            Some(name) => {
                let nc = chars_of(name.as_str());
                let mut line = chars_of("@param ");
                push_all(&mut line, nc.as_slice());
                line.push(' ');
                let d = match table_get(table, nc.as_slice()) {
                    Some(v) => if v.len() > 0 {
                        v
                    } else {
                        chars_of("TODO")
                    },
                    None => chars_of("TODO"),
                };
                push_all(&mut line, d.as_slice());
                let ghost expected = "@param "@ + name@ + seq![' '] + match assoc_get(tb, name@) {
                    Some(dd) => if dd.len() > 0 {
                        dd
                    } else {
                        "TODO"@
                    },
                    None => "TODO"@,
                };
                assert(d@ == match assoc_get(tb, name@) {
                    Some(dd) => if dd.len() > 0 {
                        dd
                    } else {
                        "TODO"@
                    },
                    None => "TODO"@,
                });
                assert(line@ =~= expected);
                let ghost lv = line@;
                let e = IRElement::Text(string_from(line.as_slice()));
                proof {
                    lemma_docs_push(ir@, pre, e, Doc::Text(lv));
                }
                ir.push(e);
                proof {
                    lemma_docs_push(ir@, pre.push(Doc::Text(lv)), IRElement::HardLineBreak, Doc::Hard);
                }
                ir.push(IRElement::HardLineBreak);
                assert(pre.push(Doc::Text(lv)).push(Doc::Hard) =~= ds + value_docs(
                    values@.take(i + 1),
                    tb,
                ));
            },
            None => {
                assert(pre =~= ds + value_docs(values@.take(i + 1), tb));
            },
        }
        i = i + 1;
    }
    assert(values@.take(i as int) =~= values@);
}

/// The body of an enum's NatSpec block after its description.
fn enum_body(head: IRElement, values: &[Option<String>], table: &Vec<(Vec<char>, Vec<char>)>, Ghost(
    hd,
): Ghost<Doc>) -> (r: Vec<IRElement>)
    requires
        doc_match(head, hd),
    ensures
        docs(r@, seq![Doc::Hard, hd] + values_section(values@, table_views(table@))),
{
    let mut c: Vec<IRElement> = vec![IRElement::HardLineBreak, head];
    proof {
        lemma_docs(c@, seq![Doc::Hard, hd]);
    }
    let ghost d0 = seq![Doc::Hard, hd];
    if values.len() > 0 {
        proof {
            lemma_docs_push(c@, d0, IRElement::HardLineBreak, Doc::Hard);
        }
        c.push(IRElement::HardLineBreak);
        proof {
            lemma_docs_push(c@, d0.push(Doc::Hard), IRElement::HardLineBreak, Doc::Hard);
        }
        c.push(IRElement::HardLineBreak);
        let ghost d1 = d0.push(Doc::Hard).push(Doc::Hard);
        push_value_lines(&mut c, values, table, Ghost(d1));
        let ghost full = d1 + value_docs(values@, table_views(table@));
        proof {
            lemma_docs_drop_last(c@, full);
        }
        c.pop();
        assert(full.drop_last() =~= seq![Doc::Hard, hd] + values_section(
            values@,
            table_views(table@),
        ));
    } else {
        assert(d0 =~= seq![Doc::Hard, hd] + values_section(values@, table_views(table@)));
    }
    c
}

/// The NatSpec block of an enum from its comments: the description (or
/// `TODO`), then `@param` for each named value with its documented
/// description, or `TODO` where it has none.
pub fn build_enum_natspec_from_comments(comments: &[Comment], values: &[Option<String>]) -> (r: Vec<
    IRElement,
>)
    ensures
        docs(r@, enum_natspec_docs(comments@, values@)),
{
    let mut st = EnumState { desc: Vec::new(), table: Vec::new(), current: None };
    assert(st.parts() == enum_scan(comments@.take(0))) by {
        assert(comments@.take(0) =~= Seq::<Comment>::empty());
        assert(views(st.desc@) =~= Seq::<Seq<char>>::empty());
        assert(table_views(st.table@) =~= Seq::<(Seq<char>, Seq<char>)>::empty());
    }
    let mut i: usize = 0;
    while i < comments.len()
        invariant
            i <= comments@.len(),
            st.parts() == enum_scan(comments@.take(i as int)),
        decreases comments@.len() - i,
    {
        assert(comments@.take(i + 1).drop_last() =~= comments@.take(i as int));
        assert(comments@.take(i + 1).last() == comments@[i as int]);
        enum_comment(&mut st, &comments[i]);
        i = i + 1;
    }
    assert(comments@.take(i as int) =~= comments@);
    let ghost s = st.parts();
    assert(s.desc.len() == st.desc@.len());
    let description = if st.desc.len() == 0 {
        chars_of("TODO")
    } else {
        proof {
            reveal_strlit(" ");
        }
        let space: Vec<char> = vec![' '];
        assert(space@ =~= " "@);
        join_chars(&st.desc, space.as_slice())
    };
    let ds = string_from(description.as_slice());
    let g = IRElement::Group(text_with_word_breaks(ds.as_str()));
    let content = enum_body(g, values, &st.table, Ghost(Doc::Group(word_break_docs(words(ds@)))));
    let r = vec![
        IRElement::text("/**"),
        IRElement::Indent(content),
        IRElement::HardLineBreak,
        IRElement::text("*/"),
    ];
    proof {
        lemma_docs(r@, enum_natspec_docs(comments@, values@));
    }
    r
}

/// The placeholder NatSpec block of an undocumented enum: `TODO`, then
/// `@param name TODO` for each named value.
pub fn generate_enum_natspec(values: &[Option<String>]) -> (r: Vec<IRElement>)
    ensures
        docs(r@, todo_natspec_docs(values@)),
{
    let empty: Vec<(Vec<char>, Vec<char>)> = Vec::new();
    assert(table_views(empty@) =~= Seq::<(Seq<char>, Seq<char>)>::empty());
    let content = enum_body(IRElement::text("TODO"), values, &empty, Ghost(Doc::Text("TODO"@)));
    let r = vec![
        IRElement::text("/**"),
        IRElement::Indent(content),
        IRElement::HardLineBreak,
        IRElement::text("*/"),
    ];
    proof {
        lemma_docs(r@, todo_natspec_docs(values@));
    }
    r
}


/// Which part of a struct's NatSpec a more indented plain line continues.
pub enum FieldContext {
    Description,
    Param(Seq<char>),
    CustomField(Seq<char>),
    Other,
}

/// What a struct's comments provide, and where the scan stands.
pub struct StructDocs {
    /// Description texts.
    pub desc: Seq<Seq<char>>,
    /// The description of each documented field.
    pub table: Seq<(Seq<char>, Seq<char>)>,
    /// Whether a `@custom:field` entry is being gathered.
    pub in_custom: bool,
    /// The field of that entry.
    pub field: Seq<char>,
    /// The lines of that entry so far.
    pub field_doc: Seq<Seq<char>>,
    /// What a continuation line continues.
    pub context: FieldContext,
    /// The indentation, in bytes, of the last tag line of this comment.
    pub base: Option<int>,
}

/// Number of bytes of the leading whitespace of `s` (what `str::trim_start`
/// removes, measured by `str::len`).
pub open spec fn indent_bytes(s: Seq<char>) -> int
    decreases s.len(),
{
    if s.len() > 0 && is_ws(s[0]) {
        char_utf8_len(s[0]) + indent_bytes(s.subrange(1, s.len() as int))
    } else {
        0
    }
}

/// `s` split at its first space (`str::split_once(' ')`).
pub open spec fn split_space(s: Seq<char>) -> Option<(Seq<char>, Seq<char>)> {
    match first_index(s, ' ') {
        Some(k) => Some((s.subrange(0, k), s.subrange(k + 1, s.len() as int))),
        None => None,
    }
}

/// The text of a struct comment without its markers.
pub open spec fn struct_comment_text(c: Comment) -> Seq<char> {
    let t = trim(comment_text(c));
    if has_prefix(t, "///"@) {
        trim(after(t, 3))
    } else if has_prefix(t, "//"@) {
        trim(after(t, 2))
    } else if has_prefix(t, "/**"@) && has_suffix(t, "*/"@) {
        let a = after(t, 3);
        if has_suffix(a, "*/"@) {
            trim(a.subrange(0, a.len() - 2))
        } else {
            Seq::empty()
        }
    } else {
        t
    }
}

/// The `@custom:field` entry being gathered, stored.
pub open spec fn field_saved(s: StructDocs) -> StructDocs {
    if s.in_custom && s.field.len() > 0 {
        StructDocs { table: assoc_insert(s.table, s.field, trim(join(s.field_doc, " "@))), ..s }
    } else {
        s
    }
}

/// The `@custom:field` entry being gathered, stored and closed.
pub open spec fn field_closed(s: StructDocs) -> StructDocs {
    if s.in_custom && s.field.len() > 0 {
        StructDocs {
            table: assoc_insert(s.table, s.field, trim(join(s.field_doc, " "@))),
            in_custom: false,
            field: Seq::empty(),
            field_doc: Seq::empty(),
            ..s
        }
    } else {
        s
    }
}

/// The struct's documentation after one more line.
pub open spec fn struct_line(s: StructDocs, line: Seq<char>) -> StructDocs {
    let t = trim(line);
    let lead = indent_bytes(line);
    let cont = match s.base {
        Some(b) => lead > b && !has_prefix(t, "@"@),
        None => false,
    };
    if has_prefix(t, "@param "@) {
        let c = field_closed(s);
        let rest = after(t, 7);
        match split_space(rest) {
            Some((name, d)) => StructDocs {
                table: assoc_insert(c.table, name, trim(d)),
                context: FieldContext::Param(name),
                base: Some(lead),
                ..c
            },
            None => StructDocs { context: FieldContext::Param(rest), base: Some(lead), ..c },
        }
    } else if has_prefix(t, "@custom:field "@) {
        let c = field_saved(s);
        match split_space(after(t, 14)) {
            Some((name, d)) => StructDocs {
                in_custom: true,
                field: name,
                field_doc: seq![trim(d)],
                context: FieldContext::CustomField(name),
                base: Some(lead),
                ..c
            },
            None => StructDocs { base: Some(lead), ..c },
        }
    } else if has_prefix(t, "@notice "@) {
        let c = field_closed(s);
        StructDocs {
            desc: c.desc.push(trim(after(t, 8))),
            context: FieldContext::Description,
            base: Some(lead),
            ..c
        }
    } else if has_prefix(t, "@dev "@) {
        let c = field_closed(s);
        StructDocs {
            desc: c.desc.push(trim(after(t, 5))),
            context: FieldContext::Description,
            base: Some(lead),
            ..c
        }
    } else if has_prefix(t, "@"@) {
        let c = field_closed(s);
        StructDocs { context: FieldContext::Other, base: Some(lead), ..c }
    } else if t.len() > 0 {
        if cont {
            match s.context {
                FieldContext::Param(f) => StructDocs { table: assoc_append(s.table, f, t), ..s },
                FieldContext::CustomField(_) => if s.in_custom {
                    StructDocs { field_doc: s.field_doc.push(t), ..s }
                } else {
                    StructDocs { desc: s.desc.push(t), ..s }
                },
                _ => StructDocs { desc: s.desc.push(t), ..s },
            }
        } else if s.in_custom {
            StructDocs { field_doc: s.field_doc.push(t), ..s }
        } else {
            StructDocs { desc: s.desc.push(t), context: FieldContext::Description, ..s }
        }
    } else {
        s
    }
}

/// The documentation after more lines.
pub open spec fn struct_lines(s: StructDocs, ls: Seq<Seq<char>>) -> StructDocs
    decreases ls.len(),
{
    if ls.len() == 0 {
        s
    } else {
        struct_line(struct_lines(s, ls.drop_last()), ls.last())
    }
}

/// The documentation after the comments `cs`; each comment starts in the
/// description with no indentation known.
pub open spec fn struct_scan(cs: Seq<Comment>) -> StructDocs
    decreases cs.len(),
{
    if cs.len() == 0 {
        StructDocs {
            desc: Seq::empty(),
            table: Seq::empty(),
            in_custom: false,
            field: Seq::empty(),
            field_doc: Seq::empty(),
            context: FieldContext::Description,
            base: None,
        }
    } else {
        let s = struct_scan(cs.drop_last());
        struct_lines(
            StructDocs { context: FieldContext::Description, base: None, ..s },
            lines(struct_comment_text(cs.last())),
        )
    }
}

/// A struct's description (`TODO` when it has none) and the description of
/// each documented field, from its comments.
pub open spec fn struct_comment_docs(cs: Seq<Comment>) -> (Seq<char>, Seq<(Seq<char>, Seq<char>)>) {
    let s = field_saved(struct_scan(cs));
    (if s.desc.len() == 0 {
        "TODO"@
    } else {
        join(s.desc, " "@)
    }, s.table)
}

/// What a continuation line continues, held as character vectors.
enum FieldCtx {
    Description,
    Param(Vec<char>),
    CustomField(Vec<char>),
    Other,
}

impl FieldCtx {
    spec fn model(&self) -> FieldContext {
        match self {
            FieldCtx::Description => FieldContext::Description,
            FieldCtx::Param(f) => FieldContext::Param(f@),
            FieldCtx::CustomField(f) => FieldContext::CustomField(f@),
            FieldCtx::Other => FieldContext::Other,
        }
    }
}

/// The scan of a struct's comments, held as character vectors.
struct StructState {
    desc: Vec<Vec<char>>,
    table: Vec<(Vec<char>, Vec<char>)>,
    in_custom: bool,
    field: Vec<char>,
    field_doc: Vec<Vec<char>>,
    context: FieldCtx,
    base: Option<u128>,
}

impl StructState {
    spec fn parts(&self) -> StructDocs {
        StructDocs {
            desc: views(self.desc@),
            table: table_views(self.table@),
            in_custom: self.in_custom,
            field: self.field@,
            field_doc: views(self.field_doc@),
            context: self.context.model(),
            base: match self.base {
                Some(b) => Some(b as int),
                None => None,
            },
        }
    }
}

/// Number of bytes of the leading whitespace of `s`.
fn indent_bytes_of(s: &[char]) -> (n: u128)
    ensures
        n == indent_bytes(s@),
{
    let mut n: u128 = 0;
    let mut a: usize = 0;
    assert(s@.subrange(0, s@.len() as int) =~= s@);
    while a < s.len() && is_whitespace(s[a])
        invariant
            a <= s@.len(),
            n <= 4 * a,
            indent_bytes(s@) == n + indent_bytes(s@.subrange(a as int, s@.len() as int)),
        decreases s@.len() - a,
    {
        assert(s@.subrange(a as int, s@.len() as int).subrange(1, s@.len() - a) =~= s@.subrange(
            a + 1,
            s@.len() as int,
        ));
        let u = s[a] as u32;
        let k: u128 = if u < 0x80 {
            1
        } else if u < 0x800 {
            2
        } else if u < 0x10000 {
            3
        } else {
            4
        };
        n = n + k;
        a = a + 1;
    }
    n
}

/// `s` split at its first space.
fn split_space_chars(s: &[char]) -> (r: Option<(Vec<char>, Vec<char>)>)
    ensures
        (match r {
            Some(p) => Some((p.0@, p.1@)),
            None => None::<(Seq<char>, Seq<char>)>,
        }) == split_space(s@),
{
    let found = find_char(s, ' ');
    proof {
        lemma_first_index(s@, ' ');
    }
    let n = s.len();
    match found {
        Some(k) => {
            assert(first_index(s@, ' ') is Some);
            Some((slice_chars(s, 0, k), slice_chars(s, k + 1, n)))
        },
        None => None,
    }
}

/// The text of a struct comment without its markers.
fn struct_comment_text_chars(c: &Comment) -> (r: Vec<char>)
    ensures
        r@ == struct_comment_text(*c),
{
    let t = trim_chars(chars_of(c.text().as_str()).as_slice());
    let n = t.len();
    proof {
        reveal_strlit("///");
        reveal_strlit("//");
        reveal_strlit("/**");
        reveal_strlit("*/");
    }
    if starts_with(t.as_slice(), chars_of("///").as_slice()) {
        trim_chars(slice_chars(t.as_slice(), 3, n).as_slice())
    } else if starts_with(t.as_slice(), chars_of("//").as_slice()) {
        trim_chars(slice_chars(t.as_slice(), 2, n).as_slice())
    } else if starts_with(t.as_slice(), chars_of("/**").as_slice()) && ends_with(
        t.as_slice(),
        chars_of("*/").as_slice(),
    ) {
        let a = slice_chars(t.as_slice(), 3, n);
        if ends_with(a.as_slice(), chars_of("*/").as_slice()) {
            trim_chars(slice_chars(a.as_slice(), 0, a.len() - 2).as_slice())
        } else {
            Vec::new()
        }
    } else {
        t
    }
}

/// Stores the `@custom:field` entry being gathered; closes it if `close`.
fn store_field(st: &mut StructState, close: bool)
    ensures
        final(st).parts() == if close {
            field_closed(old(st).parts())
        } else {
            field_saved(old(st).parts())
        },
{
    if st.in_custom && st.field.len() > 0 {
        proof {
            reveal_strlit(" ");
        }
        let space: Vec<char> = vec![' '];
        assert(space@ =~= " "@);
        let joined = join_chars(&st.field_doc, space.as_slice());
        let d = trim_chars(joined.as_slice());
        let key = slice_chars(st.field.as_slice(), 0, st.field.len());
        assert(key@ =~= st.field@);
        table_insert(&mut st.table, key, d);
        if close {
            st.in_custom = false;
            st.field = Vec::new();
            st.field_doc = Vec::new();
            assert(views(st.field_doc@) =~= Seq::<Seq<char>>::empty());
        }
    }
}

/// Takes one more line of a struct's comments.
#[verifier::spinoff_prover]
#[verifier::rlimit(30)]
fn struct_step(st: &mut StructState, line: &[char])
    ensures
        final(st).parts() == struct_line(old(st).parts(), line@),
{
    let t = trim_chars(line);
    let lead = indent_bytes_of(line);
    let n = t.len();
    proof {
        reveal_strlit("@param ");
        reveal_strlit("@custom:field ");
        reveal_strlit("@notice ");
        reveal_strlit("@dev ");
        reveal_strlit("@");
    }
    let tagged = starts_with(t.as_slice(), chars_of("@").as_slice());
    let cont = match st.base {
        Some(b) => lead > b && !tagged,
        None => false,
    };
    if starts_with(t.as_slice(), chars_of("@param ").as_slice()) {
        store_field(st, true);
        let rest = slice_chars(t.as_slice(), 7, n);
        match split_space_chars(rest.as_slice()) {
            Some((name, d)) => {
                let key = slice_chars(name.as_slice(), 0, name.len());
                assert(key@ =~= name@);
                table_insert(&mut st.table, key, trim_chars(d.as_slice()));
                st.context = FieldCtx::Param(name);
            },
            None => {
                st.context = FieldCtx::Param(rest);
            },
        }
        st.base = Some(lead);
    } else if starts_with(t.as_slice(), chars_of("@custom:field ").as_slice()) {
        store_field(st, false);
        let rest = slice_chars(t.as_slice(), 14, n);
        match split_space_chars(rest.as_slice()) {
            Some((name, d)) => {
                let field = slice_chars(name.as_slice(), 0, name.len());
                assert(field@ =~= name@);
                st.in_custom = true;
                st.field = field;
                let first = trim_chars(d.as_slice());
                let ghost fv = first@;
                st.field_doc = vec![first];
                assert(views(st.field_doc@) =~= seq![fv]);
                st.context = FieldCtx::CustomField(name);
            },
            None => {},
        }
        st.base = Some(lead);
    } else if starts_with(t.as_slice(), chars_of("@notice ").as_slice()) {
        store_field(st, true);
        let rest = slice_chars(t.as_slice(), 8, n);
        push_view(&mut st.desc, trim_chars(rest.as_slice()));
        st.context = FieldCtx::Description;
        st.base = Some(lead);
    } else if starts_with(t.as_slice(), chars_of("@dev ").as_slice()) {
        store_field(st, true);
        let rest = slice_chars(t.as_slice(), 5, n);
        push_view(&mut st.desc, trim_chars(rest.as_slice()));
        st.context = FieldCtx::Description;
        st.base = Some(lead);
    } else if tagged {
        store_field(st, true);
        st.context = FieldCtx::Other;
        st.base = Some(lead);
    } else if n > 0 {
        if cont {
            match &st.context {
                FieldCtx::Param(f) => {
                    let key = slice_chars(f.as_slice(), 0, f.len());
                    assert(key@ =~= f@);
                    table_append(&mut st.table, key.as_slice(), t.as_slice());
                },
                FieldCtx::CustomField(_) => {
                    if st.in_custom {
                        push_view(&mut st.field_doc, t);
                    } else {
                        push_view(&mut st.desc, t);
                    }
                },
                _ => {
                    push_view(&mut st.desc, t);
                },
            }
        } else if st.in_custom {
            push_view(&mut st.field_doc, t);
        } else {
            push_view(&mut st.desc, t);
            st.context = FieldCtx::Description;
        }
    }
}

/// A struct's description and field table, as character vectors.
fn scan_struct_comments(comments: &[Comment]) -> (r: (Vec<char>, Vec<(Vec<char>, Vec<char>)>))
    ensures
        (r.0@, table_views(r.1@)) == struct_comment_docs(comments@),
{
    let mut st = StructState {
        desc: Vec::new(),
        table: Vec::new(),
        in_custom: false,
        field: Vec::new(),
        field_doc: Vec::new(),
        context: FieldCtx::Description,
        base: None,
    };
    assert(st.parts() == struct_scan(comments@.take(0))) by {
        assert(comments@.take(0) =~= Seq::<Comment>::empty());
        assert(views(st.desc@) =~= Seq::<Seq<char>>::empty());
        assert(views(st.field_doc@) =~= Seq::<Seq<char>>::empty());
        assert(st.field@ =~= Seq::<char>::empty());
        assert(table_views(st.table@) =~= Seq::<(Seq<char>, Seq<char>)>::empty());
    }
    let mut i: usize = 0;
    while i < comments.len()
        invariant
            i <= comments@.len(),
            st.parts() == struct_scan(comments@.take(i as int)),
        decreases comments@.len() - i,
    {
        assert(comments@.take(i + 1).drop_last() =~= comments@.take(i as int));
        assert(comments@.take(i + 1).last() == comments@[i as int]);
        st.context = FieldCtx::Description;
        st.base = None;
        let text = struct_comment_text_chars(&comments[i]);
        let ls = split_lines(text.as_slice());
        let ghost lv = views(ls@);
        let ghost s0 = st.parts();
        let mut j: usize = 0;
        assert(lv.take(0) =~= Seq::<Seq<char>>::empty());
        while j < ls.len()
            invariant
                j <= ls@.len(),
                lv == views(ls@),
                st.parts() == struct_lines(s0, lv.take(j as int)),
            decreases ls@.len() - j,
        {
            assert(lv.take(j + 1).drop_last() =~= lv.take(j as int));
            assert(lv.take(j + 1).last() == ls@[j as int]@);
            struct_step(&mut st, ls[j].as_slice());
            j = j + 1;
        }
        assert(lv.take(j as int) =~= lv);
        i = i + 1;
    }
    assert(comments@.take(i as int) =~= comments@);
    store_field(&mut st, false);
    let description = if st.desc.len() == 0 {
        chars_of("TODO")
    } else {
        proof {
            reveal_strlit(" ");
        }
        let space: Vec<char> = vec![' '];
        assert(space@ =~= " "@);
        join_chars(&st.desc, space.as_slice())
    };
    (description, st.table)
}

/// The table as pairs of strings.
fn table_strings(t: &Vec<(Vec<char>, Vec<char>)>) -> (r: Vec<(String, String)>)
    ensures
        pair_views(r@) == table_views(t@),
{
    let mut out: Vec<(String, String)> = Vec::new();
    let mut k: usize = 0;
    while k < t.len()
        invariant
            k <= t@.len(),
            pair_views(out@) == table_views(t@).take(k as int),
        decreases t@.len() - k,
    {
        let ghost before = pair_views(out@);
        let a = string_from(t[k].0.as_slice());
        let b = string_from(t[k].1.as_slice());
        let ghost pv = (a@, b@);
        assert(table_views(t@)[k as int] == pv);
        out.push((a, b));
        assert(pair_views(out@) =~= before.push(pv));
        assert(table_views(t@).take(k + 1) =~= table_views(t@).take(k as int).push(pv));
        k = k + 1;
    }
    assert(table_views(t@).take(k as int) =~= table_views(t@));
    out
}

/// The pairs of strings as a table.
fn table_of_strings(v: &[(String, String)]) -> (r: Vec<(Vec<char>, Vec<char>)>)
    ensures
        table_views(r@) == pair_views(v@),
{
    let mut out: Vec<(Vec<char>, Vec<char>)> = Vec::new();
    let mut k: usize = 0;
    while k < v.len()
        invariant
            k <= v@.len(),
            table_views(out@) == pair_views(v@).take(k as int),
        decreases v@.len() - k,
    {
        let ghost before = table_views(out@);
        let a = chars_of(v[k].0.as_str());
        let b = chars_of(v[k].1.as_str());
        let ghost pv = (a@, b@);
        assert(pair_views(v@)[k as int] == pv);
        out.push((a, b));
        assert(table_views(out@) =~= before.push(pv));
        assert(pair_views(v@).take(k + 1) =~= pair_views(v@).take(k as int).push(pv));
        k = k + 1;
    }
    assert(pair_views(v@).take(k as int) =~= pair_views(v@));
    out
}

/// A struct's description (`TODO` when it has none) and the description of
/// each documented field, read from `@notice`, `@dev`, `@param` and
/// `@custom:field` tags and the lines that continue them.
pub fn parse_struct_comments_custom(comments: &[Comment]) -> (r: (String, Vec<(String, String)>))
    ensures
        (r.0@, pair_views(r.1@)) == struct_comment_docs(comments@),
{
    let (description, table) = scan_struct_comments(comments);
    (string_from(description.as_slice()), table_strings(&table))
}

/// The field table `fd` with the inline field documentation `inline` added:
/// appended after a space to a field's description, or as its description.
pub open spec fn merged_docs(
    fd: Seq<(Seq<char>, Seq<char>)>,
    inline: Seq<(Seq<char>, Seq<char>)>,
) -> Seq<(Seq<char>, Seq<char>)>
    decreases inline.len(),
{
    if inline.len() == 0 {
        fd
    } else {
        let m = merged_docs(fd, inline.drop_last());
        let (k, v) = inline.last();
        if assoc_get(m, k) is Some {
            assoc_append(m, k, v)
        } else {
            assoc_insert(m, k, v)
        }
    }
}

/// `@param name` with the field's description, able to wrap onto an
/// indented line, or `@param name TODO`; each followed by a line break.
pub open spec fn field_param_docs(names: Seq<Seq<char>>, table: Seq<(Seq<char>, Seq<char>)>) -> Seq<Doc>
    decreases names.len(),
{
    if names.len() == 0 {
        Seq::empty()
    } else {
        let n = names.last();
        field_param_docs(names.drop_last(), table) + seq![
            match assoc_get(table, n) {
                Some(d) => Doc::Group(
                    seq![Doc::Text("@param "@ + n), Doc::Indent(seq![Doc::Soft] + word_break_docs(words(d)))],
                ),
                None => Doc::Text("@param "@ + n + " TODO"@),
            },
            Doc::Hard,
        ]
    }
}

/// The NatSpec block of a struct with fields `names`, from its comments and
/// the comments on its fields (`inline`).
pub open spec fn struct_natspec_docs(
    cs: Seq<Comment>,
    names: Seq<Seq<char>>,
    inline: Seq<(Seq<char>, Seq<char>)>,
) -> Seq<Doc> {
    let (description, fd) = struct_comment_docs(cs);
    let table = merged_docs(fd, inline);
    seq![
        Doc::Text("/**"@),
        Doc::Indent(
            seq![
                Doc::Hard,
                if description != "TODO"@ && description.len() > 0 {
                    Doc::Group(word_break_docs(words(description)))
                } else {
                    Doc::Text("TODO"@)
                },
            ] + if names.len() > 0 {
                (seq![Doc::Hard, Doc::Hard] + field_param_docs(names, table)).drop_last()
            } else {
                Seq::empty()
            },
        ),
        Doc::Hard,
        Doc::Text("*/"@),
    ]
}

/// Adds the inline field documentation to the table.
fn merge_inline_docs(t: &mut Vec<(Vec<char>, Vec<char>)>, inline: &[(String, String)])
    ensures
        table_views(final(t)@) == merged_docs(table_views(old(t)@), pair_views(inline@)),
{
    let ghost fd = table_views(t@);
    let mut i: usize = 0;
    assert(pair_views(inline@).take(0) =~= Seq::<(Seq<char>, Seq<char>)>::empty());
    while i < inline.len()
        invariant
            i <= inline@.len(),
            table_views(t@) == merged_docs(fd, pair_views(inline@).take(i as int)),
        decreases inline@.len() - i,
    {
        let ghost iv = pair_views(inline@);
        assert(iv.take(i + 1).drop_last() =~= iv.take(i as int));
        assert(iv.take(i + 1).last() == iv[i as int]);
        let k = chars_of(inline[i].0.as_str());
        let v = chars_of(inline[i].1.as_str());
        if table_find(t, k.as_slice()).is_some() {
            table_append(t, k.as_slice(), v.as_slice());
        } else {
            table_insert(t, k, v);
        }
        i = i + 1;
    }
    assert(pair_views(inline@).take(i as int) =~= pair_views(inline@));
}

/// Appends each field's `@param` entry followed by a line break.
fn push_field_params(
    ir: &mut Vec<IRElement>,
    names: &[String],
    table: &Vec<(Vec<char>, Vec<char>)>,
    Ghost(ds): Ghost<Seq<Doc>>,
)
    requires
        docs(old(ir)@, ds),
    ensures
        docs(final(ir)@, ds + field_param_docs(str_views(names@), table_views(table@))),
{
    let ghost tb = table_views(table@);
    let ghost nv = str_views(names@);
    let mut i: usize = 0;
    proof {
        reveal_strlit("@param ");
        reveal_strlit(" TODO");
    }
    assert(nv.take(0) =~= Seq::<Seq<char>>::empty());
    assert(ds =~= ds + field_param_docs(nv.take(0), tb));
    while i < names.len()
        invariant
            i <= names@.len(),
            tb == table_views(table@),
            nv == str_views(names@),
            docs(ir@, ds + field_param_docs(nv.take(i as int), tb)),
        decreases names@.len() - i,
    {
        let ghost pre = ds + field_param_docs(nv.take(i as int), tb);
        assert(nv.take(i + 1).drop_last() =~= nv.take(i as int));
        assert(nv.take(i + 1).last() == names@[i as int]@);
        let nc = chars_of(names[i].as_str());
        let mut head = chars_of("@param ");
        push_all(&mut head, nc.as_slice());
        let ghost hv = head@;
        assert(hv =~= "@param "@ + names@[i as int]@);
        let ghost gd = match assoc_get(tb, nc@) {
            Some(d) => Doc::Group(
                seq![Doc::Text("@param "@ + nc@), Doc::Indent(seq![Doc::Soft] + word_break_docs(words(d)))],
            ),
            None => Doc::Text("@param "@ + nc@ + " TODO"@),
        };
        let e = match table_get(table, nc.as_slice()) {
            Some(d) => {
                let dsv = string_from(d.as_slice());
                let mut cont = vec![IRElement::SoftLineBreak];
                let words_ir = text_with_word_breaks(dsv.as_str());
                let ghost wd = word_break_docs(words(d@));
                proof {
                    lemma_docs(cont@, seq![Doc::Soft]);
                    lemma_docs(words_ir@, wd);
                }
                let ghost c0 = cont@;
                let mut w = words_ir;
                cont.append(&mut w);
                proof {
                    assert(cont@ =~= c0 + words_ir@);
                    lemma_docs(cont@, seq![Doc::Soft] + wd);
                }
                let parts = vec![IRElement::Text(string_from(head.as_slice())), IRElement::Indent(cont)];
                proof {
                    lemma_docs(parts@, seq![Doc::Text(hv), Doc::Indent(seq![Doc::Soft] + wd)]);
                }
                IRElement::Group(parts)
            },
            None => {
                push_all(&mut head, chars_of(" TODO").as_slice());
                IRElement::Text(string_from(head.as_slice()))
            },
        };
        proof {
            lemma_docs_push(ir@, pre, e, gd);
        }
        ir.push(e);
        proof {
            lemma_docs_push(ir@, pre.push(gd), IRElement::HardLineBreak, Doc::Hard);
        }
        ir.push(IRElement::HardLineBreak);
        assert(pre.push(gd).push(Doc::Hard) =~= ds + field_param_docs(nv.take(i + 1), tb));
        i = i + 1;
    }
    assert(nv.take(i as int) =~= nv);
}

/// The NatSpec block of a struct: its description (or `TODO`), then
/// `@param` for every field with its description, where the comments on the
/// field itself add to (or give) a field's description, or `TODO`.
pub fn format_struct_natspec_ir(
    all_comments: &[Comment],
    _struct_name: &str,
    field_names: &[String],
    inline_field_docs: &[(String, String)],
) -> (r: Vec<IRElement>)
    ensures
        docs(r@, struct_natspec_docs(all_comments@, str_views(field_names@), pair_views(inline_field_docs@))),
{
    let (description, mut table) = scan_struct_comments(all_comments);
    merge_inline_docs(&mut table, inline_field_docs);
    let ghost dv = description@;
    proof {
        reveal_strlit("TODO");
    }
    let head = if !chars_equal(description.as_slice(), chars_of("TODO").as_slice()) && description.len() > 0 {
        let dsv = string_from(description.as_slice());
        IRElement::Group(text_with_word_breaks(dsv.as_str()))
    } else {
        IRElement::text("TODO")
    };
    let ghost hd = if dv != "TODO"@ && dv.len() > 0 {
        Doc::Group(word_break_docs(words(dv)))
    } else {
        Doc::Text("TODO"@)
    };
    let mut c: Vec<IRElement> = vec![IRElement::HardLineBreak, head];
    let ghost d0 = seq![Doc::Hard, hd];
    proof {
        lemma_docs(c@, d0);
    }
    if field_names.len() > 0 {
        proof {
            lemma_docs_push(c@, d0, IRElement::HardLineBreak, Doc::Hard);
        }
        c.push(IRElement::HardLineBreak);
        proof {
            lemma_docs_push(c@, d0.push(Doc::Hard), IRElement::HardLineBreak, Doc::Hard);
        }
        c.push(IRElement::HardLineBreak);
        let ghost d1 = d0.push(Doc::Hard).push(Doc::Hard);
        push_field_params(&mut c, field_names, &table, Ghost(d1));
        let ghost full = d1 + field_param_docs(str_views(field_names@), table_views(table@));
        proof {
            lemma_docs_drop_last(c@, full);
        }
        c.pop();
        assert(full.drop_last() =~= seq![Doc::Hard, hd] + (seq![Doc::Hard, Doc::Hard] + field_param_docs(
            str_views(field_names@),
            table_views(table@),
        )).drop_last());
    }
    let r = vec![IRElement::text("/**"), IRElement::Indent(c), IRElement::HardLineBreak, IRElement::text("*/")];
    proof {
        lemma_docs(r@, struct_natspec_docs(all_comments@, str_views(field_names@), pair_views(inline_field_docs@)));
    }
    r
}

/// A line of a block comment: trimmed, without a leading `*`, trimmed again.
pub open spec fn block_line_text(l: Seq<char>) -> Seq<char> {
    trim(strip_prefix_or_keep(trim(l), "*"@))
}

/// The text of a comment without its markers; the lines of a block comment
/// lose a leading `*` and are joined by spaces.
pub open spec fn comment_plain_text(c: Comment) -> Seq<char> {
    let t = trim(comment_text(c));
    if has_prefix(t, "///"@) {
        trim(after(t, 3))
    } else if has_prefix(t, "//"@) {
        trim(after(t, 2))
    } else if has_prefix(t, "/*"@) && has_suffix(t, "*/"@) {
        let a = after(t, 2);
        let inner = if has_suffix(a, "*/"@) {
            a.subrange(0, a.len() - 2)
        } else {
            Seq::empty()
        };
        join(lines(trim(inner)).map_values(|l: Seq<char>| block_line_text(l)), " "@)
    } else {
        t
    }
}

/// The lines, each trimmed without a leading `*`, joined by spaces.
fn block_lines_joined(s: &[char]) -> (r: Vec<char>)
    ensures
        r@ == join(lines(s@).map_values(|l: Seq<char>| block_line_text(l)), " "@),
{
    let ls = split_lines(s);
    let ghost lv = views(ls@);
    let mut out: Vec<Vec<char>> = Vec::new();
    let mut j: usize = 0;
    proof {
        reveal_strlit("*");
        reveal_strlit(" ");
    }
    while j < ls.len()
        invariant
            j <= ls@.len(),
            lv == views(ls@),
            views(out@) == lv.take(j as int).map_values(|l: Seq<char>| block_line_text(l)),
        decreases ls@.len() - j,
    {
        let t = trim_chars(ls[j].as_slice());
        let u = strip_prefix_chars(t.as_slice(), chars_of("*").as_slice());
        let line = trim_chars(u.as_slice());
        assert(line@ == block_line_text(lv[j as int]));
        push_view(&mut out, line);
        assert(lv.take(j + 1).map_values(|l: Seq<char>| block_line_text(l)) =~= lv.take(j as int).map_values(
            |l: Seq<char>| block_line_text(l),
        ).push(block_line_text(lv[j as int])));
        j = j + 1;
    }
    assert(lv.take(j as int) =~= lv);
    let space: Vec<char> = vec![' '];
    assert(space@ =~= " "@);
    join_chars(&out, space.as_slice())
}

/// The text of a comment without its markers, as characters.
fn comment_plain_chars(comment: &Comment) -> (r: Vec<char>)
    ensures
        r@ == comment_plain_text(*comment),
{
    let t = trim_chars(chars_of(comment.text().as_str()).as_slice());
    let n = t.len();
    proof {
        reveal_strlit("///");
        reveal_strlit("//");
        reveal_strlit("/*");
        reveal_strlit("*/");
    }
    if starts_with(t.as_slice(), chars_of("///").as_slice()) {
        trim_chars(slice_chars(t.as_slice(), 3, n).as_slice())
    } else if starts_with(t.as_slice(), chars_of("//").as_slice()) {
        trim_chars(slice_chars(t.as_slice(), 2, n).as_slice())
    } else if starts_with(t.as_slice(), chars_of("/*").as_slice()) && ends_with(
        t.as_slice(),
        chars_of("*/").as_slice(),
    ) {
        let a = slice_chars(t.as_slice(), 2, n);
        let inner = if ends_with(a.as_slice(), chars_of("*/").as_slice()) {
            slice_chars(a.as_slice(), 0, a.len() - 2)
        } else {
            Vec::new()
        };
        let ti = trim_chars(inner.as_slice());
        block_lines_joined(ti.as_slice())
    } else {
        t
    }
}

/// The text of a comment without its markers; the lines of a block comment
/// lose a leading `*` and are joined by spaces.
pub fn extract_comment_text(comment: &Comment) -> (r: String)
    ensures
        r@ == comment_plain_text(*comment),
{
    let v = comment_plain_chars(comment);
    string_from(v.as_slice())
}

/// The name of a struct member, empty when it has none.
pub open spec fn member_name(f: CommentedElement<StructMember>) -> Seq<char> {
    match f.element.name {
        Some(n) => n@,
        None => Seq::empty(),
    }
}

/// The texts of the comments `cs` that are not empty once unmarked.
pub open spec fn nonempty_texts(cs: Seq<Comment>) -> Seq<Seq<char>>
    decreases cs.len(),
{
    if cs.len() == 0 {
        Seq::empty()
    } else {
        let r = nonempty_texts(cs.drop_last());
        let t = comment_plain_text(cs.last());
        if t.len() > 0 {
            r.push(t)
        } else {
            r
        }
    }
}

/// The documentation that the comments on the members give them: for each
/// named member with comments that say something, their texts (those before
/// the member, then those after it) joined by spaces.
pub open spec fn inline_docs(fields: Seq<CommentedElement<StructMember>>) -> Seq<(Seq<char>, Seq<char>)>
    decreases fields.len(),
{
    if fields.len() == 0 {
        Seq::empty()
    } else {
        let acc = inline_docs(fields.drop_last());
        let f = fields.last();
        let parts = nonempty_texts(f.leading_comments@) + nonempty_texts(f.trailing_comments@);
        if member_name(f).len() > 0 && parts.len() > 0 {
            assoc_insert(acc, member_name(f), join(parts, " "@))
        } else {
            acc
        }
    }
}

/// Each member on a line of its own, indented: type, name and `;`.
pub open spec fn member_docs(fields: Seq<CommentedElement<StructMember>>) -> Seq<Doc>
    decreases fields.len(),
{
    if fields.len() == 0 {
        Seq::empty()
    } else {
        let f = fields.last();
        member_docs(fields.drop_last()) + seq![
            Doc::Hard,
            Doc::Indent(
                seq![doc_of(f.element.ty_ir), Doc::Text(" "@), Doc::Text(member_name(f)), Doc::Text(";"@)],
            ),
        ]
    }
}

/// A struct: its NatSpec block, then `struct Name {`, the members and `}`.
pub open spec fn struct_ir_docs(s: CollectedStruct) -> Seq<Doc> {
    struct_natspec_docs(
        s.definition.leading_comments@ + s.definition.trailing_comments@,
        s.fields@.map_values(|f: CommentedElement<StructMember>| member_name(f)),
        inline_docs(s.fields@),
    ) + seq![
        Doc::Hard,
        Doc::Text("struct"@),
        Doc::Text(" "@),
        Doc::Text(s.definition.element@),
        Doc::Text(" "@),
        Doc::Text("{"@),
    ] + (if s.fields.len() > 0 {
        member_docs(s.fields@).push(Doc::Hard)
    } else {
        Seq::empty()
    }) + seq![Doc::Text("}"@)]
}

/// Appends the texts of the comments that say something.
fn push_texts(parts: &mut Vec<Vec<char>>, cs: &Vec<Comment>)
    ensures
        views(final(parts)@) == views(old(parts)@) + nonempty_texts(cs@),
{
    let ghost p0 = views(parts@);
    let mut i: usize = 0;
    assert(cs@.take(0) =~= Seq::<Comment>::empty());
    assert(p0 =~= p0 + nonempty_texts(cs@.take(0)));
    while i < cs.len()
        invariant
            i <= cs@.len(),
            views(parts@) == p0 + nonempty_texts(cs@.take(i as int)),
        decreases cs@.len() - i,
    {
        assert(cs@.take(i + 1).drop_last() =~= cs@.take(i as int));
        assert(cs@.take(i + 1).last() == cs@[i as int]);
        let t = comment_plain_chars(&cs[i]);
        if t.len() > 0 {
            push_view(parts, t);
            assert(views(parts@) =~= p0 + nonempty_texts(cs@.take(i + 1)));
        }
        i = i + 1;
    }
    assert(cs@.take(i as int) =~= cs@);
}

/// The names of the members and the documentation their comments give them.
fn member_names_and_docs(fields: &Vec<CommentedElement<StructMember>>) -> (r: (
    Vec<String>,
    Vec<(Vec<char>, Vec<char>)>,
))
    ensures
        str_views(r.0@) == fields@.map_values(|f: CommentedElement<StructMember>| member_name(f)),
        table_views(r.1@) == inline_docs(fields@),
{
    let mut names: Vec<String> = Vec::new();
    let mut table: Vec<(Vec<char>, Vec<char>)> = Vec::new();
    let mut i: usize = 0;
    assert(fields@.take(0) =~= Seq::<CommentedElement<StructMember>>::empty());
    assert(table_views(table@) =~= Seq::<(Seq<char>, Seq<char>)>::empty());
    while i < fields.len()
        invariant
            i <= fields@.len(),
            str_views(names@) == fields@.take(i as int).map_values(
                |f: CommentedElement<StructMember>| member_name(f),
            ),
            table_views(table@) == inline_docs(fields@.take(i as int)),
        decreases fields@.len() - i,
    {
        assert(fields@.take(i + 1).drop_last() =~= fields@.take(i as int));
        assert(fields@.take(i + 1).last() == fields@[i as int]);
        let f = &fields[i];
        let nm = match &f.element.name {
            Some(n) => chars_of(n.as_str()),
            None => Vec::new(),
        };
        assert(nm@ =~= member_name(*f));
        let ghost before = str_views(names@);
        let sn = string_from(nm.as_slice());
        let ghost snv = sn@;
        names.push(sn);
        assert(str_views(names@) =~= before.push(snv));
        assert(fields@.take(i + 1).map_values(|f: CommentedElement<StructMember>| member_name(f))
            =~= fields@.take(i as int).map_values(|f: CommentedElement<StructMember>| member_name(f)).push(
            member_name(fields@[i as int]),
        ));
        let mut parts: Vec<Vec<char>> = Vec::new();
        assert(views(parts@) =~= Seq::<Seq<char>>::empty());
        push_texts(&mut parts, &f.leading_comments);
        push_texts(&mut parts, &f.trailing_comments);
        assert(views(parts@) =~= nonempty_texts(f.leading_comments@) + nonempty_texts(f.trailing_comments@));
        if nm.len() > 0 && parts.len() > 0 {
            proof {
                reveal_strlit(" ");
            }
            let space: Vec<char> = vec![' '];
            assert(space@ =~= " "@);
            let joined = join_chars(&parts, space.as_slice());
            table_insert(&mut table, nm, joined);
        }
        i = i + 1;
    }
    assert(fields@.take(i as int) =~= fields@);
    (names, table)
}

/// Appends each member on an indented line of its own.
fn push_members(ir: &mut Vec<IRElement>, fields: Vec<CommentedElement<StructMember>>, Ghost(ds): Ghost<Seq<Doc>>)
    requires
        docs(old(ir)@, ds),
    ensures
        docs(final(ir)@, ds + member_docs(fields@)),
{
    let ghost orig = fields@;
    let n = fields.len();
    let mut rest = fields;
    let mut i: usize = 0;
    assert(orig.take(0) =~= Seq::<CommentedElement<StructMember>>::empty());
    assert(ds =~= ds + member_docs(orig.take(0)));
    proof {
        reveal_strlit(" ");
        reveal_strlit(";");
    }
    while rest.len() > 0
        invariant
            i <= orig.len(),
            orig.len() == n,
            rest@ == orig.subrange(i as int, orig.len() as int),
            docs(ir@, ds + member_docs(orig.take(i as int))),
        decreases rest@.len(),
    {
        let ghost pre = ds + member_docs(orig.take(i as int));
        assert(orig.take(i + 1).drop_last() =~= orig.take(i as int));
        assert(orig.take(i + 1).last() == rest@[0]);
        let f = rest.remove(0);
        assert(rest@ =~= orig.subrange(i + 1, orig.len() as int));
        let ghost fv = f;
        let CommentedElement { element, leading_comments: _, trailing_comments: _ } = f;
        let StructMember { ty_ir, name, .. } = element;
        let nm = match name {
            Some(x) => x,
            None => String::new(),
        };
        assert(nm@ =~= member_name(fv));
        proof {
            lemma_doc_of(ty_ir);
        }
        let ghost inner = seq![doc_of(ty_ir), Doc::Text(" "@), Doc::Text(member_name(fv)), Doc::Text(";"@)];
        let line = vec![ty_ir, IRElement::text(" "), IRElement::Text(nm), IRElement::text(";")];
        proof {
            lemma_docs(line@, inner);
        }
        push_hard(ir, Ghost(pre));
        let e = IRElement::Indent(line);
        proof {
            lemma_docs_push(ir@, pre.push(Doc::Hard), e, Doc::Indent(inner));
        }
        ir.push(e);
        assert(pre.push(Doc::Hard).push(Doc::Indent(inner)) =~= ds + member_docs(orig.take(i + 1)));
        i = i + 1;
    }
    assert(orig.take(i as int) =~= orig);
}

/// Appends a text element.
pub(crate) fn push_text(ir: &mut Vec<IRElement>, t: &str, Ghost(ds): Ghost<Seq<Doc>>)
    requires
        docs(old(ir)@, ds),
    ensures
        docs(final(ir)@, ds.push(Doc::Text(t@))),
{
    let e = IRElement::text(t);
    proof {
        lemma_docs_push(ir@, ds, e, Doc::Text(t@));
    }
    ir.push(e);
}

/// A struct: its NatSpec block (from its comments and those on its members),
/// then `struct Name {`, each member on an indented line, and `}`.
#[verifier::spinoff_prover]
pub fn build_struct_ir(struct_def: CollectedStruct) -> (r: Vec<IRElement>)
    ensures
        docs(r@, struct_ir_docs(struct_def)),
{
    let ghost sd = struct_def;
    let CollectedStruct { definition, fields } = struct_def;
    let CommentedElement { element: name, leading_comments, trailing_comments } = definition;
    let (names, table) = member_names_and_docs(&fields);
    let mut all = leading_comments;
    let mut after_comments = trailing_comments;
    all.append(&mut after_comments);
    let inline = table_strings(&table);
    let mut ir = format_struct_natspec_ir(all.as_slice(), name.as_str(), names.as_slice(), inline.as_slice());
    let ghost d0 = struct_natspec_docs(
        sd.definition.leading_comments@ + sd.definition.trailing_comments@,
        sd.fields@.map_values(|f: CommentedElement<StructMember>| member_name(f)),
        inline_docs(sd.fields@),
    );
    assert(docs(ir@, d0));
    push_hard(&mut ir, Ghost(d0));
    push_text(&mut ir, "struct", Ghost(d0.push(Doc::Hard)));
    let ghost d1 = d0.push(Doc::Hard).push(Doc::Text("struct"@));
    push_text(&mut ir, " ", Ghost(d1));
    let ghost d2 = d1.push(Doc::Text(" "@));
    let ghost nv = name@;
    let e = IRElement::Text(name);
    proof {
        lemma_docs_push(ir@, d2, e, Doc::Text(nv));
    }
    ir.push(e);
    let ghost d3 = d2.push(Doc::Text(nv));
    push_text(&mut ir, " ", Ghost(d3));
    push_text(&mut ir, "{", Ghost(d3.push(Doc::Text(" "@))));
    let ghost d4 = d3.push(Doc::Text(" "@)).push(Doc::Text("{"@));
    let ghost head = seq![
        Doc::Hard,
        Doc::Text("struct"@),
        Doc::Text(" "@),
        Doc::Text(nv),
        Doc::Text(" "@),
        Doc::Text("{"@),
    ];
    assert(d4 =~= d0 + head);
    let ghost d5 = if sd.fields.len() > 0 {
        member_docs(sd.fields@).push(Doc::Hard)
    } else {
        Seq::<Doc>::empty()
    };
    if fields.len() > 0 {
        push_members(&mut ir, fields, Ghost(d4));
        push_hard(&mut ir, Ghost(d4 + member_docs(sd.fields@)));
        assert((d4 + member_docs(sd.fields@)).push(Doc::Hard) =~= d4 + d5);
    } else {
        assert(d4 =~= d4 + d5);
    }
    push_text(&mut ir, "}", Ghost(d4 + d5));
    assert((d4 + d5).push(Doc::Text("}"@)) =~= struct_ir_docs(sd));
    ir
}

/// What an error's comments provide, and where the scan stands.
pub struct ErrorDocs {
    /// Description texts.
    pub desc: Seq<Seq<char>>,
    /// The description of each documented parameter.
    pub table: Seq<(Seq<char>, Seq<char>)>,
    /// The parameter being documented.
    pub current: Option<Seq<char>>,
    /// The lines of its description so far.
    pub current_doc: Seq<Seq<char>>,
    /// The indentation, in bytes, of the last tag line of this comment.
    pub base: Option<int>,
}

/// The text of an error's NatSpec comment without its markers; other
/// comments give nothing.
pub open spec fn error_comment_text(c: Comment) -> Seq<char> {
    match c {
        Comment::DocLine(t) => trim(strip_prefix_or_keep(trim(t@), "///"@)),
        Comment::DocBlock(t) => trim(strip_suffix_or_keep(strip_prefix_or_keep(trim(t@), "/**"@), "*/"@)),
        _ => Seq::empty(),
    }
}

/// The parameter being documented, stored.
pub open spec fn param_flushed(s: ErrorDocs) -> ErrorDocs {
    match s.current {
        Some(p) => ErrorDocs {
            table: assoc_insert(s.table, p, trim(join(s.current_doc, " "@))),
            current: None,
            current_doc: Seq::empty(),
            ..s
        },
        None => s,
    }
}

/// The error's documentation after one more line.
pub open spec fn error_line(s: ErrorDocs, line: Seq<char>) -> ErrorDocs {
    let t = trim(line);
    let lead = indent_bytes(line);
    let cont = match s.base {
        Some(b) => lead > b && !has_prefix(t, "@"@),
        None => false,
    };
    if has_prefix(t, "@param "@) {
        let c = param_flushed(s);
        let rest = after(t, 7);
        match split_space(rest) {
            Some((name, d)) => ErrorDocs {
                current: Some(name),
                current_doc: c.current_doc.push(trim(d)),
                base: Some(lead),
                ..c
            },
            None => ErrorDocs { current: Some(rest), base: Some(lead), ..c },
        }
    } else if has_prefix(t, "@notice "@) {
        let c = param_flushed(s);
        ErrorDocs { desc: c.desc.push(trim(after(t, 8))), base: Some(lead), ..c }
    } else if has_prefix(t, "@"@) {
        ErrorDocs { base: Some(lead), ..param_flushed(s) }
    } else if t.len() > 0 {
        if cont && s.current is Some {
            ErrorDocs { current_doc: s.current_doc.push(t), ..s }
        } else if s.current is None {
            ErrorDocs { desc: s.desc.push(t), ..s }
        } else {
            s
        }
    } else {
        s
    }
}

/// The documentation after more lines.
pub open spec fn error_lines(s: ErrorDocs, ls: Seq<Seq<char>>) -> ErrorDocs
    decreases ls.len(),
{
    if ls.len() == 0 {
        s
    } else {
        error_line(error_lines(s, ls.drop_last()), ls.last())
    }
}

/// The documentation after the comments `cs`; no indentation is known at
/// the start of each comment.
pub open spec fn error_scan(cs: Seq<Comment>) -> ErrorDocs
    decreases cs.len(),
{
    if cs.len() == 0 {
        ErrorDocs {
            desc: Seq::empty(),
            table: Seq::empty(),
            current: None,
            current_doc: Seq::empty(),
            base: None,
        }
    } else {
        let s = error_scan(cs.drop_last());
        error_lines(ErrorDocs { base: None, ..s }, lines(error_comment_text(cs.last())))
    }
}

/// An error's description (`TODO` when it has none) and the description of
/// each documented parameter, from its comments.
pub open spec fn error_comment_docs(cs: Seq<Comment>) -> (Seq<char>, Seq<(Seq<char>, Seq<char>)>) {
    let s = param_flushed(error_scan(cs));
    (if s.desc.len() == 0 {
        "TODO"@
    } else {
        join(s.desc, " "@)
    }, s.table)
}

/// The scan of an error's comments, held as character vectors.
struct ErrorState {
    desc: Vec<Vec<char>>,
    table: Vec<(Vec<char>, Vec<char>)>,
    current: Option<Vec<char>>,
    current_doc: Vec<Vec<char>>,
    base: Option<u128>,
}

impl ErrorState {
    spec fn parts(&self) -> ErrorDocs {
        ErrorDocs {
            desc: views(self.desc@),
            table: table_views(self.table@),
            current: match self.current {
                Some(c) => Some(c@),
                None => None,
            },
            current_doc: views(self.current_doc@),
            base: match self.base {
                Some(b) => Some(b as int),
                None => None,
            },
        }
    }
}

/// Stores the parameter being documented.
fn flush_param(st: &mut ErrorState)
    ensures
        final(st).parts() == param_flushed(old(st).parts()),
{
    match st.current.take() {
        Some(p) => {
            proof {
                reveal_strlit(" ");
            }
            let space: Vec<char> = vec![' '];
            assert(space@ =~= " "@);
            let joined = join_chars(&st.current_doc, space.as_slice());
            table_insert(&mut st.table, p, trim_chars(joined.as_slice()));
            st.current_doc = Vec::new();
            assert(views(st.current_doc@) =~= Seq::<Seq<char>>::empty());
        },
        None => {},
    }
}

/// Takes one more line of an error's comments.
#[verifier::spinoff_prover]
fn error_step(st: &mut ErrorState, line: &[char])
    ensures
        final(st).parts() == error_line(old(st).parts(), line@),
{
    let t = trim_chars(line);
    let lead = indent_bytes_of(line);
    let n = t.len();
    proof {
        reveal_strlit("@param ");
        reveal_strlit("@notice ");
        reveal_strlit("@");
    }
    let tagged = starts_with(t.as_slice(), chars_of("@").as_slice());
    let cont = match st.base {
        Some(b) => lead > b && !tagged,
        None => false,
    };
    if starts_with(t.as_slice(), chars_of("@param ").as_slice()) {
        flush_param(st);
        let rest = slice_chars(t.as_slice(), 7, n);
        match split_space_chars(rest.as_slice()) {
            Some((name, d)) => {
                st.current = Some(name);
                push_view(&mut st.current_doc, trim_chars(d.as_slice()));
            },
            None => {
                st.current = Some(rest);
            },
        }
        st.base = Some(lead);
    } else if starts_with(t.as_slice(), chars_of("@notice ").as_slice()) {
        flush_param(st);
        let rest = slice_chars(t.as_slice(), 8, n);
        push_view(&mut st.desc, trim_chars(rest.as_slice()));
        st.base = Some(lead);
    } else if tagged {
        flush_param(st);
        st.base = Some(lead);
    } else if n > 0 {
        if cont && st.current.is_some() {
            push_view(&mut st.current_doc, t);
        } else if st.current.is_none() {
            push_view(&mut st.desc, t);
        }
    }
}

/// The text of an error's NatSpec comment without its markers.
fn error_comment_text_chars(c: &Comment) -> (r: Vec<char>)
    ensures
        r@ == error_comment_text(*c),
{
    match c {
        Comment::DocLine(t) => {
            let tt = trim_chars(chars_of(t.as_str()).as_slice());
            let a = strip_prefix_chars(tt.as_slice(), chars_of("///").as_slice());
            trim_chars(a.as_slice())
        },
        Comment::DocBlock(t) => {
            let tt = trim_chars(chars_of(t.as_str()).as_slice());
            let a = strip_prefix_chars(tt.as_slice(), chars_of("/**").as_slice());
            let b = strip_suffix_chars(a.as_slice(), chars_of("*/").as_slice());
            trim_chars(b.as_slice())
        },
        _ => Vec::new(),
    }
}

/// An error's description and parameter table, as character vectors.
fn scan_error_comments(comments: &[Comment]) -> (r: (Vec<char>, Vec<(Vec<char>, Vec<char>)>))
    ensures
        (r.0@, table_views(r.1@)) == error_comment_docs(comments@),
{
    let mut st = ErrorState {
        desc: Vec::new(),
        table: Vec::new(),
        current: None,
        current_doc: Vec::new(),
        base: None,
    };
    assert(st.parts() == error_scan(comments@.take(0))) by {
        assert(comments@.take(0) =~= Seq::<Comment>::empty());
        assert(views(st.desc@) =~= Seq::<Seq<char>>::empty());
        assert(views(st.current_doc@) =~= Seq::<Seq<char>>::empty());
        assert(table_views(st.table@) =~= Seq::<(Seq<char>, Seq<char>)>::empty());
    }
    let mut i: usize = 0;
    while i < comments.len()
        invariant
            i <= comments@.len(),
            st.parts() == error_scan(comments@.take(i as int)),
        decreases comments@.len() - i,
    {
        assert(comments@.take(i + 1).drop_last() =~= comments@.take(i as int));
        assert(comments@.take(i + 1).last() == comments@[i as int]);
        st.base = None;
        let text = error_comment_text_chars(&comments[i]);
        let ls = split_lines(text.as_slice());
        let ghost lv = views(ls@);
        let ghost s0 = st.parts();
        let mut j: usize = 0;
        assert(lv.take(0) =~= Seq::<Seq<char>>::empty());
        while j < ls.len()
            invariant
                j <= ls@.len(),
                lv == views(ls@),
                st.parts() == error_lines(s0, lv.take(j as int)),
            decreases ls@.len() - j,
        {
            assert(lv.take(j + 1).drop_last() =~= lv.take(j as int));
            assert(lv.take(j + 1).last() == ls@[j as int]@);
            error_step(&mut st, ls[j].as_slice());
            j = j + 1;
        }
        assert(lv.take(j as int) =~= lv);
        i = i + 1;
    }
    assert(comments@.take(i as int) =~= comments@);
    flush_param(&mut st);
    let description = if st.desc.len() == 0 {
        chars_of("TODO")
    } else {
        proof {
            reveal_strlit(" ");
        }
        let space: Vec<char> = vec![' '];
        assert(space@ =~= " "@);
        join_chars(&st.desc, space.as_slice())
    };
    (description, st.table)
}

/// An error's description (`TODO` when it has none) and the description of
/// each documented parameter, read from `@notice` and `@param` tags and the
/// lines that continue them.
pub fn parse_error_comments(comments: &[Comment]) -> (r: (String, Vec<(String, String)>))
    ensures
        (r.0@, pair_views(r.1@)) == error_comment_docs(comments@),
{
    let (description, table) = scan_error_comments(comments);
    (string_from(description.as_slice()), table_strings(&table))
}

/// The texts of an error's NatSpec comments that say something, without a
/// leading `@notice `.
pub open spec fn error_comment_parts(cs: Seq<Comment>) -> Seq<Seq<char>>
    decreases cs.len(),
{
    if cs.len() == 0 {
        Seq::empty()
    } else {
        let r = error_comment_parts(cs.drop_last());
        let t = strip_prefix_or_keep(error_comment_text(cs.last()), "@notice "@);
        if t.len() > 0 {
            r.push(t)
        } else {
            r
        }
    }
}

/// The NatSpec comments of an error as one text, without `@notice ` tags,
/// joined by spaces.
pub fn combine_error_comments(comments: &[Comment]) -> (r: String)
    ensures
        r@ == join(error_comment_parts(comments@), " "@),
{
    let mut parts: Vec<Vec<char>> = Vec::new();
    let mut i: usize = 0;
    assert(comments@.take(0) =~= Seq::<Comment>::empty());
    assert(views(parts@) =~= error_comment_parts(comments@.take(0)));
    while i < comments.len()
        invariant
            i <= comments@.len(),
            views(parts@) == error_comment_parts(comments@.take(i as int)),
        decreases comments@.len() - i,
    {
        assert(comments@.take(i + 1).drop_last() =~= comments@.take(i as int));
        assert(comments@.take(i + 1).last() == comments@[i as int]);
        proof {
            reveal_strlit("@notice ");
        }
        let text = error_comment_text_chars(&comments[i]);
        let t = strip_prefix_chars(text.as_slice(), chars_of("@notice ").as_slice());
        if t.len() > 0 {
            push_view(&mut parts, t);
        }
        i = i + 1;
    }
    assert(comments@.take(i as int) =~= comments@);
    proof {
        reveal_strlit(" ");
    }
    let space: Vec<char> = vec![' '];
    assert(space@ =~= " "@);
    let joined = join_chars(&parts, space.as_slice());
    string_from(joined.as_slice())
}

/// The names of the named parameters (or values), in order.
pub open spec fn named_views(ps: Seq<Option<String>>) -> Seq<Seq<char>>
    decreases ps.len(),
{
    if ps.len() == 0 {
        Seq::empty()
    } else {
        named_views(ps.drop_last()) + match ps.last() {
            Some(n) => seq![n@],
            None => Seq::empty(),
        }
    }
}

/// A NatSpec block: `/**`, the description `hd`, then, if `section`, a blank
/// line and the `@param` entries of `names` (the last line break dropped),
/// and `*/`.
pub open spec fn param_block_docs(
    hd: Doc,
    section: bool,
    names: Seq<Seq<char>>,
    table: Seq<(Seq<char>, Seq<char>)>,
) -> Seq<Doc> {
    seq![
        Doc::Text("/**"@),
        Doc::Indent(
            seq![Doc::Hard, hd] + if section {
                (seq![Doc::Hard, Doc::Hard] + field_param_docs(names, table)).drop_last()
            } else {
                Seq::empty()
            },
        ),
        Doc::Hard,
        Doc::Text("*/"@),
    ]
}

/// The NatSpec block of an error with parameters `params` from its
/// comments: the description, then `@param` for each named parameter with
/// its description, or `TODO`.
pub open spec fn error_natspec_docs(cs: Seq<Comment>, params: Seq<Option<String>>) -> Seq<Doc> {
    let (description, table) = error_comment_docs(cs);
    param_block_docs(
        Doc::Group(word_break_docs(words(description))),
        params.len() > 0,
        named_views(params),
        table,
    )
}

/// The names of the named parameters.
fn named_strings(ps: &[Option<String>]) -> (r: Vec<String>)
    ensures
        str_views(r@) == named_views(ps@),
{
    let mut r: Vec<String> = Vec::new();
    let mut i: usize = 0;
    assert(ps@.take(0) =~= Seq::<Option<String>>::empty());
    assert(str_views(r@) =~= Seq::<Seq<char>>::empty());
    while i < ps.len()
        invariant
            i <= ps@.len(),
            str_views(r@) == named_views(ps@.take(i as int)),
        decreases ps@.len() - i,
    {
        assert(ps@.take(i + 1).drop_last() =~= ps@.take(i as int));
        assert(ps@.take(i + 1).last() == ps@[i as int]);
        let ghost before = str_views(r@);
        match &ps[i] {
            Some(n) => {
                r.push(n.clone());
                assert(str_views(r@) =~= before.push(n@));
            },
            None => {},
        }
        i = i + 1;
    }
    assert(ps@.take(i as int) =~= ps@);
    r
}

/// A NatSpec block with the description `head` and, if `section`, the
/// `@param` entries of `names`.
fn param_block(
    head: IRElement,
    Ghost(hd): Ghost<Doc>,
    section: bool,
    names: &[String],
    table: &Vec<(Vec<char>, Vec<char>)>,
) -> (r: Vec<IRElement>)
    requires
        doc_match(head, hd),
    ensures
        docs(r@, param_block_docs(hd, section, str_views(names@), table_views(table@))),
{
    let mut c: Vec<IRElement> = vec![IRElement::HardLineBreak, head];
    let ghost d0 = seq![Doc::Hard, hd];
    proof {
        lemma_docs(c@, d0);
    }
    if section {
        push_hard(&mut c, Ghost(d0));
        push_hard(&mut c, Ghost(d0.push(Doc::Hard)));
        let ghost d1 = d0.push(Doc::Hard).push(Doc::Hard);
        push_field_params(&mut c, names, table, Ghost(d1));
        let ghost full = d1 + field_param_docs(str_views(names@), table_views(table@));
        proof {
            lemma_docs_drop_last(c@, full);
        }
        c.pop();
        assert(full.drop_last() =~= seq![Doc::Hard, hd] + (seq![Doc::Hard, Doc::Hard] + field_param_docs(
            str_views(names@),
            table_views(table@),
        )).drop_last());
    } else {
        assert(d0 =~= d0 + Seq::<Doc>::empty());
    }
    let r = vec![IRElement::text("/**"), IRElement::Indent(c), IRElement::HardLineBreak, IRElement::text("*/")];
    proof {
        lemma_docs(r@, param_block_docs(hd, section, str_views(names@), table_views(table@)));
    }
    r
}

/// The NatSpec block of an error from its comments: the description (or
/// `TODO`), then `@param` for each named parameter with its documented
/// description, or `TODO`.
pub fn build_error_natspec_from_comments(comments: &[Comment], parameters: &[Option<String>]) -> (r: Vec<
    IRElement,
>)
    ensures
        docs(r@, error_natspec_docs(comments@, parameters@)),
{
    let (description, table) = scan_error_comments(comments);
    let dsv = string_from(description.as_slice());
    let head = IRElement::Group(text_with_word_breaks(dsv.as_str()));
    let names = named_strings(parameters);
    param_block(
        head,
        Ghost(Doc::Group(word_break_docs(words(description@)))),
        parameters.len() > 0,
        names.as_slice(),
        &table,
    )
}

/// The placeholder NatSpec block of an undocumented error: `TODO`, then
/// `@param name TODO` for each named parameter.
pub fn generate_error_natspec(parameters: &[Option<String>]) -> (r: Vec<IRElement>)
    ensures
        docs(r@, todo_natspec_docs(parameters@)),
{
    generate_enum_natspec(parameters)
}

/// A parameter's declaration: its type and, if it has one, its name.
pub open spec fn param_decl_docs(p: Parameter) -> Seq<Doc> {
    seq![doc_of(p.ty_ir)] + match p.name {
        Some(n) => seq![Doc::Text(" "@), Doc::Text(n@)],
        None => Seq::empty(),
    }
}

/// An error's parameter declarations, separated by a comma and a line break.
pub open spec fn error_param_list(ps: Seq<CommentedElement<Parameter>>) -> Seq<Doc>
    decreases ps.len(),
{
    if ps.len() == 0 {
        Seq::empty()
    } else {
        error_param_list(ps.drop_last()) + (if ps.len() > 1 {
            seq![Doc::Text(","@), Doc::Hard]
        } else {
            Seq::empty()
        }) + param_decl_docs(ps.last().element)
    }
}

/// `error Name (`, the parameters indented on lines of their own, `);`.
pub open spec fn error_definition_docs(name: Seq<char>, ps: Seq<CommentedElement<Parameter>>) -> Seq<Doc> {
    seq![Doc::Text("error"@), Doc::Text(" "@), Doc::Text(name), Doc::Text(" ("@)] + (if ps.len() > 0 {
        seq![Doc::Indent(seq![Doc::Hard] + error_param_list(ps)), Doc::Hard]
    } else {
        Seq::empty()
    }) + seq![Doc::Text(");"@)]
}

/// Each comment followed by a line break.
pub open spec fn comment_lines_docs(cs: Seq<Comment>) -> Seq<Doc>
    decreases cs.len(),
{
    if cs.len() == 0 {
        Seq::empty()
    } else {
        comment_lines_docs(cs.drop_last()) + seq![comment_doc(cs.last(), false), Doc::Hard]
    }
}

/// Comments after a definition, moved onto the lines below it.
pub open spec fn moved_comments_docs(cs: Seq<Comment>) -> Seq<Doc> {
    if cs.len() > 0 {
        seq![Doc::Hard] + comment_lines_docs(cs)
    } else {
        Seq::empty()
    }
}

/// The names of parameters.
pub open spec fn param_names(ps: Seq<CommentedElement<Parameter>>) -> Seq<Option<String>> {
    ps.map_values(|p: CommentedElement<Parameter>| p.element.name)
}

/// An error: its documentation (the comments as one comment when it has no
/// parameters, a NatSpec block with `@param` entries when it has some, a
/// placeholder block when it has no comments), the definition, and the
/// comments after it on the lines below.
pub open spec fn error_ir_docs(e: CollectedError) -> Seq<Doc> {
    let lead = e.definition.leading_comments@;
    let trail = e.definition.trailing_comments@;
    let names = param_names(e.parameters@);
    (if lead.len() > 0 || trail.len() > 0 {
        if lead.len() > 0 {
            if e.parameters.len() == 0 {
                seq![Doc::Comment(join(error_comment_parts(lead), " "@), true), Doc::Hard]
            } else {
                error_natspec_docs(lead, names).push(Doc::Hard)
            }
        } else {
            Seq::empty()
        }
    } else {
        todo_natspec_docs(names).push(Doc::Hard)
    }) + error_definition_docs(e.definition.element@, e.parameters@) + moved_comments_docs(trail)
}

/// Appends an element with its model.
pub(crate) fn push_doc(ir: &mut Vec<IRElement>, e: IRElement, Ghost(ds): Ghost<Seq<Doc>>, Ghost(d): Ghost<Doc>)
    requires
        docs(old(ir)@, ds),
        doc_match(e, d),
    ensures
        docs(final(ir)@, ds.push(d)),
{
    proof {
        lemma_docs_push(ir@, ds, e, d);
    }
    ir.push(e);
}

/// Appends the IR of the NatSpec block or placeholder elements `v`.
pub(crate) fn push_block(ir: &mut Vec<IRElement>, v: Vec<IRElement>, Ghost(ds): Ghost<Seq<Doc>>, Ghost(vd): Ghost<Seq<Doc>>)
    requires
        docs(old(ir)@, ds),
        docs(v@, vd),
    ensures
        docs(final(ir)@, ds + vd),
{
    let mut v = v;
    proof {
        lemma_docs_append(ir@, ds, v@, vd);
    }
    ir.append(&mut v);
}

/// Appends the comments after a definition on the lines below it.
pub(crate) fn push_moved_comments(ir: &mut Vec<IRElement>, cs: &Vec<Comment>, Ghost(ds): Ghost<Seq<Doc>>)
    requires
        docs(old(ir)@, ds),
    ensures
        docs(final(ir)@, ds + moved_comments_docs(cs@)),
{
    if cs.len() > 0 {
        push_hard(ir, Ghost(ds));
        let ghost d0 = ds.push(Doc::Hard);
        let mut i: usize = 0;
        assert(cs@.take(0) =~= Seq::<Comment>::empty());
        assert(d0 =~= d0 + comment_lines_docs(cs@.take(0)));
        while i < cs.len()
            invariant
                i <= cs@.len(),
                docs(ir@, d0 + comment_lines_docs(cs@.take(i as int))),
            decreases cs@.len() - i,
        {
            let ghost pre = d0 + comment_lines_docs(cs@.take(i as int));
            assert(cs@.take(i + 1).drop_last() =~= cs@.take(i as int));
            assert(cs@.take(i + 1).last() == cs@[i as int]);
            let e = build_comment(&cs[i]);
            push_doc(ir, e, Ghost(pre), Ghost(comment_doc(cs@[i as int], false)));
            push_hard(ir, Ghost(pre.push(comment_doc(cs@[i as int], false))));
            assert(pre.push(comment_doc(cs@[i as int], false)).push(Doc::Hard) =~= d0 + comment_lines_docs(
                cs@.take(i + 1),
            ));
            i = i + 1;
        }
        assert(cs@.take(i as int) =~= cs@);
        assert(d0 + comment_lines_docs(cs@) =~= ds + moved_comments_docs(cs@));
    } else {
        assert(ds =~= ds + moved_comments_docs(cs@));
    }
}

/// The names of the parameters, copied.
pub(crate) fn names_of(ps: &Vec<CommentedElement<Parameter>>) -> (r: Vec<Option<String>>)
    ensures
        r@ == param_names(ps@),
{
    let mut r: Vec<Option<String>> = Vec::new();
    let mut i: usize = 0;
    while i < ps.len()
        invariant
            i <= ps@.len(),
            r@ == param_names(ps@).take(i as int),
        decreases ps@.len() - i,
    {
        let n = match &ps[i].element.name {
            Some(x) => Some(x.clone()),
            None => None,
        };
        r.push(n);
        assert(r@ =~= param_names(ps@).take(i + 1));
        i = i + 1;
    }
    assert(param_names(ps@).take(i as int) =~= param_names(ps@));
    r
}

/// Appends the parameter declarations of an error.
fn push_error_params(
    ir: &mut Vec<IRElement>,
    params: Vec<CommentedElement<Parameter>>,
    Ghost(ds): Ghost<Seq<Doc>>,
)
    requires
        docs(old(ir)@, ds),
    ensures
        docs(final(ir)@, ds + error_param_list(params@)),
{
    let ghost orig = params@;
    let n = params.len();
    let mut rest = params;
    let mut i: usize = 0;
    assert(orig.take(0) =~= Seq::<CommentedElement<Parameter>>::empty());
    assert(ds =~= ds + error_param_list(orig.take(0)));
    while rest.len() > 0
        invariant
            i <= orig.len(),
            orig.len() == n,
            rest@ == orig.subrange(i as int, orig.len() as int),
            docs(ir@, ds + error_param_list(orig.take(i as int))),
        decreases rest@.len(),
    {
        let ghost pre = ds + error_param_list(orig.take(i as int));
        assert(orig.take(i + 1).drop_last() =~= orig.take(i as int));
        assert(orig.take(i + 1).last() == rest@[0]);
        let p = rest.remove(0);
        assert(rest@ =~= orig.subrange(i + 1, orig.len() as int));
        let ghost pv = p.element;
        let ghost sep = if i + 1 > 1 {
            seq![Doc::Text(","@), Doc::Hard]
        } else {
            Seq::<Doc>::empty()
        };
        if i > 0 {
            push_text(ir, ",", Ghost(pre));
            push_hard(ir, Ghost(pre.push(Doc::Text(","@))));
            assert(pre.push(Doc::Text(","@)).push(Doc::Hard) =~= pre + sep);
        } else {
            assert(pre =~= pre + sep);
        }
        let ghost p0 = pre + sep;
        let CommentedElement { element, leading_comments: _, trailing_comments: _ } = p;
        let Parameter { ty_ir, indexed: _, name } = element;
        proof {
            lemma_doc_of(ty_ir);
        }
        push_doc(ir, ty_ir, Ghost(p0), Ghost(doc_of(pv.ty_ir)));
        match name {
            Some(nm) => {
                push_text(ir, " ", Ghost(p0.push(doc_of(pv.ty_ir))));
                let ghost nv = nm@;
                push_doc(
                    ir,
                    IRElement::Text(nm),
                    Ghost(p0.push(doc_of(pv.ty_ir)).push(Doc::Text(" "@))),
                    Ghost(Doc::Text(nv)),
                );
                assert(p0.push(doc_of(pv.ty_ir)).push(Doc::Text(" "@)).push(Doc::Text(nv)) =~= ds
                    + error_param_list(orig.take(i + 1)));
            },
            None => {
                assert(p0.push(doc_of(pv.ty_ir)) =~= ds + error_param_list(orig.take(i + 1)));
            },
        }
        i = i + 1;
    }
    assert(orig.take(i as int) =~= orig);
}

/// `error Name (`, the parameters indented on lines of their own, `);`.
fn build_error_definition(name: String, parameters: Vec<CommentedElement<Parameter>>) -> (r: Vec<IRElement>)
    ensures
        docs(r@, error_definition_docs(name@, parameters@)),
{
    let ghost nv = name@;
    let ghost ps = parameters@;
    let mut ir: Vec<IRElement> = vec![
        IRElement::text("error"),
        IRElement::text(" "),
        IRElement::Text(name),
        IRElement::text(" ("),
    ];
    let ghost d0 = seq![Doc::Text("error"@), Doc::Text(" "@), Doc::Text(nv), Doc::Text(" ("@)];
    proof {
        lemma_docs(ir@, d0);
    }
    let ghost mid = if ps.len() > 0 {
        seq![Doc::Indent(seq![Doc::Hard] + error_param_list(ps)), Doc::Hard]
    } else {
        Seq::<Doc>::empty()
    };
    if parameters.len() > 0 {
        let mut content: Vec<IRElement> = vec![IRElement::HardLineBreak];
        proof {
            lemma_docs(content@, seq![Doc::Hard]);
        }
        let ghost h = seq![Doc::Hard];
        push_error_params(&mut content, parameters, Ghost(h));
        push_doc(
            &mut ir,
            IRElement::Indent(content),
            Ghost(d0),
            Ghost(Doc::Indent(seq![Doc::Hard] + error_param_list(ps))),
        );
        push_hard(&mut ir, Ghost(d0.push(Doc::Indent(seq![Doc::Hard] + error_param_list(ps)))));
        assert(d0.push(Doc::Indent(seq![Doc::Hard] + error_param_list(ps))).push(Doc::Hard) =~= d0 + mid);
    } else {
        assert(d0 =~= d0 + mid);
    }
    push_text(&mut ir, ");", Ghost(d0 + mid));
    assert((d0 + mid).push(Doc::Text(");"@)) =~= error_definition_docs(nv, ps));
    ir
}

/// An error: its documentation (the comments as one comment when it has no
/// parameters, a NatSpec block with `@param` entries when it has some, a
/// placeholder block when it has no comments), the definition, and the
/// comments after it moved onto the lines below.
#[verifier::spinoff_prover]
pub fn build_error_ir(error_def: CollectedError) -> (r: Vec<IRElement>)
    ensures
        docs(r@, error_ir_docs(error_def)),
{
    let ghost e = error_def;
    let CollectedError { definition, parameters } = error_def;
    let CommentedElement { element: name, leading_comments, trailing_comments } = definition;
    let names = names_of(&parameters);
    let mut ir: Vec<IRElement> = Vec::new();
    let ghost lead = leading_comments@;
    let ghost pre = if lead.len() > 0 || trailing_comments@.len() > 0 {
        if lead.len() > 0 {
            if parameters@.len() == 0 {
                seq![Doc::Comment(join(error_comment_parts(lead), " "@), true), Doc::Hard]
            } else {
                error_natspec_docs(lead, names@).push(Doc::Hard)
            }
        } else {
            Seq::<Doc>::empty()
        }
    } else {
        todo_natspec_docs(names@).push(Doc::Hard)
    };
    assert(docs(ir@, Seq::<Doc>::empty()));
    if leading_comments.len() > 0 || trailing_comments.len() > 0 {
        if leading_comments.len() > 0 {
            if parameters.len() == 0 {
                let combined = combine_error_comments(leading_comments.as_slice());
                let ghost cv = combined@;
                let c = IRElement::comment(combined.as_str(), true);
                push_doc(&mut ir, c, Ghost(Seq::empty()), Ghost(Doc::Comment(cv, true)));
                let ghost one = seq![Doc::Comment(cv, true)];
                assert(Seq::<Doc>::empty().push(Doc::Comment(cv, true)) =~= one);
                push_hard(&mut ir, Ghost(one));
                assert(one.push(Doc::Hard) =~= pre);
            } else {
                let block = build_error_natspec_from_comments(leading_comments.as_slice(), names.as_slice());
                push_block(&mut ir, block, Ghost(Seq::empty()), Ghost(error_natspec_docs(lead, names@)));
                push_hard(&mut ir, Ghost(Seq::<Doc>::empty() + error_natspec_docs(lead, names@)));
                assert((Seq::<Doc>::empty() + error_natspec_docs(lead, names@)).push(Doc::Hard) =~= pre);
            }
        } else {
            assert(ir@ =~= Seq::<IRElement>::empty());
        }
    } else {
        let block = generate_error_natspec(names.as_slice());
        push_block(&mut ir, block, Ghost(Seq::empty()), Ghost(todo_natspec_docs(names@)));
        push_hard(&mut ir, Ghost(Seq::<Doc>::empty() + todo_natspec_docs(names@)));
        assert((Seq::<Doc>::empty() + todo_natspec_docs(names@)).push(Doc::Hard) =~= pre);
    }
    assert(docs(ir@, pre));
    let ghost dd = error_definition_docs(e.definition.element@, e.parameters@);
    let def = build_error_definition(name, parameters);
    push_block(&mut ir, def, Ghost(pre), Ghost(dd));
    push_moved_comments(&mut ir, &trailing_comments, Ghost(pre + dd));
    assert(pre + dd + moved_comments_docs(trailing_comments@) =~= error_ir_docs(e));
    ir
}

/// The name of an enum value, empty when it has none.
pub open spec fn value_name(v: CommentedElement<Option<String>>) -> Seq<char> {
    match v.element {
        Some(n) => n@,
        None => Seq::empty(),
    }
}

/// Each comment on a line of its own, indented, before a value.
pub open spec fn comments_above_docs(cs: Seq<Comment>) -> Seq<Doc>
    decreases cs.len(),
{
    if cs.len() == 0 {
        Seq::empty()
    } else {
        comments_above_docs(cs.drop_last()) + seq![Doc::Hard, Doc::Indent(seq![comment_doc(cs.last(), false)])]
    }
}

/// Each comment indented and followed by a line break.
pub open spec fn comments_below_docs(cs: Seq<Comment>) -> Seq<Doc>
    decreases cs.len(),
{
    if cs.len() == 0 {
        Seq::empty()
    } else {
        comments_below_docs(cs.drop_last()) + seq![Doc::Indent(seq![comment_doc(cs.last(), false)]), Doc::Hard]
    }
}

/// One enum value of `n`: the comments before it, the value on an indented
/// line, a comma unless it is the last, and the comments after it moved
/// onto the lines below.
pub open spec fn value_entry_docs(v: CommentedElement<Option<String>>, last: bool) -> Seq<Doc> {
    comments_above_docs(v.leading_comments@) + seq![Doc::Hard, Doc::Indent(seq![Doc::Text(value_name(v))])]
        + (if last {
        Seq::empty()
    } else {
        seq![Doc::Text(","@)]
    }) + (if v.trailing_comments@.len() > 0 {
        seq![Doc::Hard] + comments_below_docs(v.trailing_comments@)
    } else {
        Seq::empty()
    })
}

/// The entries of the values `vs`, the first of `n` values.
pub open spec fn value_entries_docs(vs: Seq<CommentedElement<Option<String>>>, n: int) -> Seq<Doc>
    decreases vs.len(),
{
    if vs.len() == 0 {
        Seq::empty()
    } else {
        value_entries_docs(vs.drop_last(), n) + value_entry_docs(vs.last(), vs.len() >= n)
    }
}

/// `enum Name {`, the values, `}`.
pub open spec fn enum_definition_docs(name: Seq<char>, vs: Seq<CommentedElement<Option<String>>>) -> Seq<Doc> {
    seq![Doc::Text("enum"@), Doc::Text(" "@), Doc::Text(name), Doc::Text(" "@), Doc::Text("{"@)] + (if vs.len()
        > 0 {
        value_entries_docs(vs, vs.len() as int).push(Doc::Hard)
    } else {
        Seq::empty()
    }) + seq![Doc::Text("}"@)]
}

/// The names of enum values.
pub open spec fn value_names(vs: Seq<CommentedElement<Option<String>>>) -> Seq<Option<String>> {
    vs.map_values(|v: CommentedElement<Option<String>>| v.element)
}

/// An enum: its NatSpec block (from its comments when it has any, else a
/// placeholder), the definition, and the comments after it moved onto the
/// lines below.
pub open spec fn enum_ir_docs(e: CollectedEnum) -> Seq<Doc> {
    let lead = e.definition.leading_comments@;
    let trail = e.definition.trailing_comments@;
    (if lead.len() > 0 || trail.len() > 0 {
        enum_natspec_docs(lead, value_names(e.values@))
    } else {
        todo_natspec_docs(value_names(e.values@))
    }).push(Doc::Hard) + enum_definition_docs(e.definition.element@, e.values@) + moved_comments_docs(trail)
}

/// Appends each comment on an indented line of its own, each preceded by a
/// line break when `above`, else followed by one.
fn push_value_comments(ir: &mut Vec<IRElement>, cs: &Vec<Comment>, above: bool, Ghost(ds): Ghost<Seq<Doc>>)
    requires
        docs(old(ir)@, ds),
    ensures
        docs(
            final(ir)@,
            ds + if above {
                comments_above_docs(cs@)
            } else {
                comments_below_docs(cs@)
            },
        ),
{
    let ghost f = |x: Seq<Comment>| if above {
        comments_above_docs(x)
    } else {
        comments_below_docs(x)
    };
    let mut i: usize = 0;
    assert(cs@.take(0) =~= Seq::<Comment>::empty());
    assert(ds =~= ds + f(cs@.take(0)));
    while i < cs.len()
        invariant
            i <= cs@.len(),
            f == (|x: Seq<Comment>| if above {
                comments_above_docs(x)
            } else {
                comments_below_docs(x)
            }),
            docs(ir@, ds + f(cs@.take(i as int))),
        decreases cs@.len() - i,
    {
        let ghost pre = ds + f(cs@.take(i as int));
        assert(cs@.take(i + 1).drop_last() =~= cs@.take(i as int));
        assert(cs@.take(i + 1).last() == cs@[i as int]);
        let c = build_comment(&cs[i]);
        let ghost cd = comment_doc(cs@[i as int], false);
        let line = vec![c];
        proof {
            lemma_docs(line@, seq![cd]);
        }
        let e = IRElement::Indent(line);
        if above {
            push_hard(ir, Ghost(pre));
            push_doc(ir, e, Ghost(pre.push(Doc::Hard)), Ghost(Doc::Indent(seq![cd])));
            assert(pre.push(Doc::Hard).push(Doc::Indent(seq![cd])) =~= ds + f(cs@.take(i + 1)));
        } else {
            push_doc(ir, e, Ghost(pre), Ghost(Doc::Indent(seq![cd])));
            push_hard(ir, Ghost(pre.push(Doc::Indent(seq![cd]))));
            assert(pre.push(Doc::Indent(seq![cd])).push(Doc::Hard) =~= ds + f(cs@.take(i + 1)));
        }
        i = i + 1;
    }
    assert(cs@.take(i as int) =~= cs@);
}

/// `enum Name {`, each value on an indented line with the comments around
/// it, `}`.
fn build_enum_definition(enum_def: &CollectedEnum) -> (r: Vec<IRElement>)
    ensures
        docs(r@, enum_definition_docs(enum_def.definition.element@, enum_def.values@)),
{
    let name = &enum_def.definition.element;
    let vs = &enum_def.values;
    let mut ir: Vec<IRElement> = vec![
        IRElement::text("enum"),
        IRElement::text(" "),
        IRElement::text(name.as_str()),
        IRElement::text(" "),
        IRElement::text("{"),
    ];
    let ghost d0 = seq![Doc::Text("enum"@), Doc::Text(" "@), Doc::Text(name@), Doc::Text(" "@), Doc::Text("{"@)];
    proof {
        lemma_docs(ir@, d0);
    }
    let ghost n = vs@.len() as int;
    let ghost mid = if n > 0 {
        value_entries_docs(vs@, n).push(Doc::Hard)
    } else {
        Seq::<Doc>::empty()
    };
    if vs.len() > 0 {
        let mut i: usize = 0;
        assert(vs@.take(0) =~= Seq::<CommentedElement<Option<String>>>::empty());
        assert(d0 =~= d0 + value_entries_docs(vs@.take(0), n));
        while i < vs.len()
            invariant
                i <= vs@.len(),
                n == vs@.len(),
                docs(ir@, d0 + value_entries_docs(vs@.take(i as int), n)),
            decreases vs@.len() - i,
        {
            let ghost pre = d0 + value_entries_docs(vs@.take(i as int), n);
            assert(vs@.take(i + 1).drop_last() =~= vs@.take(i as int));
            assert(vs@.take(i + 1).last() == vs@[i as int]);
            let v = &vs[i];
            push_value_comments(&mut ir, &v.leading_comments, true, Ghost(pre));
            let ghost p1 = pre + comments_above_docs(v.leading_comments@);
            push_hard(&mut ir, Ghost(p1));
            let ghost nd = Doc::Text(value_name(*v));
            let nm = match &v.element {
                Some(x) => IRElement::text(x.as_str()),
                None => {
                    proof {
                        reveal_strlit("");
                    }
                    let e = IRElement::text("");
                    assert(""@ =~= Seq::<char>::empty());
                    e
                },
            };
            assert(doc_match(nm, nd));
            let line = vec![nm];
            proof {
                lemma_docs(line@, seq![nd]);
            }
            push_doc(&mut ir, IRElement::Indent(line), Ghost(p1.push(Doc::Hard)), Ghost(Doc::Indent(seq![nd])));
            let ghost p2 = p1.push(Doc::Hard).push(Doc::Indent(seq![nd]));
            let ghost comma = if i + 1 >= n {
                Seq::<Doc>::empty()
            } else {
                seq![Doc::Text(","@)]
            };
            if i < vs.len() - 1 {
                push_text(&mut ir, ",", Ghost(p2));
                assert(p2.push(Doc::Text(","@)) =~= p2 + comma);
            } else {
                assert(p2 =~= p2 + comma);
            }
            let ghost p3 = p2 + comma;
            let ghost below = if v.trailing_comments@.len() > 0 {
                seq![Doc::Hard] + comments_below_docs(v.trailing_comments@)
            } else {
                Seq::<Doc>::empty()
            };
            if v.trailing_comments.len() > 0 {
                push_hard(&mut ir, Ghost(p3));
                push_value_comments(&mut ir, &v.trailing_comments, false, Ghost(p3.push(Doc::Hard)));
                assert(p3.push(Doc::Hard) + comments_below_docs(v.trailing_comments@) =~= p3 + below);
            } else {
                assert(p3 =~= p3 + below);
            }
            assert(p3 + below =~= d0 + value_entries_docs(vs@.take(i + 1), n));
            i = i + 1;
        }
        assert(vs@.take(i as int) =~= vs@);
        push_hard(&mut ir, Ghost(d0 + value_entries_docs(vs@, n)));
        assert((d0 + value_entries_docs(vs@, n)).push(Doc::Hard) =~= d0 + mid);
    } else {
        assert(d0 =~= d0 + mid);
    }
    push_text(&mut ir, "}", Ghost(d0 + mid));
    assert((d0 + mid).push(Doc::Text("}"@)) =~= enum_definition_docs(name@, vs@));
    ir
}

/// The names of the values, copied.
fn value_names_of(vs: &Vec<CommentedElement<Option<String>>>) -> (r: Vec<Option<String>>)
    ensures
        r@ == value_names(vs@),
{
    let mut r: Vec<Option<String>> = Vec::new();
    let mut i: usize = 0;
    while i < vs.len()
        invariant
            i <= vs@.len(),
            r@ == value_names(vs@).take(i as int),
        decreases vs@.len() - i,
    {
        let n = match &vs[i].element {
            Some(x) => Some(x.clone()),
            None => None,
        };
        r.push(n);
        assert(r@ =~= value_names(vs@).take(i + 1));
        i = i + 1;
    }
    assert(value_names(vs@).take(i as int) =~= value_names(vs@));
    r
}

/// An enum: its NatSpec block (built from its comments when it has any,
/// else a placeholder with `TODO`s), the definition, and the comments after
/// it moved onto the lines below.
pub fn build_enum_ir(enum_def: &CollectedEnum) -> (r: Vec<IRElement>)
    ensures
        docs(r@, enum_ir_docs(*enum_def)),
{
    let names = value_names_of(&enum_def.values);
    let lead = &enum_def.definition.leading_comments;
    let trail = &enum_def.definition.trailing_comments;
    let ghost block = if lead@.len() > 0 || trail@.len() > 0 {
        enum_natspec_docs(lead@, names@)
    } else {
        todo_natspec_docs(names@)
    };
    let mut ir = if lead.len() > 0 || trail.len() > 0 {
        build_enum_natspec_from_comments(lead.as_slice(), names.as_slice())
    } else {
        generate_enum_natspec(names.as_slice())
    };
    push_hard(&mut ir, Ghost(block));
    let ghost dd = enum_definition_docs(enum_def.definition.element@, enum_def.values@);
    let def = build_enum_definition(enum_def);
    push_block(&mut ir, def, Ghost(block.push(Doc::Hard)), Ghost(dd));
    push_moved_comments(&mut ir, trail, Ghost(block.push(Doc::Hard) + dd));
    assert(block.push(Doc::Hard) + dd + moved_comments_docs(trail@) =~= enum_ir_docs(*enum_def));
    ir
}

} // verus!
