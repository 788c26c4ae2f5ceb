//! The NatSpec block of a function: description, documented and TODO
//! parameters, return tags and other tags.
use vstd::prelude::*;
use crate::ir_builder::expressions::{normalize_param_name, normalized_name};
use crate::ir_builder::ir::{doc_match, docs, lemma_docs, Doc, IRElement};
use crate::ir_builder::variables::after;
use crate::ir_builder::{
    lemma_docs_append, lemma_docs_drop_last, lemma_docs_push, text_with_word_breaks, word_break_docs,
};
use crate::text::{
    chars_equal, chars_of, first_index, has_prefix, is_whitespace, is_ws, join, join_chars,
    lemma_first_index, push_all, slice_chars, split_words, starts_with, str_views, string_from,
    trim, trim_chars, views, words,
};

verus! {

/// What Unicode says of a character's case: whether it is lowercase
/// (`char::is_lowercase`).
pub uninterp spec fn lowercase_char(c: char) -> bool;

/// `char::is_lowercase`. Trusted: the result is the Unicode `Lowercase`
/// property of the character, named by `lowercase_char`.
#[verifier::external_body]
fn char_is_lowercase(c: char) -> (b: bool)
    ensures
        b == lowercase_char(c),
{
    c.is_lowercase()
}

/// The section that a plain line continues.
#[derive(Debug, Clone, Copy, PartialEq, Eq, Structural)]
pub enum FnContext {
    /// The description.
    Description,
    /// A notice.
    Notice,
    /// The last `@param` tag.
    Param,
    /// The last `@return` tag.
    Return,
    /// The last other tag.
    Other,
}

/// What a function's NatSpec lines provide.
pub struct FnDocs {
    /// `@dev` texts and plain lines.
    pub desc: Seq<Seq<char>>,
    /// `@notice` texts.
    pub notices: Seq<Seq<char>>,
    /// `@param` tags as written.
    pub param_docs: Seq<Seq<char>>,
    /// The names that `@param` tags document.
    pub documented: Seq<Seq<char>>,
    /// `@return` tags with a `_` placeholder name.
    pub return_docs: Seq<Seq<char>>,
    /// Other tags.
    pub others: Seq<Seq<char>>,
    /// The section that a plain line continues.
    pub ctx: FnContext,
}

/// The index of the first whitespace character, if any.
pub open spec fn ws_index(s: Seq<char>) -> Option<int>
    decreases s.len(),
{
    if s.len() == 0 {
        None
    } else if is_ws(s[0]) {
        Some(0)
    } else {
        match ws_index(s.subrange(1, s.len() as int)) {
            Some(k) => Some(k + 1),
            None => None,
        }
    }
}

/// A `@return` tag with the `_` placeholder: a leading lowercase word
/// followed by more text is taken as the variable's name and dropped.
pub open spec fn return_entry(t: Seq<char>) -> Seq<char> {
    let rc = trim(after(t, 8));
    if has_prefix(rc, "_ "@) || has_prefix(rc, seq!['_', '\t']) {
        t
    } else {
        let (first, rest) = match ws_index(rc) {
            Some(k) => (rc.subrange(0, k), trim(rc.subrange(k + 1, rc.len() as int))),
            None => (rc, Seq::empty()),
        };
        if first.len() > 0 && lowercase_char(first[0]) && rest.len() > 0 {
            "@return _ "@ + rest
        } else {
            "@return _ "@ + rc
        }
    }
}

/// `s` with ` t` appended to its last entry.
pub open spec fn extend_last(s: Seq<Seq<char>>, t: Seq<char>) -> Seq<Seq<char>> {
    s.drop_last().push(s.last() + seq![' '] + t)
}

/// The parts after one more line.
pub open spec fn fn_line(s: FnDocs, line: Seq<char>) -> FnDocs {
    let t = trim(line);
    if has_prefix(t, "@notice "@) {
        FnDocs { notices: s.notices.push(trim(after(t, 8))), ctx: FnContext::Notice, ..s }
    } else if has_prefix(t, "@param "@) {
        let ws = words(after(t, 7));
        FnDocs {
            param_docs: s.param_docs.push(t),
            documented: if ws.len() > 0 {
                s.documented.push(ws[0])
            } else {
                s.documented
            },
            ctx: FnContext::Param,
            ..s
        }
    } else if has_prefix(t, "@return "@) {
        FnDocs { return_docs: s.return_docs.push(return_entry(t)), ctx: FnContext::Return, ..s }
    } else if has_prefix(t, "@custom:semver"@) {
        FnDocs { ctx: FnContext::Other, ..s }
    } else if has_prefix(t, "@dev "@) {
        FnDocs { desc: s.desc.push(trim(after(t, 5))), ctx: FnContext::Description, ..s }
    } else if has_prefix(t, "@"@) {
        FnDocs { others: s.others.push(t), ctx: FnContext::Other, ..s }
    } else if t.len() > 0 {
        match s.ctx {
            FnContext::Param => if s.param_docs.len() > 0 {
                FnDocs { param_docs: extend_last(s.param_docs, t), ..s }
            } else {
                FnDocs { desc: s.desc.push(t), ..s }
            },
            FnContext::Return => if s.return_docs.len() > 0 {
                FnDocs { return_docs: extend_last(s.return_docs, t), ..s }
            } else {
                FnDocs { desc: s.desc.push(t), ..s }
            },
            FnContext::Other => if s.others.len() > 0 {
                FnDocs { others: extend_last(s.others, t), ..s }
            } else {
                FnDocs { desc: s.desc.push(t), ..s }
            },
            _ => FnDocs { desc: s.desc.push(t), ..s },
        }
    } else {
        s
    }
}

/// What the lines provide, in order.
pub open spec fn fn_scan(ls: Seq<Seq<char>>) -> FnDocs
    decreases ls.len(),
{
    if ls.len() == 0 {
        FnDocs {
            desc: Seq::empty(),
            notices: Seq::empty(),
            param_docs: Seq::empty(),
            documented: Seq::empty(),
            return_docs: Seq::empty(),
            others: Seq::empty(),
            ctx: FnContext::Description,
        }
    } else {
        fn_line(fn_scan(ls.drop_last()), ls.last())
    }
}

/// `@param name TODO` for each named parameter documented under neither
/// its name nor its normalized name, in order.
pub open spec fn todo_params(names: Seq<Option<String>>, documented: Seq<Seq<char>>) -> Seq<
    Seq<char>,
>
    decreases names.len(),
{
    if names.len() == 0 {
        Seq::empty()
    } else {
        let pre = todo_params(names.drop_last(), documented);
        match names.last() {
            Some(n) => if !documented.contains(n@) && !documented.contains(normalized_name(n@)) {
                pre.push("@param "@ + normalized_name(n@) + " TODO"@)
            } else {
                pre
            },
            None => pre,
        }
    }
}

/// The index of the first `"  "` in `s`, if any.
pub open spec fn double_space_index(s: Seq<char>) -> Option<int>
    decreases s.len(),
{
    if s.len() < 2 {
        None
    } else if s[0] == ' ' && s[1] == ' ' {
        Some(0)
    } else {
        match double_space_index(s.subrange(1, s.len() as int)) {
            Some(k) => Some(k + 1),
            None => None,
        }
    }
}

/// The IR of one parameter tag: the tag and normalized name kept together,
/// the description able to wrap with extra indentation.
pub open spec fn param_doc_docs(p: Seq<char>) -> Doc {
    match double_space_index(p) {
        Some(k) => {
            let part = trim(p.subrange(0, k));
            let desc = trim(p.subrange(k + 2, p.len() as int));
            let head = if has_prefix(part, "@param "@) {
                "@param "@ + normalized_name(after(part, 7))
            } else {
                part
            };
            Doc::Group(
                seq![Doc::Text(head), Doc::Indent(seq![Doc::Soft] + word_break_docs(words(desc)))],
            )
        },
        None => match first_index(p, ' ') {
            Some(k1) => {
                let tail = p.subrange(k1 + 1, p.len() as int);
                match first_index(tail, ' ') {
                    Some(k2) => Doc::Group(
                        seq![
                            Doc::Text(
                                p.subrange(0, k1) + seq![' '] + normalized_name(tail.subrange(0, k2)),
                            ),
                            Doc::Indent(
                                seq![Doc::Soft] + word_break_docs(
                                    words(tail.subrange(k2 + 1, tail.len() as int)),
                                ),
                            ),
                        ],
                    ),
                    None => Doc::Text(p),
                }
            },
            None => Doc::Text(p),
        },
    }
}

/// The IR of one return tag: `@return name ` kept together, the
/// description able to wrap.
pub open spec fn return_doc_docs(r: Seq<char>) -> Doc {
    if has_prefix(r, "@return "@) {
        let rest = after(r, 8);
        match first_index(rest, ' ') {
            Some(k) => Doc::Group(
                seq![
                    Doc::Text("@return "@ + rest.subrange(0, k) + seq![' ']),
                    Doc::Indent(
                        seq![
                            Doc::Group(
                                word_break_docs(words(rest.subrange(k + 1, rest.len() as int))),
                            ),
                        ],
                    ),
                ],
            ),
            None => Doc::Text(r),
        }
    } else {
        Doc::Text(r)
    }
}

/// Each parameter tag followed by a line break.
pub open spec fn param_list_docs(ps: Seq<Seq<char>>) -> Seq<Doc>
    decreases ps.len(),
{
    if ps.len() == 0 {
        Seq::empty()
    } else {
        param_list_docs(ps.drop_last()) + seq![param_doc_docs(ps.last()), Doc::Hard]
    }
}

/// Each return tag followed by a line break.
pub open spec fn return_list_docs(rs: Seq<Seq<char>>) -> Seq<Doc>
    decreases rs.len(),
{
    if rs.len() == 0 {
        Seq::empty()
    } else {
        return_list_docs(rs.drop_last()) + seq![return_doc_docs(rs.last()), Doc::Hard]
    }
}

/// Each text followed by a line break.
pub open spec fn text_list_docs(ts: Seq<Seq<char>>) -> Seq<Doc>
    decreases ts.len(),
{
    if ts.len() == 0 {
        Seq::empty()
    } else {
        text_list_docs(ts.drop_last()) + seq![Doc::Text(ts.last()), Doc::Hard]
    }
}

/// The body of a function's NatSpec block, before its last line break is
/// removed: the description and a blank line when tags follow; the
/// parameter tags; the return tags when the function returns something (a
/// `@return _ TODO` when none is documented), after a blank line if
/// parameter tags came first; the other tags.
pub open spec fn fn_body_docs(
    ps: Seq<Seq<char>>,
    all_desc: Seq<Seq<char>>,
    rets: Seq<Seq<char>>,
    others: Seq<Seq<char>>,
    has_returns: bool,
) -> Seq<Doc> {
    seq![Doc::Hard] + (if all_desc.len() > 0 {
        seq![Doc::Group(word_break_docs(words(join(all_desc, " "@)))), Doc::Hard] + (if ps.len() > 0
            || rets.len() > 0 || has_returns || others.len() > 0 {
            seq![Doc::Hard]
        } else {
            Seq::empty()
        })
    } else {
        Seq::empty()
    }) + param_list_docs(ps) + (if has_returns {
        (if ps.len() > 0 {
            seq![Doc::Hard]
        } else {
            Seq::empty()
        }) + if rets.len() > 0 {
            return_list_docs(rets)
        } else {
            seq![Doc::Text("@return _ TODO"@), Doc::Hard]
        }
    } else {
        Seq::empty()
    }) + text_list_docs(others)
}

/// The body of a function's NatSpec block: notices before the other
/// description lines, and TODO tags for undocumented parameters.
pub open spec fn fn_content_docs(
    s: FnDocs,
    names: Seq<Option<String>>,
    has_returns: bool,
) -> Seq<Doc> {
    fn_body_docs(
        s.param_docs + todo_params(names, s.documented),
        s.notices + s.desc,
        s.return_docs,
        s.others,
        has_returns,
    )
}

/// The NatSpec block of a function with parameters named `names` (`None`
/// for an unnamed one), documented by `lines`.
pub open spec fn fn_natspec_docs(
    lines: Seq<Seq<char>>,
    names: Seq<Option<String>>,
    has_returns: bool,
) -> Seq<Doc> {
    seq![
        Doc::Text("/**"@),
        Doc::Indent(fn_content_docs(fn_scan(lines), names, has_returns).drop_last()),
        Doc::Hard,
        Doc::Text("*/"@),
    ]
}

/// The gathered parts, held as character vectors.
struct FnState {
    desc: Vec<Vec<char>>,
    notices: Vec<Vec<char>>,
    param_docs: Vec<Vec<char>>,
    documented: Vec<Vec<char>>,
    return_docs: Vec<Vec<char>>,
    others: Vec<Vec<char>>,
    ctx: FnContext,
}

impl FnState {
    spec fn parts(&self) -> FnDocs {
        FnDocs {
            desc: views(self.desc@),
            notices: views(self.notices@),
            param_docs: views(self.param_docs@),
            documented: views(self.documented@),
            return_docs: views(self.return_docs@),
            others: views(self.others@),
            ctx: self.ctx,
        }
    }
}

/// Pushes a character vector, extending the views.
pub(crate) fn push_view(v: &mut Vec<Vec<char>>, x: Vec<char>)
    ensures
        views(final(v)@) == views(old(v)@).push(x@),
{
    let ghost before = views(v@);
    let ghost xv = x@;
    v.push(x);
    assert(views(v@) =~= before.push(xv));
}

/// Appends ` t` to the last entry.
pub(crate) fn extend_last_chars(v: &mut Vec<Vec<char>>, t: &[char])
    requires
        old(v)@.len() > 0,
    ensures
        views(final(v)@) == extend_last(views(old(v)@), t@),
{
    let ghost before = views(v@);
    let ghost ov = v@;
    assert(before.last() == ov.last()@);
    let mut last = v.pop().unwrap();
    assert(views(v@) =~= before.drop_last());
    let ghost l0 = last@;
    last.push(' ');
    push_all(&mut last, t);
    assert(last@ =~= l0 + seq![' '] + t@);
    push_view(v, last);
}

/// The index of the first whitespace character, if any.
pub(crate) fn find_ws(s: &[char]) -> (r: Option<usize>)
    ensures
        r == (match ws_index(s@) {
            Some(k) => Some(k as usize),
            None => None::<usize>,
        }),
{
    let mut i: usize = 0;
    assert(s@.subrange(0, s@.len() as int) =~= s@);
    while i < s.len()
        invariant
            i <= s@.len(),
            ws_index(s@) == (match ws_index(s@.subrange(i as int, s@.len() as int)) {
                Some(k) => Some(k + i),
                None => None,
            }),
        decreases s@.len() - i,
    {
        let ghost t = s@.subrange(i as int, s@.len() as int);
        if is_whitespace(s[i]) {
            return Some(i);
        }
        assert(t.subrange(1, t.len() as int) =~= s@.subrange(i + 1, s@.len() as int));
        i = i + 1;
    }
    None
}

/// A `@return` tag with the `_` placeholder.
fn return_entry_chars(t: &[char]) -> (r: Vec<char>)
    requires
        has_prefix(t@, "@return "@),
    ensures
        r@ == return_entry(t@),
{
    proof {
        reveal_strlit("@return ");
        reveal_strlit("_ ");
    }
    let tail = slice_chars(t, 8, t.len());
    let rc = trim_chars(tail.as_slice());
    let us: Vec<char> = vec!['_', ' '];
    let ut: Vec<char> = vec!['_', '\t'];
    assert(us@ =~= "_ "@);
    assert(ut@ =~= seq!['_', '\t']);
    if starts_with(rc.as_slice(), us.as_slice()) || starts_with(rc.as_slice(), ut.as_slice()) {
        let same = slice_chars(t, 0, t.len());
        assert(same@ =~= t@);
        return same;
    }
    let n = rc.len();
    let ghost rv = rc@;
    let (first, rest) = match find_ws(rc.as_slice()) {
        Some(k) => {
            proof {
                lemma_ws_index(rv);
            }
            let f = slice_chars(rc.as_slice(), 0, k);
            let after_ws = slice_chars(rc.as_slice(), k + 1, n);
            (f, trim_chars(after_ws.as_slice()))
        },
        None => {
            let f = slice_chars(rc.as_slice(), 0, n);
            assert(f@ =~= rv);
            (f, Vec::new())
        },
    };
    let mut out = chars_of("@return _ ");
    if first.len() > 0 && char_is_lowercase(first[0]) && rest.len() > 0 {
        push_all(&mut out, rest.as_slice());
    } else {
        push_all(&mut out, rc.as_slice());
    }
    out
}

/// `ws_index` finds a position inside the text.
pub(crate) proof fn lemma_ws_index(s: Seq<char>)
    ensures
        ws_index(s) matches Some(k) ==> 0 <= k < s.len(),
    decreases s.len(),
{
    if s.len() > 0 {
        lemma_ws_index(s.subrange(1, s.len() as int));
    }
}

/// Takes one more NatSpec line.
#[verifier::spinoff_prover]
fn fn_step(st: &mut FnState, line: &String)
    ensures
        final(st).parts() == fn_line(old(st).parts(), line@),
{
    let lc = chars_of(line.as_str());
    let t = trim_chars(lc.as_slice());
    let ghost s0 = st.parts();
    let ghost tv = trim(line@);
    assert(t@ == tv);
    assert(views(st.param_docs@).len() == st.param_docs@.len());
    assert(views(st.return_docs@).len() == st.return_docs@.len());
    assert(views(st.others@).len() == st.others@.len());
    proof {
        reveal_strlit("@notice ");
        reveal_strlit("@param ");
        reveal_strlit("@dev ");
    }
    let n = t.len();
    if starts_with(t.as_slice(), chars_of("@notice ").as_slice()) {
        let rest = slice_chars(t.as_slice(), 8, n);
        push_view(&mut st.notices, trim_chars(rest.as_slice()));
        st.ctx = FnContext::Notice;
    } else if starts_with(t.as_slice(), chars_of("@param ").as_slice()) {
        let rest = slice_chars(t.as_slice(), 7, n);
        let ws = split_words(rest.as_slice());
        assert(views(ws@).len() == ws@.len());
        if ws.len() > 0 {
            assert(views(ws@)[0] == ws@[0]@);
            let first = slice_chars(ws[0].as_slice(), 0, ws[0].len());
            assert(first@ =~= ws@[0]@);
            push_view(&mut st.documented, first);
        }
        push_view(&mut st.param_docs, t);
        st.ctx = FnContext::Param;
    } else if starts_with(t.as_slice(), chars_of("@return ").as_slice()) {
        let entry = return_entry_chars(t.as_slice());
        push_view(&mut st.return_docs, entry);
        st.ctx = FnContext::Return;
    } else if starts_with(t.as_slice(), chars_of("@custom:semver").as_slice()) {
        st.ctx = FnContext::Other;
    } else if starts_with(t.as_slice(), chars_of("@dev ").as_slice()) {
        let rest = slice_chars(t.as_slice(), 5, n);
        push_view(&mut st.desc, trim_chars(rest.as_slice()));
        st.ctx = FnContext::Description;
    } else if starts_with(t.as_slice(), chars_of("@").as_slice()) {
        push_view(&mut st.others, t);
        st.ctx = FnContext::Other;
    } else if n > 0 {
        match st.ctx {
            FnContext::Param => {
                if st.param_docs.len() > 0 {
                    extend_last_chars(&mut st.param_docs, t.as_slice());
                } else {
                    push_view(&mut st.desc, t);
                }
            },
            FnContext::Return => {
                if st.return_docs.len() > 0 {
                    extend_last_chars(&mut st.return_docs, t.as_slice());
                } else {
                    push_view(&mut st.desc, t);
                }
            },
            FnContext::Other => {
                if st.others.len() > 0 {
                    extend_last_chars(&mut st.others, t.as_slice());
                } else {
                    push_view(&mut st.desc, t);
                }
            },
            _ => {
                push_view(&mut st.desc, t);
            },
        }
    }
}

/// Whether `x` is among the texts.
fn contains_text(ts: &Vec<Vec<char>>, x: &[char]) -> (b: bool)
    ensures
        b == views(ts@).contains(x@),
{
    let mut i: usize = 0;
    while i < ts.len()
        invariant
            i <= ts@.len(),
            forall|j: int| 0 <= j < i ==> views(ts@)[j] != x@,
        decreases ts@.len() - i,
    {
        assert(views(ts@)[i as int] == ts@[i as int]@);
        if crate::text::chars_equal(ts[i].as_slice(), x) {
            assert(views(ts@)[i as int] == x@);
            return true;
        }
        i = i + 1;
    }
    assert(!views(ts@).contains(x@)) by {
        if views(ts@).contains(x@) {
            let j = choose|j: int| 0 <= j < views(ts@).len() && views(ts@)[j] == x@;
            assert(views(ts@)[j] != x@);
        }
    }
    false
}

/// Adds `@param name TODO` for each named parameter that no tag documents.
fn add_todo_params(st: &mut FnState, names: &[Option<String>])
    ensures
        views(final(st).param_docs@) == old(st).parts().param_docs + todo_params(
            names@,
            old(st).parts().documented,
        ),
        final(st).parts().documented == old(st).parts().documented,
        final(st).parts().desc == old(st).parts().desc,
        final(st).parts().notices == old(st).parts().notices,
        final(st).parts().return_docs == old(st).parts().return_docs,
        final(st).parts().others == old(st).parts().others,
{
    let ghost s0 = st.parts();
    let mut i: usize = 0;
    proof {
        reveal_strlit("@param ");
        reveal_strlit(" TODO");
    }
    assert(names@.take(0) =~= Seq::<Option<String>>::empty());
    assert(s0.param_docs =~= s0.param_docs + todo_params(names@.take(0), s0.documented));
    while i < names.len()
        invariant
            i <= names@.len(),
            views(st.param_docs@) == s0.param_docs + todo_params(names@.take(i as int), s0.documented),
            views(st.documented@) == s0.documented,
            views(st.desc@) == s0.desc,
            views(st.notices@) == s0.notices,
            views(st.return_docs@) == s0.return_docs,
            views(st.others@) == s0.others,
            st.ctx == s0.ctx,
        decreases names@.len() - i,
    {
        assert(names@.take(i + 1).drop_last() =~= names@.take(i as int));
        assert(names@.take(i + 1).last() == names@[i as int]);
        match &names[i] {
            Some(n) => {
                let norm = normalize_param_name(n.as_str());
                let nc = chars_of(n.as_str());
                let mc = chars_of(norm.as_str());
                if !contains_text(&st.documented, nc.as_slice()) && !contains_text(
                    &st.documented,
                    mc.as_slice(),
                ) {
                    let mut entry = chars_of("@param ");
                    push_all(&mut entry, mc.as_slice());
                    push_all(&mut entry, chars_of(" TODO").as_slice());
                    let ghost before = views(st.param_docs@);
                    push_view(&mut st.param_docs, entry);
                    assert(views(st.param_docs@) =~= s0.param_docs + todo_params(
                        names@.take(i + 1),
                        s0.documented,
                    ));
                } else {
                    assert(views(st.param_docs@) =~= s0.param_docs + todo_params(
                        names@.take(i + 1),
                        s0.documented,
                    ));
                }
            },
            None => {
                assert(views(st.param_docs@) =~= s0.param_docs + todo_params(
                    names@.take(i + 1),
                    s0.documented,
                ));
            },
        }
        i = i + 1;
    }
    assert(names@.take(i as int) =~= names@);
}

/// The index of the first `"  "`, if any.
fn find_double_space(s: &[char]) -> (r: Option<usize>)
    ensures
        r == (match double_space_index(s@) {
            Some(k) => Some(k as usize),
            None => None::<usize>,
        }),
        r matches Some(k) ==> k + 2 <= s@.len() && double_space_index(s@) == Some(k as int),
        r is None ==> double_space_index(s@) is None,
{
    proof {
        lemma_double_space_index(s@);
    }
    let mut i: usize = 0;
    assert(s@.subrange(0, s@.len() as int) =~= s@);
    while i < s.len() && s.len() - i > 1
        invariant
            i <= s@.len(),
            double_space_index(s@) == (match double_space_index(s@.subrange(i as int, s@.len() as int)) {
                Some(k) => Some(k + i),
                None => None,
            }),
        decreases s@.len() - i,
    {
        let ghost t = s@.subrange(i as int, s@.len() as int);
        if s[i] == ' ' && s[i + 1] == ' ' {
            return Some(i);
        }
        assert(t.subrange(1, t.len() as int) =~= s@.subrange(i + 1, s@.len() as int));
        i = i + 1;
    }
    None
}

/// The first index of `c`, as a position inside the text.
fn find_in(s: &[char], c: char) -> (r: Option<usize>)
    ensures
        r == (match first_index(s@, c) {
            Some(k) => Some(k as usize),
            None => None::<usize>,
        }),
        r matches Some(k) ==> k < s@.len() && first_index(s@, c) == Some(k as int),
        r is None ==> first_index(s@, c) is None,
{
    let n = s.len();
    let r = crate::text::find_char(s, c);
    proof {
        lemma_first_index(s@, c);
        match first_index(s@, c) {
            Some(j) => {
                assert(r == Some(j as usize));
            },
            None => {},
        }
    }
    r
}

/// `double_space_index` finds a position inside the text.
proof fn lemma_double_space_index(s: Seq<char>)
    ensures
        double_space_index(s) matches Some(k) ==> 0 <= k && k + 2 <= s.len(),
    decreases s.len(),
{
    if s.len() >= 2 {
        lemma_double_space_index(s.subrange(1, s.len() as int));
    }
}

/// A text element followed by an indented soft break and the words of
/// `desc`, all in one group.
fn head_and_words(head: &[char], desc: &[char]) -> (r: IRElement)
    ensures
        doc_match(
            r,
            Doc::Group(
                seq![
                    Doc::Text(head@),
                    Doc::Indent(seq![Doc::Soft] + word_break_docs(words(desc@))),
                ],
            ),
        ),
{
    let ds = string_from(desc);
    let wb = text_with_word_breaks(ds.as_str());
    let mut cont: Vec<IRElement> = vec![IRElement::SoftLineBreak];
    proof {
        lemma_docs(cont@, seq![Doc::Soft]);
        lemma_docs_append(cont@, seq![Doc::Soft], wb@, word_break_docs(words(desc@)));
    }
    let mut wb = wb;
    cont.append(&mut wb);
    let hs = string_from(head);
    let parts = vec![IRElement::Text(hs), IRElement::Indent(cont)];
    proof {
        lemma_docs(
            parts@,
            seq![Doc::Text(head@), Doc::Indent(seq![Doc::Soft] + word_break_docs(words(desc@)))],
        );
    }
    IRElement::Group(parts)
}

/// The IR of one parameter tag.
fn param_doc_ir(p: &[char]) -> (r: IRElement)
    ensures
        doc_match(r, param_doc_docs(p@)),
{
    proof {
        reveal_strlit("@param ");
    }
    let n = p.len();
    match find_double_space(p) {
        Some(k) => {
            let part0 = slice_chars(p, 0, k);
            let part = trim_chars(part0.as_slice());
            let desc0 = slice_chars(p, k + 2, n);
            let desc = trim_chars(desc0.as_slice());
            let head = if starts_with(part.as_slice(), chars_of("@param ").as_slice()) {
                let name = slice_chars(part.as_slice(), 7, part.len());
                let ns = string_from(name.as_slice());
                let norm = normalize_param_name(ns.as_str());
                let mut h = chars_of("@param ");
                push_all(&mut h, chars_of(norm.as_str()).as_slice());
                assert(h@ =~= "@param "@ + normalized_name(after(part@, 7)));
                h
            } else {
                part
            };
            head_and_words(head.as_slice(), desc.as_slice())
        },
        None => match find_in(p, ' ') {
            Some(k1) => {
                let tail = slice_chars(p, k1 + 1, n);
                match find_in(tail.as_slice(), ' ') {
                    Some(k2) => {
                        let name = slice_chars(tail.as_slice(), 0, k2);
                        let ns = string_from(name.as_slice());
                        let norm = normalize_param_name(ns.as_str());
                        let mut h = slice_chars(p, 0, k1);
                        h.push(' ');
                        push_all(&mut h, chars_of(norm.as_str()).as_slice());
                        assert(h@ =~= p@.subrange(0, k1 as int) + seq![' '] + normalized_name(
                            tail@.subrange(0, k2 as int),
                        ));
                        let rest = slice_chars(tail.as_slice(), k2 + 1, tail.len());
                        head_and_words(h.as_slice(), rest.as_slice())
                    },
                    None => IRElement::Text(string_from(p)),
                }
            },
            None => IRElement::Text(string_from(p)),
        },
    }
}

/// The IR of one return tag.
fn return_doc_ir(r: &[char]) -> (e: IRElement)
    ensures
        doc_match(e, return_doc_docs(r@)),
{
    proof {
        reveal_strlit("@return ");
    }
    if !starts_with(r, chars_of("@return ").as_slice()) {
        return IRElement::Text(string_from(r));
    }
    let rest = slice_chars(r, 8, r.len());
    match find_in(rest.as_slice(), ' ') {
        Some(k) => {
            let mut prefix = chars_of("@return ");
            push_all(&mut prefix, slice_chars(rest.as_slice(), 0, k).as_slice());
            prefix.push(' ');
            assert(prefix@ =~= "@return "@ + rest@.subrange(0, k as int) + seq![' ']);
            let desc = slice_chars(rest.as_slice(), k + 1, rest.len());
            let ds = string_from(desc.as_slice());
            let wb = text_with_word_breaks(ds.as_str());
            let g = IRElement::Group(wb);
            let inner = vec![g];
            proof {
                lemma_docs(inner@, seq![Doc::Group(word_break_docs(words(desc@)))]);
            }
            let parts = vec![IRElement::Text(string_from(prefix.as_slice())), IRElement::Indent(inner)];
            proof {
                lemma_docs(
                    parts@,
                    seq![
                        Doc::Text(prefix@),
                        Doc::Indent(seq![Doc::Group(word_break_docs(words(desc@)))]),
                    ],
                );
            }
            IRElement::Group(parts)
        },
        None => IRElement::Text(string_from(r)),
    }
}

/// Appends an element with its model.
fn push_modelled(ir: &mut Vec<IRElement>, e: IRElement, Ghost(ds): Ghost<Seq<Doc>>, Ghost(d): Ghost<
    Doc,
>)
    requires
        docs(old(ir)@, ds),
        doc_match(e, d),
    ensures
        docs(final(ir)@, ds.push(d)),
{
    proof {
        lemma_docs_push(ir@, ds, e, d);
    }
    ir.push(e);
}

/// Appends a hard line break.
fn push_hard(ir: &mut Vec<IRElement>, Ghost(ds): Ghost<Seq<Doc>>)
    requires
        docs(old(ir)@, ds),
    ensures
        docs(final(ir)@, ds.push(Doc::Hard)),
{
    push_modelled(ir, IRElement::HardLineBreak, Ghost(ds), Ghost(Doc::Hard));
}

/// Copies of the character vectors appended to `dst`.
fn copy_into(dst: &mut Vec<Vec<char>>, src: &Vec<Vec<char>>)
    ensures
        views(final(dst)@) == views(old(dst)@) + views(src@),
{
    let ghost base = views(dst@);
    let mut i: usize = 0;
    assert(views(src@).take(0) =~= Seq::<Seq<char>>::empty());
    assert(base =~= base + views(src@).take(0));
    while i < src.len()
        invariant
            i <= src@.len(),
            views(dst@) == base + views(src@).take(i as int),
        decreases src@.len() - i,
    {
        let c = slice_chars(src[i].as_slice(), 0, src[i].len());
        assert(c@ =~= src@[i as int]@);
        push_view(dst, c);
        assert(views(src@).take(i + 1) =~= views(src@).take(i as int).push(src@[i as int]@));
        assert(views(dst@) =~= base + views(src@).take(i + 1));
        i = i + 1;
    }
    assert(views(src@).take(i as int) =~= views(src@));
}

/// Appends each parameter tag followed by a line break.
fn push_param_list(ir: &mut Vec<IRElement>, ps: &Vec<Vec<char>>, Ghost(ds): Ghost<Seq<Doc>>)
    requires
        docs(old(ir)@, ds),
    ensures
        docs(final(ir)@, ds + param_list_docs(views(ps@))),
{
    let ghost tv = views(ps@);
    let mut i: usize = 0;
    assert(tv.take(0) =~= Seq::<Seq<char>>::empty());
    assert(ds =~= ds + param_list_docs(tv.take(0)));
    while i < ps.len()
        invariant
            i <= ps@.len(),
            tv == views(ps@),
            docs(ir@, ds + param_list_docs(tv.take(i as int))),
        decreases ps@.len() - i,
    {
        let ghost pre = ds + param_list_docs(tv.take(i as int));
        assert(tv.take(i + 1).drop_last() =~= tv.take(i as int));
        assert(tv[i as int] == ps@[i as int]@);
        let e = param_doc_ir(ps[i].as_slice());
        push_modelled(ir, e, Ghost(pre), Ghost(param_doc_docs(tv[i as int])));
        push_hard(ir, Ghost(pre.push(param_doc_docs(tv[i as int]))));
        assert(pre.push(param_doc_docs(tv[i as int])).push(Doc::Hard) =~= ds + param_list_docs(
            tv.take(i + 1),
        ));
        i = i + 1;
    }
    assert(tv.take(ps@.len() as int) =~= tv);
}

/// Appends each return tag followed by a line break.
fn push_return_list(ir: &mut Vec<IRElement>, rs: &Vec<Vec<char>>, Ghost(ds): Ghost<Seq<Doc>>)
    requires
        docs(old(ir)@, ds),
    ensures
        docs(final(ir)@, ds + return_list_docs(views(rs@))),
{
    let ghost tv = views(rs@);
    let mut i: usize = 0;
    assert(tv.take(0) =~= Seq::<Seq<char>>::empty());
    assert(ds =~= ds + return_list_docs(tv.take(0)));
    while i < rs.len()
        invariant
            i <= rs@.len(),
            tv == views(rs@),
            docs(ir@, ds + return_list_docs(tv.take(i as int))),
        decreases rs@.len() - i,
    {
        let ghost pre = ds + return_list_docs(tv.take(i as int));
        assert(tv.take(i + 1).drop_last() =~= tv.take(i as int));
        assert(tv[i as int] == rs@[i as int]@);
        let e = return_doc_ir(rs[i].as_slice());
        push_modelled(ir, e, Ghost(pre), Ghost(return_doc_docs(tv[i as int])));
        push_hard(ir, Ghost(pre.push(return_doc_docs(tv[i as int]))));
        assert(pre.push(return_doc_docs(tv[i as int])).push(Doc::Hard) =~= ds + return_list_docs(
            tv.take(i + 1),
        ));
        i = i + 1;
    }
    assert(tv.take(rs@.len() as int) =~= tv);
}

/// Appends each text followed by a line break.
fn push_text_list(ir: &mut Vec<IRElement>, ts: &Vec<Vec<char>>, Ghost(ds): Ghost<Seq<Doc>>)
    requires
        docs(old(ir)@, ds),
    ensures
        docs(final(ir)@, ds + text_list_docs(views(ts@))),
{
    let ghost tv = views(ts@);
    let mut i: usize = 0;
    assert(tv.take(0) =~= Seq::<Seq<char>>::empty());
    assert(ds =~= ds + text_list_docs(tv.take(0)));
    while i < ts.len()
        invariant
            i <= ts@.len(),
            tv == views(ts@),
            docs(ir@, ds + text_list_docs(tv.take(i as int))),
        decreases ts@.len() - i,
    {
        let ghost pre = ds + text_list_docs(tv.take(i as int));
        assert(tv.take(i + 1).drop_last() =~= tv.take(i as int));
        assert(tv[i as int] == ts@[i as int]@);
        let e = IRElement::Text(string_from(ts[i].as_slice()));
        push_modelled(ir, e, Ghost(pre), Ghost(Doc::Text(tv[i as int])));
        push_hard(ir, Ghost(pre.push(Doc::Text(tv[i as int]))));
        assert(pre.push(Doc::Text(tv[i as int])).push(Doc::Hard) =~= ds + text_list_docs(
            tv.take(i + 1),
        ));
        i = i + 1;
    }
    assert(tv.take(ts@.len() as int) =~= tv);
}

/// The body of the block, before its last line break is removed.
#[verifier::spinoff_prover]
fn fn_body(st: &FnState, has_returns: bool) -> (c: Vec<IRElement>)
    ensures
        docs(
            c@,
            fn_body_docs(
                views(st.param_docs@),
                views(st.notices@) + views(st.desc@),
                views(st.return_docs@),
                views(st.others@),
                has_returns,
            ),
        ),
{
    let ghost ps = views(st.param_docs@);
    let ghost rs = views(st.return_docs@);
    let ghost os = views(st.others@);
    assert(ps.len() == st.param_docs@.len());
    assert(rs.len() == st.return_docs@.len());
    assert(os.len() == st.others@.len());
    let mut all: Vec<Vec<char>> = Vec::new();
    assert(views(all@) =~= Seq::<Seq<char>>::empty());
    copy_into(&mut all, &st.notices);
    copy_into(&mut all, &st.desc);
    let ghost ad = views(all@);
    assert(ad =~= views(st.notices@) + views(st.desc@));
    assert(ad.len() == all@.len());
    let mut c: Vec<IRElement> = Vec::new();
    proof {
        lemma_docs(c@, Seq::empty());
    }
    let ghost d0: Seq<Doc> = Seq::empty();
    push_hard(&mut c, Ghost(d0));
    let ghost d1 = seq![Doc::Hard];
    assert(d0.push(Doc::Hard) =~= d1);
    let ghost mut d = d1;
    if all.len() > 0 {
        proof {
            reveal_strlit(" ");
        }
        let space: Vec<char> = vec![' '];
        assert(space@ =~= " "@);
        let joined = join_chars(&all, space.as_slice());
        let text = string_from(joined.as_slice());
        let g = IRElement::Group(text_with_word_breaks(text.as_str()));
        let ghost gd = Doc::Group(word_break_docs(words(join(ad, " "@))));
        push_modelled(&mut c, g, Ghost(d), Ghost(gd));
        push_hard(&mut c, Ghost(d.push(gd)));
        proof {
            d = d.push(gd).push(Doc::Hard);
        }
        if st.param_docs.len() > 0 || st.return_docs.len() > 0 || has_returns || st.others.len() > 0 {
            push_hard(&mut c, Ghost(d));
            proof {
                d = d.push(Doc::Hard);
            }
        }
    }
    let ghost d2 = d;
    assert(d2 =~= d1 + (if ad.len() > 0 {
        seq![Doc::Group(word_break_docs(words(join(ad, " "@)))), Doc::Hard] + (if ps.len() > 0
            || rs.len() > 0 || has_returns || os.len() > 0 {
            seq![Doc::Hard]
        } else {
            Seq::empty()
        })
    } else {
        Seq::empty()
    }));
    push_param_list(&mut c, &st.param_docs, Ghost(d2));
    let ghost d3 = d2 + param_list_docs(ps);
    let ghost mut e = d3;
    if has_returns {
        if st.param_docs.len() > 0 {
            push_hard(&mut c, Ghost(e));
            proof {
                e = e.push(Doc::Hard);
            }
        }
        let ghost e1 = e;
        if st.return_docs.len() > 0 {
            push_return_list(&mut c, &st.return_docs, Ghost(e1));
            proof {
                e = e1 + return_list_docs(rs);
            }
        } else {
            let t = IRElement::text("@return _ TODO");
            push_modelled(&mut c, t, Ghost(e1), Ghost(Doc::Text("@return _ TODO"@)));
            push_hard(&mut c, Ghost(e1.push(Doc::Text("@return _ TODO"@))));
            proof {
                e = e1.push(Doc::Text("@return _ TODO"@)).push(Doc::Hard);
            }
        }
    }
    let ghost d4 = e;
    assert(d4 =~= d3 + (if has_returns {
        (if ps.len() > 0 {
            seq![Doc::Hard]
        } else {
            Seq::empty()
        }) + if rs.len() > 0 {
            return_list_docs(rs)
        } else {
            seq![Doc::Text("@return _ TODO"@), Doc::Hard]
        }
    } else {
        Seq::empty()
    }));
    push_text_list(&mut c, &st.others, Ghost(d4));
    assert(d4 + text_list_docs(os) =~= fn_body_docs(ps, ad, rs, os, has_returns));
    c
}

/// The NatSpec block of a function: its description, its parameter tags
/// (`@param name TODO` added for each named parameter that none documents,
/// names normalized), its return tags with a `_` placeholder when it
/// returns something (`@return _ TODO` when none is documented; dropped when
/// it returns nothing), and its other tags. `@custom:semver` is dropped.
pub fn build_function_natspec_ir(
    natspec_lines: &[String],
    func_params: &[Option<String>],
    has_returns: bool,
) -> (r: Vec<IRElement>)
    ensures
        docs(r@, fn_natspec_docs(str_views(natspec_lines@), func_params@, has_returns)),
{
    let ghost lv = str_views(natspec_lines@);
    let mut st = FnState {
        desc: Vec::new(),
        notices: Vec::new(),
        param_docs: Vec::new(),
        documented: Vec::new(),
        return_docs: Vec::new(),
        others: Vec::new(),
        ctx: FnContext::Description,
    };
    assert(st.parts() == fn_scan(lv.take(0))) by {
        assert(lv.take(0) =~= Seq::<Seq<char>>::empty());
        assert(views(st.desc@) =~= Seq::<Seq<char>>::empty());
        assert(views(st.notices@) =~= Seq::<Seq<char>>::empty());
        assert(views(st.param_docs@) =~= Seq::<Seq<char>>::empty());
        assert(views(st.documented@) =~= Seq::<Seq<char>>::empty());
        assert(views(st.return_docs@) =~= Seq::<Seq<char>>::empty());
        assert(views(st.others@) =~= Seq::<Seq<char>>::empty());
    }
    let mut i: usize = 0;
    while i < natspec_lines.len()
        invariant
            i <= natspec_lines@.len(),
            lv == str_views(natspec_lines@),
            st.parts() == fn_scan(lv.take(i as int)),
        decreases natspec_lines@.len() - i,
    {
        assert(lv.take(i + 1).drop_last() =~= lv.take(i as int));
        assert(lv.take(i + 1).last() == natspec_lines@[i as int]@);
        fn_step(&mut st, &natspec_lines[i]);
        i = i + 1;
    }
    assert(lv.take(i as int) =~= lv);
    let ghost s0 = st.parts();
    add_todo_params(&mut st, func_params);
    let mut content = fn_body(&st, has_returns);
    let ghost cd = fn_content_docs(s0, func_params@, has_returns);
    assert(docs(content@, cd));
    proof {
        lemma_docs_drop_last(content@, cd);
    }
    content.pop();
    let r = vec![
        IRElement::text("/**"),
        IRElement::Indent(content),
        IRElement::HardLineBreak,
        IRElement::text("*/"),
    ];
    proof {
        lemma_docs(r@, fn_natspec_docs(lv, func_params@, has_returns));
    }
    r
}

/// `@param name TODO` (the name normalized, `unnamed` for a parameter
/// without one) for each parameter slot that holds a parameter, each
/// followed by a line break.
pub open spec fn generated_param_docs(ps: Seq<Option<Option<String>>>) -> Seq<Doc>
    decreases ps.len(),
{
    if ps.len() == 0 {
        Seq::empty()
    } else {
        generated_param_docs(ps.drop_last()) + match ps.last() {
            Some(p) => seq![
                Doc::Text(
                    "@param "@ + normalized_name(
                        match p {
                            Some(n) => n@,
                            None => "unnamed"@,
                        },
                    ) + " TODO"@,
                ),
                Doc::Hard,
            ],
            None => Seq::empty(),
        }
    }
}

/// The placeholder NatSpec block of a function with parameter slots `ps`:
/// the description (`TODO` when none is given), then, when it has
/// parameters or returns something, a blank line, `@param` entries, and
/// `@return _ TODO` (after a blank line when there are parameters).
pub open spec fn generated_fn_natspec_docs(
    ps: Seq<Option<Option<String>>>,
    has_returns: bool,
    description: Option<Seq<char>>,
) -> Seq<Doc> {
    let d = match description {
        Some(t) => t,
        None => "TODO"@,
    };
    let has_params = ps.len() > 0;
    seq![
        Doc::Text("/**"@),
        Doc::Indent(
            seq![Doc::Hard, Doc::Text(d), Doc::Hard] + if has_params || has_returns {
                (seq![Doc::Hard] + generated_param_docs(ps) + if has_returns {
                    (if has_params {
                        seq![Doc::Hard]
                    } else {
                        Seq::empty()
                    }) + seq![Doc::Text("@return _ TODO"@), Doc::Hard]
                } else {
                    Seq::empty()
                }).drop_last()
            } else {
                Seq::empty()
            },
        ),
        Doc::Hard,
        Doc::Text("*/"@),
    ]
}

/// Appends an element with its model.
fn push_modelled_doc(ir: &mut Vec<IRElement>, e: IRElement, Ghost(ds): Ghost<Seq<Doc>>, Ghost(d): Ghost<Doc>)
    requires
        docs(old(ir)@, ds),
        doc_match(e, d),
    ensures
        docs(final(ir)@, ds.push(d)),
{
    proof {
        lemma_docs_push(ir@, ds, e, d);
    }
    ir.push(e);
}

/// The placeholder NatSpec block of a function with parameter slots
/// `func_params` (`None` for an empty slot, `Some(None)` for a parameter
/// without a name): the description (`TODO` when none is given), then
/// `@param name TODO` for each parameter and `@return _ TODO` when it
/// returns something.
pub fn generate_function_natspec_with_description(
    func_params: &[Option<Option<String>>],
    has_returns: bool,
    description: Option<&str>,
) -> (r: Vec<IRElement>)
    ensures
        docs(
            r@,
            generated_fn_natspec_docs(
                func_params@,
                has_returns,
                match description {
                    Some(t) => Some(t@),
                    None => None,
                },
            ),
        ),
{
    let d = match description {
        Some(t) => IRElement::text(t),
        None => IRElement::text("TODO"),
    };
    let ghost dv = match description {
        Some(t) => t@,
        None => "TODO"@,
    };
    let mut c: Vec<IRElement> = vec![IRElement::HardLineBreak, d, IRElement::HardLineBreak];
    let ghost d0 = seq![Doc::Hard, Doc::Text(dv), Doc::Hard];
    proof {
        lemma_docs(c@, d0);
        reveal_strlit("@param ");
        reveal_strlit(" TODO");
        reveal_strlit("unnamed");
    }
    let has_params = func_params.len() > 0;
    if has_params || has_returns {
        push_modelled_doc(&mut c, IRElement::HardLineBreak, Ghost(d0), Ghost(Doc::Hard));
        let ghost d1 = d0.push(Doc::Hard);
        let mut i: usize = 0;
        assert(func_params@.take(0) =~= Seq::<Option<Option<String>>>::empty());
        assert(d1 =~= d1 + generated_param_docs(func_params@.take(0)));
        while i < func_params.len()
            invariant
                i <= func_params@.len(),
                docs(c@, d1 + generated_param_docs(func_params@.take(i as int))),
            decreases func_params@.len() - i,
        {
            let ghost pre = d1 + generated_param_docs(func_params@.take(i as int));
            assert(func_params@.take(i + 1).drop_last() =~= func_params@.take(i as int));
            assert(func_params@.take(i + 1).last() == func_params@[i as int]);
            match &func_params[i] {
                Some(p) => {
                    let name = match p {
                        Some(n) => normalize_param_name(n.as_str()),
                        None => normalize_param_name("unnamed"),
                    };
                    let mut line = chars_of("@param ");
                    push_all(&mut line, chars_of(name.as_str()).as_slice());
                    push_all(&mut line, chars_of(" TODO").as_slice());
                    let ghost lv = line@;
                    let e = IRElement::Text(string_from(line.as_slice()));
                    push_modelled_doc(&mut c, e, Ghost(pre), Ghost(Doc::Text(lv)));
                    push_modelled_doc(&mut c, IRElement::HardLineBreak, Ghost(pre.push(Doc::Text(lv))), Ghost(Doc::Hard));
                    assert(pre.push(Doc::Text(lv)).push(Doc::Hard) =~= d1 + generated_param_docs(
                        func_params@.take(i + 1),
                    ));
                },
                None => {
                    assert(pre =~= d1 + generated_param_docs(func_params@.take(i + 1)));
                },
            }
            i = i + 1;
        }
        assert(func_params@.take(i as int) =~= func_params@);
        let ghost d2 = d1 + generated_param_docs(func_params@);
        let ghost rt = if has_returns {
            (if has_params {
                seq![Doc::Hard]
            } else {
                Seq::<Doc>::empty()
            }) + seq![Doc::Text("@return _ TODO"@), Doc::Hard]
        } else {
            Seq::<Doc>::empty()
        };
        if has_returns {
            let ghost d3 = if has_params {
                d2.push(Doc::Hard)
            } else {
                d2
            };
            if has_params {
                push_modelled_doc(&mut c, IRElement::HardLineBreak, Ghost(d2), Ghost(Doc::Hard));
            }
            push_modelled_doc(&mut c, IRElement::text("@return _ TODO"), Ghost(d3), Ghost(Doc::Text("@return _ TODO"@)));
            push_modelled_doc(&mut c, IRElement::HardLineBreak, Ghost(d3.push(Doc::Text("@return _ TODO"@))), Ghost(Doc::Hard));
            assert(d3.push(Doc::Text("@return _ TODO"@)).push(Doc::Hard) =~= d2 + rt);
        } else {
            assert(d2 =~= d2 + rt);
        }
        proof {
            lemma_docs_drop_last(c@, d2 + rt);
        }
        c.pop();
        assert((d2 + rt).drop_last() =~= d0 + (seq![Doc::Hard] + generated_param_docs(func_params@) + rt).drop_last());
    } else {
        assert(d0 =~= d0 + Seq::<Doc>::empty());
    }
    let r = vec![IRElement::text("/**"), IRElement::Indent(c), IRElement::HardLineBreak, IRElement::text("*/")];
    proof {
        lemma_docs(
            r@,
            generated_fn_natspec_docs(
                func_params@,
                has_returns,
                match description {
                    Some(t) => Some(t@),
                    None => None,
                },
            ),
        );
    }
    r
}

/// The placeholder NatSpec block of an undocumented function: `TODO`, then
/// `@param name TODO` for each parameter and `@return _ TODO` when it
/// returns something.
pub fn generate_function_natspec(func_params: &[Option<Option<String>>], has_returns: bool) -> (r: Vec<
    IRElement,
>)
    ensures
        docs(r@, generated_fn_natspec_docs(func_params@, has_returns, None)),
{
    generate_function_natspec_with_description(func_params, has_returns, None)
}

} // verus!
