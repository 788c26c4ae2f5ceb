//! NatSpec comment blocks as IR.
use vstd::prelude::*;
use crate::ir_builder::ir::{doc_match, docs, lemma_docs, Doc, IRElement};
use crate::ir_builder::{
    lemma_docs_append, lemma_docs_drop_last, lemma_docs_push, text_with_word_breaks, word_break_docs,
};
use crate::model::{comment_text, Comment};
use crate::text::{is_ws, trim_end, trim_start};
use crate::text::{
    chars_equal, strip_prefix_chars, strip_prefix_or_keep, strip_suffix_chars,
    strip_suffix_or_keep,
    ends_with, has_suffix, lines, push_all, split_lines, trim, trim_chars, chars_of, find_char, first_index, lemma_first_index, has_prefix, split_words, starts_with, string_from, slice_chars,
    views, words, join,
};

verus! {

/// Whether a NatSpec tag names a parameter or return value, whose
/// description may wrap.
pub open spec fn is_param_or_return(tag: Seq<char>) -> bool {
    ||| has_prefix(tag, "@param "@)
    ||| has_prefix(tag, "@return "@)
    ||| has_prefix(tag, "@custom:param "@)
    ||| has_prefix(tag, "@custom:return "@)
}

/// A space and the first word, then each further word after a continuation
/// break.
pub open spec fn tag_word_docs(ws: Seq<Seq<char>>) -> Seq<Doc>
    decreases ws.len(),
{
    if ws.len() == 0 {
        Seq::empty()
    } else if ws.len() == 1 {
        seq![Doc::Text(" "@), Doc::Text(ws[0])]
    } else {
        tag_word_docs(ws.drop_last()).push(Doc::SoftCont).push(Doc::Text(ws.last()))
    }
}

/// The IR of one NatSpec tag line: a `@param`/`@return` tag keeps its tag
/// and name together and lets the description's words wrap with
/// continuation indentation; any other tag is plain text.
pub open spec fn tag_docs(tag: Seq<char>) -> Seq<Doc> {
    if !is_param_or_return(tag) {
        seq![Doc::Text(tag)]
    } else {
        match first_index(tag, ' ') {
            None => seq![Doc::Text(tag)],
            Some(p1) => {
                let rest = tag.subrange(p1 + 1, tag.len() as int);
                match first_index(rest, ' ') {
                    None => seq![Doc::Text(tag)],
                    Some(p2) => {
                        let prefix = tag.subrange(0, p1 + 1 + p2);
                        let ws = words(rest.subrange(p2 + 1, rest.len() as int));
                        if ws.len() == 0 {
                            seq![Doc::Text(prefix)]
                        } else {
                            seq![Doc::Group(seq![Doc::Text(prefix)] + tag_word_docs(ws))]
                        }
                    },
                }
            },
        }
    }
}

/// Whether a tag is a `@param`/`@return` tag whose description may wrap.
fn is_param_or_return_tag(tag: &str) -> (b: bool)
    ensures
        b == is_param_or_return(tag@),
{
    let t = chars_of(tag);
    let p1 = chars_of("@param ");
    let p2 = chars_of("@return ");
    let p3 = chars_of("@custom:param ");
    let p4 = chars_of("@custom:return ");
    starts_with(t.as_slice(), p1.as_slice()) || starts_with(t.as_slice(), p2.as_slice())
        || starts_with(t.as_slice(), p3.as_slice()) || starts_with(t.as_slice(), p4.as_slice())
}

/// One text element.
fn single_text(s: &str) -> (r: Vec<IRElement>)
    ensures
        docs(r@, seq![Doc::Text(s@)]),
{
    let r = vec![IRElement::text(s)];
    proof {
        lemma_docs(r@, seq![Doc::Text(s@)]);
    }
    r
}

/// Formats a NatSpec tag, letting a `@param`/`@return` description wrap.
fn format_tag_with_wrapping(tag: &str) -> (r: Vec<IRElement>)
    ensures
        docs(r@, tag_docs(tag@)),
{
    if !is_param_or_return_tag(tag) {
        return single_text(tag);
    }
    let tv = chars_of(tag);
    proof {
        lemma_first_index(tv@, ' ');
    }
    let p1 = match find_char(tv.as_slice(), ' ') {
        Some(p) => p,
        None => {
            return single_text(tag);
        },
    };
    assert(p1 < tv.len());
    let rest = slice_chars(tv.as_slice(), p1 + 1, tv.len());
    proof {
        lemma_first_index(rest@, ' ');
    }
    let p2 = match find_char(rest.as_slice(), ' ') {
        Some(p) => p,
        None => {
            return single_text(tag);
        },
    };
    let prefix = slice_chars(tv.as_slice(), 0, p1 + 1 + p2);
    let description = slice_chars(rest.as_slice(), p2 + 1, rest.len());
    let ws = split_words(description.as_slice());
    let prefix_text = IRElement::Text(string_from(prefix.as_slice()));
    if ws.len() == 0 {
        let r = vec![prefix_text];
        proof {
            lemma_docs(r@, seq![Doc::Text(prefix@)]);
        }
        return r;
    }
    let mut inner: Vec<IRElement> = vec![prefix_text];
    let ghost wv = views(ws@);
    proof {
        lemma_docs(inner@, seq![Doc::Text(prefix@)]);
        assert(seq![Doc::Text(prefix@)] + tag_word_docs(wv.take(0)) =~= seq![Doc::Text(prefix@)]);
    }
    let mut i: usize = 0;
    while i < ws.len()
        invariant
            i <= ws@.len(),
            wv == views(ws@),
            docs(inner@, seq![Doc::Text(prefix@)] + tag_word_docs(wv.take(i as int))),
        decreases ws@.len() - i,
    {
        let ghost d0 = seq![Doc::Text(prefix@)] + tag_word_docs(wv.take(i as int));
        let ghost before = inner@;
        assert(wv.take(i + 1).drop_last() =~= wv.take(i as int));
        assert(wv[i as int] == ws@[i as int]@);
        if i == 0 {
            let sp = IRElement::text(" ");
            proof {
                lemma_docs_push(before, d0, sp, Doc::Text(" "@));
            }
            inner.push(sp);
        } else {
            proof {
                lemma_docs_push(before, d0, IRElement::SoftLineBreakWithContinuation, Doc::SoftCont);
            }
            inner.push(IRElement::SoftLineBreakWithContinuation);
        }
        let ghost mid = inner@;
        let ghost dmid = if i == 0 {
            d0.push(Doc::Text(" "@))
        } else {
            d0.push(Doc::SoftCont)
        };
        let word = IRElement::Text(string_from(ws[i].as_slice()));
        proof {
            lemma_docs_push(mid, dmid, word, Doc::Text(wv[i as int]));
            if i == 0 {
                assert(wv.take(1) =~= seq![wv[0]]);
                assert(dmid.push(Doc::Text(wv[i as int])) =~= seq![Doc::Text(prefix@)] + tag_word_docs(
                    wv.take(1),
                ));
            } else {
                assert(dmid.push(Doc::Text(wv[i as int])) =~= seq![Doc::Text(prefix@)] + tag_word_docs(
                    wv.take(i + 1),
                ));
            }
        }
        inner.push(word);
        i = i + 1;
    }
    assert(wv.take(ws@.len() as int) =~= wv);
    let ghost dinner = seq![Doc::Text(prefix@)] + tag_word_docs(wv);
    let r = vec![IRElement::Group(inner)];
    proof {
        lemma_docs(r@, seq![Doc::Group(dinner)]);
        assert(doc_match(r@[0], Doc::Group(dinner)));
    }
    r
}


/// The inside of a NatSpec comment: trimmed, without `/**` and `*/`.
pub open spec fn natspec_body(content: Seq<char>) -> Seq<char> {
    let t = trim(content);
    if has_prefix(t, "/**"@) && has_suffix(t, "*/"@) {
        trim(t.subrange(3, t.len() - 2))
    } else {
        t
    }
}

/// The `/**` and `*/` around NatSpec content are optional: content without
/// them is laid out as the same content wrapped in them.
pub proof fn law_natspec_delimiters_optional(s: Seq<char>)
    requires
        !(has_prefix(trim(s), "/**"@) && has_suffix(trim(s), "*/"@)),
    ensures
        natspec_content_ok("/**"@ + s + "*/"@),
        natspec_docs("/**"@ + s + "*/"@) == natspec_docs(s),
{
    reveal_strlit("/**");
    reveal_strlit("*/");
    let c = "/**"@ + s + "*/"@;
    assert(c[0] == '/');
    assert(!is_ws(c[0]));
    assert(trim_start(c) == c);
    assert(c.last() == '/');
    assert(!is_ws(c.last()));
    assert(trim_end(c) == c);
    assert(trim(c) == c);
    assert(c.subrange(0, 3) =~= "/**"@);
    assert(c.subrange(c.len() - 2, c.len() as int) =~= "*/"@);
    assert(c.subrange(3, c.len() - 2) =~= s);
    assert(natspec_body(c) == trim(s));
    assert(natspec_body(s) == trim(s));
}

/// Contents whose delimiters can be removed: not the bare `/**/`, whose
/// `/**` and `*/` overlap.
pub open spec fn natspec_content_ok(content: Seq<char>) -> bool {
    let t = trim(content);
    !(has_prefix(t, "/**"@) && has_suffix(t, "*/"@) && t.len() < 5)
}

/// Records the trimmed line `t` when no tag is open: a blank line, the start
/// of a tag, or description text.
pub open spec fn natspec_line(done: Seq<(bool, Seq<char>)>, t: Seq<char>) -> (
    Seq<(bool, Seq<char>)>,
    Option<Seq<char>>,
) {
    if t.len() == 0 {
        (done.push((false, Seq::empty())), None)
    } else if has_prefix(t, "@"@) {
        (done, Some(t))
    } else {
        (done.push((false, t)), None)
    }
}

/// The lines recorded so far, each marked as tag or not, and the tag still
/// collecting its continuation lines.
pub open spec fn natspec_scan(ls: Seq<Seq<char>>) -> (Seq<(bool, Seq<char>)>, Option<Seq<char>>)
    decreases ls.len(),
{
    if ls.len() == 0 {
        (Seq::empty(), None)
    } else {
        let (done, open) = natspec_scan(ls.drop_last());
        let t = trim(ls.last());
        match open {
            Some(tag) => if t.len() > 0 && !has_prefix(t, "@"@) {
                (done, Some(tag + " "@ + t))
            } else {
                natspec_line(done.push((true, tag)), t)
            },
            None => natspec_line(done, t),
        }
    }
}

/// The lines of a NatSpec body: blank lines, description lines, and tags
/// joined with their continuation lines.
pub open spec fn natspec_items(ls: Seq<Seq<char>>) -> Seq<(bool, Seq<char>)> {
    let (done, open) = natspec_scan(ls);
    match open {
        Some(tag) => done.push((true, tag)),
        None => done,
    }
}

/// The IR of one NatSpec line, followed by a line break.
pub open spec fn item_docs(item: (bool, Seq<char>)) -> Seq<Doc> {
    if item.1.len() == 0 {
        seq![Doc::Hard]
    } else if item.0 {
        tag_docs(item.1).push(Doc::Hard)
    } else {
        seq![Doc::Group(word_break_docs(words(item.1))), Doc::Hard]
    }
}

/// A leading line break and the IR of each line.
pub open spec fn items_docs(items: Seq<(bool, Seq<char>)>) -> Seq<Doc>
    decreases items.len(),
{
    if items.len() == 0 {
        seq![Doc::Hard]
    } else {
        items_docs(items.drop_last()) + item_docs(items.last())
    }
}

/// The IR of a NatSpec block: `/**`, the indented lines, `*/`.
pub open spec fn natspec_docs(content: Seq<char>) -> Seq<Doc> {
    let body = items_docs(natspec_items(lines(natspec_body(content))));
    seq![Doc::Text("/**"@), Doc::Indent(body.drop_last()), Doc::Hard, Doc::Text("*/"@)]
}

/// The model of scanned items.
pub open spec fn item_views(v: Seq<(bool, Vec<char>)>) -> Seq<(bool, Seq<char>)> {
    v.map_values(|p: (bool, Vec<char>)| (p.0, p.1@))
}

/// The model of an open tag.
pub open spec fn open_view(o: Option<Vec<char>>) -> Option<Seq<char>> {
    match o {
        Some(v) => Some(v@),
        None => None,
    }
}

/// Records a trimmed line when no tag is open.
fn natspec_record_line(items: &mut Vec<(bool, Vec<char>)>, t: Vec<char>) -> (open: Option<Vec<char>>)
    ensures
        (item_views(final(items)@), open_view(open)) == natspec_line(item_views(old(items)@), t@),
{
    let ghost d0 = item_views(items@);
    let at = chars_of("@");
    if t.len() == 0 {
        items.push((false, Vec::new()));
        assert(item_views(items@) =~= d0.push((false, Seq::<char>::empty())));
        None
    } else if starts_with(t.as_slice(), at.as_slice()) {
        Some(t)
    } else {
        let ghost tv = t@;
        items.push((false, t));
        assert(item_views(items@) =~= d0.push((false, tv)));
        None
    }
}

/// Structured IR for a NatSpec block comment: tags are joined with their
/// continuation lines, `@param`/`@return` descriptions and plain description
/// lines may wrap, blank lines are kept.
pub fn build_natspec_comment_ir(content: &str) -> (r: Vec<IRElement>)
    requires
        natspec_content_ok(content@),
    ensures
        docs(r@, natspec_docs(content@)),
{
    let cv = chars_of(content);
    let t = trim_chars(cv.as_slice());
    let open_delim = chars_of("/**");
    let close_delim = chars_of("*/");
    let body = if starts_with(t.as_slice(), open_delim.as_slice()) && ends_with(
        t.as_slice(),
        close_delim.as_slice(),
    ) {
        proof {
            reveal_strlit("/**");
            reveal_strlit("*/");
        }
        let inner = slice_chars(t.as_slice(), 3, t.len() - 2);
        trim_chars(inner.as_slice())
    } else {
        t
    };
    assert(body@ == natspec_body(content@));
    let ls = split_lines(body.as_slice());
    let ghost lv = views(ls@);
    let mut items: Vec<(bool, Vec<char>)> = Vec::new();
    let mut open: Option<Vec<char>> = None;
    let mut i: usize = 0;
    assert(lv.take(0) =~= Seq::<Seq<char>>::empty());
    assert(item_views(items@) =~= Seq::<(bool, Seq<char>)>::empty());
    while i < ls.len()
        invariant
            i <= ls@.len(),
            lv == views(ls@),
            (item_views(items@), open_view(open)) == natspec_scan(lv.take(i as int)),
        decreases ls@.len() - i,
    {
        assert(lv.take(i + 1).drop_last() =~= lv.take(i as int));
        assert(lv.take(i + 1).last() == ls@[i as int]@);
        let t = trim_chars(ls[i].as_slice());
        let at = chars_of("@");
        let cur = open;
        open = None;
        match cur {
            Some(tag) => {
                if t.len() > 0 && !starts_with(t.as_slice(), at.as_slice()) {
                    let mut tag = tag;
                    let ghost tv0 = tag@;
                    tag.push(' ');
                    push_all(&mut tag, t.as_slice());
                    proof {
                        reveal_strlit(" ");
                        assert(tag@ =~= tv0 + " "@ + t@);
                    }
                    open = Some(tag);
                } else {
                    let ghost d0 = item_views(items@);
                    let ghost tv0 = tag@;
                    items.push((true, tag));
                    assert(item_views(items@) =~= d0.push((true, tv0)));
                    open = natspec_record_line(&mut items, t);
                }
            },
            None => {
                open = natspec_record_line(&mut items, t);
            },
        }
        i = i + 1;
    }
    assert(lv.take(ls@.len() as int) =~= lv);
    match open {
        Some(tag) => {
            let ghost d0 = item_views(items@);
            let ghost tv0 = tag@;
            items.push((true, tag));
            assert(item_views(items@) =~= d0.push((true, tv0)));
        },
        None => {},
    }
    let ghost iv = item_views(items@);
    assert(iv == natspec_items(lines(natspec_body(content@))));
    let mut content_lines: Vec<IRElement> = vec![IRElement::HardLineBreak];
    proof {
        lemma_docs(content_lines@, seq![Doc::Hard]);
        assert(iv.take(0) =~= Seq::<(bool, Seq<char>)>::empty());
    }
    let mut k: usize = 0;
    while k < items.len()
        invariant
            k <= items@.len(),
            iv == item_views(items@),
            docs(content_lines@, items_docs(iv.take(k as int))),
        decreases items@.len() - k,
    {
        assert(iv.take(k + 1).drop_last() =~= iv.take(k as int));
        assert(iv.take(k + 1).last() == (items@[k as int].0, items@[k as int].1@));
        let ghost before = content_lines@;
        let ghost d0 = items_docs(iv.take(k as int));
        let is_tag = items[k].0;
        let text = string_from(items[k].1.as_slice());
        if items[k].1.len() == 0 {
            proof {
                lemma_docs(seq![IRElement::HardLineBreak], seq![Doc::Hard]);
                lemma_docs_append(before, d0, seq![IRElement::HardLineBreak], seq![Doc::Hard]);
                assert(before + seq![IRElement::HardLineBreak] =~= before.push(IRElement::HardLineBreak));
            }
            content_lines.push(IRElement::HardLineBreak);
        } else if is_tag {
            let mut tag_ir = format_tag_with_wrapping(text.as_str());
            let ghost tag_v = tag_ir@;
            tag_ir.push(IRElement::HardLineBreak);
            proof {
                lemma_docs_push(tag_v, tag_docs(text@), IRElement::HardLineBreak, Doc::Hard);
                lemma_docs_append(before, d0, tag_ir@, tag_docs(text@).push(Doc::Hard));
            }
            content_lines.append(&mut tag_ir);
        } else {
            let words_ir = text_with_word_breaks(text.as_str());
            let ghost wd = word_break_docs(words(text@));
            let mut line_ir = vec![IRElement::Group(words_ir), IRElement::HardLineBreak];
            proof {
                lemma_docs(line_ir@, seq![Doc::Group(wd), Doc::Hard]);
                assert(doc_match(line_ir@[0], Doc::Group(wd)));
                assert(doc_match(line_ir@[1], Doc::Hard));
                lemma_docs_append(before, d0, line_ir@, seq![Doc::Group(wd), Doc::Hard]);
            }
            content_lines.append(&mut line_ir);
        }
        k = k + 1;
    }
    assert(iv.take(items@.len() as int) =~= iv);
    let ghost full = content_lines@;
    proof {
        lemma_docs_drop_last(full, items_docs(iv));
    }
    content_lines.pop();
    assert(content_lines@ =~= full.drop_last());
    let ghost body_docs = items_docs(iv).drop_last();
    let r = vec![
        IRElement::text("/**"),
        IRElement::Indent(content_lines),
        IRElement::HardLineBreak,
        IRElement::text("*/"),
    ];
    proof {
        lemma_docs(r@, natspec_docs(content@));
        assert(doc_match(r@[1], Doc::Indent(body_docs)));
    }
    r
}


/// A comment's text without surrounding whitespace and without its `//`
/// prefix or `/* */` delimiters.
pub open spec fn unmarked(t: Seq<char>) -> Seq<char> {
    let tr = trim(t);
    if has_prefix(tr, "//"@) {
        trim(tr.subrange(2, tr.len() as int))
    } else if has_prefix(tr, "/*"@) && has_suffix(tr, "*/"@) {
        trim(tr.subrange(2, tr.len() - 2))
    } else {
        tr
    }
}

/// Comment texts whose delimiters can be removed: not `/*/`, where `/*`
/// and `*/` overlap.
pub open spec fn marker_ok(t: Seq<char>) -> bool {
    let tr = trim(t);
    has_prefix(tr, "//"@) || !(has_prefix(tr, "/*"@) && has_suffix(tr, "*/"@) && tr.len() < 4)
}

/// Every comment's delimiters can be removed.
pub open spec fn comments_ok(cs: Seq<Comment>) -> bool {
    forall|k: int| 0 <= k < cs.len() ==> #[trigger] marker_ok(comment_text(cs[k]))
}

/// Whether a comment is an SPDX license identifier.
pub open spec fn spdx(c: Comment) -> bool {
    has_prefix(unmarked(comment_text(c)), "SPDX-License-Identifier:"@)
}

/// Whether a comment is an import section header such as `// Contracts`.
pub open spec fn import_section(c: Comment) -> bool {
    let u = unmarked(comment_text(c));
    ||| u == "Contracts"@
    ||| u == "Interfaces"@
    ||| u == "Libraries"@
    ||| u == "Utils"@
    ||| u == "Utilities"@
    ||| u == "Local"@
    ||| u == "External"@
    ||| u == "Internal"@
    ||| u == "Core"@
    ||| u == "Helpers"@
    ||| u == "Types"@
    ||| u == "Imports"@
    ||| u == "Dependencies"@
    ||| u == "Modules"@
}

/// `t` without a leading `@notice ` when `strip` is set.
pub open spec fn notice_stripped(t: Seq<char>, strip: bool) -> Seq<char> {
    if strip {
        strip_prefix_or_keep(t, "@notice "@)
    } else {
        t
    }
}

/// The text that a comment's IR element carries: trimmed, without
/// delimiters, optionally without a leading `@notice `.
pub open spec fn comment_body(c: Comment, strip: bool) -> Seq<char> {
    match c {
        Comment::Line(t) => notice_stripped(trim(strip_prefix_or_keep(trim(t@), "//"@)), strip),
        Comment::Block(t) => notice_stripped(
            trim(strip_suffix_or_keep(strip_prefix_or_keep(trim(t@), "/*"@), "*/"@)),
            strip,
        ),
        Comment::DocLine(t) => notice_stripped(trim(strip_prefix_or_keep(trim(t@), "///"@)), strip),
        Comment::DocBlock(t) => notice_stripped(
            trim(strip_suffix_or_keep(strip_prefix_or_keep(trim(t@), "/**"@), "*/"@)),
            strip,
        ),
    }
}

/// The IR model of one comment.
pub open spec fn comment_doc(c: Comment, strip: bool) -> Doc {
    Doc::Comment(comment_body(c, strip), c is DocLine || c is DocBlock)
}

/// The unmarked text of a comment.
fn unmarked_text(t: &String) -> (r: Vec<char>)
    requires
        marker_ok(t@),
    ensures
        r@ == unmarked(t@),
{
    let tv = chars_of(t.as_str());
    let tr = trim_chars(tv.as_slice());
    let line = chars_of("//");
    let open = chars_of("/*");
    let close = chars_of("*/");
    proof {
        reveal_strlit("//");
        reveal_strlit("/*");
        reveal_strlit("*/");
    }
    if starts_with(tr.as_slice(), line.as_slice()) {
        let inner = slice_chars(tr.as_slice(), 2, tr.len());
        trim_chars(inner.as_slice())
    } else if starts_with(tr.as_slice(), open.as_slice()) && ends_with(tr.as_slice(), close.as_slice()) {
        let inner = slice_chars(tr.as_slice(), 2, tr.len() - 2);
        trim_chars(inner.as_slice())
    } else {
        tr
    }
}

/// Whether a comment is an SPDX license identifier.
pub fn is_spdx_comment(comment: &Comment) -> (b: bool)
    requires
        marker_ok(comment_text(*comment)),
    ensures
        b == spdx(*comment),
{
    let u = unmarked_text(comment.text());
    let p = chars_of("SPDX-License-Identifier:");
    starts_with(u.as_slice(), p.as_slice())
}

/// Whether a comment is an import section header (such as `// Contracts`),
/// which is dropped when imports are reorganised.
pub fn is_import_section_comment(comment: &Comment) -> (b: bool)
    requires
        marker_ok(comment_text(*comment)),
    ensures
        b == import_section(*comment),
{
    let u = unmarked_text(comment.text());
    let u = u.as_slice();
    chars_equal(u, chars_of("Contracts").as_slice()) || chars_equal(u, chars_of("Interfaces").as_slice())
        || chars_equal(u, chars_of("Libraries").as_slice()) || chars_equal(u, chars_of("Utils").as_slice())
        || chars_equal(u, chars_of("Utilities").as_slice()) || chars_equal(u, chars_of("Local").as_slice())
        || chars_equal(u, chars_of("External").as_slice()) || chars_equal(u, chars_of("Internal").as_slice())
        || chars_equal(u, chars_of("Core").as_slice()) || chars_equal(u, chars_of("Helpers").as_slice())
        || chars_equal(u, chars_of("Types").as_slice()) || chars_equal(u, chars_of("Imports").as_slice())
        || chars_equal(u, chars_of("Dependencies").as_slice()) || chars_equal(u, chars_of("Modules").as_slice())
}

/// The IR element of one comment; the printer chooses its form.
pub fn build_comment(comment: &Comment) -> (r: IRElement)
    ensures
        doc_match(r, comment_doc(*comment, false)),
{
    build_comment_internal(comment, false)
}

/// Removes the opening marker `open`, the closing marker `close` (when
/// given) and surrounding whitespace; then a leading `@notice ` if asked.
fn comment_inner(t: &String, open: &str, close: Option<&str>, strip_notice: bool) -> (r: String)
    ensures
        r@ == notice_stripped(
            trim(
                match close {
                    Some(c) => strip_suffix_or_keep(strip_prefix_or_keep(trim(t@), open@), c@),
                    None => strip_prefix_or_keep(trim(t@), open@),
                },
            ),
            strip_notice,
        ),
{
    let tv = chars_of(t.as_str());
    let tr = trim_chars(tv.as_slice());
    let ov = chars_of(open);
    let s1 = strip_prefix_chars(tr.as_slice(), ov.as_slice());
    let s2 = match close {
        Some(c) => {
            let cv = chars_of(c);
            strip_suffix_chars(s1.as_slice(), cv.as_slice())
        },
        None => s1,
    };
    let s3 = trim_chars(s2.as_slice());
    let s4 = if strip_notice {
        let nv = chars_of("@notice ");
        strip_prefix_chars(s3.as_slice(), nv.as_slice())
    } else {
        s3
    };
    string_from(s4.as_slice())
}

/// The IR element of one comment, optionally without a leading `@notice `.
fn build_comment_internal(comment: &Comment, strip_notice: bool) -> (r: IRElement)
    ensures
        doc_match(r, comment_doc(*comment, strip_notice)),
{
    match comment {
        Comment::Line(content) => {
            let text = comment_inner(content, "//", None, strip_notice);
            IRElement::Comment { text, is_doc: false }
        },
        Comment::Block(content) => {
            let text = comment_inner(content, "/*", Some("*/"), strip_notice);
            IRElement::Comment { text, is_doc: false }
        },
        Comment::DocLine(content) => {
            let text = comment_inner(content, "///", None, strip_notice);
            IRElement::Comment { text, is_doc: true }
        },
        Comment::DocBlock(content) => {
            let text = comment_inner(content, "/**", Some("*/"), strip_notice);
            IRElement::Comment { text, is_doc: true }
        },
    }
}


/// A line comment's text without `//` and surrounding whitespace.
pub open spec fn cleaned(c: Comment) -> Seq<char> {
    trim(strip_prefix_or_keep(trim(comment_text(c)), "//"@))
}

/// A line that asks for the comment's lines to be kept as they are.
pub open spec fn is_preserve(l: Seq<char>) -> bool {
    trim(l) == "@custom:preserve"@ || has_prefix(l, "@custom:preserve "@)
}

/// Whether one of the lines asks for preservation.
pub open spec fn any_preserve(ls: Seq<Seq<char>>) -> bool {
    exists|k: int| 0 <= k < ls.len() && #[trigger] is_preserve(ls[k])
}

/// The end of the run of line comments that starts at `i`.
pub open spec fn run_end(cs: Seq<Comment>, i: int) -> int
    decreases cs.len() - i,
{
    if 0 <= i < cs.len() && cs[i] is Line {
        run_end(cs, i + 1)
    } else {
        i
    }
}

/// A run of line comments ends after its start and within the comments.
pub proof fn lemma_run_end(cs: Seq<Comment>, i: int)
    requires
        0 <= i <= cs.len(),
    ensures
        i <= run_end(cs, i) <= cs.len(),
        i < cs.len() && cs[i] is Line ==> i < run_end(cs, i),
        forall|k: int| i <= k < run_end(cs, i) ==> #[trigger] cs[k] is Line,
        run_end(cs, i) < cs.len() ==> !(cs[run_end(cs, i)] is Line),
    decreases cs.len() - i,
{
    if i < cs.len() && cs[i] is Line {
        lemma_run_end(cs, i + 1);
    }
}

/// The non-empty cleaned texts of `cs[i..j]`.
pub open spec fn run_texts(cs: Seq<Comment>, i: int, j: int) -> Seq<Seq<char>>
    decreases j - i,
{
    if j <= i {
        Seq::empty()
    } else {
        let t = cleaned(cs[j - 1]);
        if t.len() > 0 {
            run_texts(cs, i, j - 1).push(t)
        } else {
            run_texts(cs, i, j - 1)
        }
    }
}

/// Each comment of `cs[i..j]` as raw trimmed text on its own line.
pub open spec fn raw_docs(cs: Seq<Comment>, i: int, j: int) -> Seq<Doc>
    decreases j - i,
{
    if j <= i {
        Seq::empty()
    } else {
        raw_docs(cs, i, j - 1) + seq![Doc::Text(trim(comment_text(cs[j - 1]))), Doc::Hard]
    }
}

/// A run of line comments: nothing if all are empty, the raw lines if one
/// asks for preservation, else one combined comment.
pub open spec fn run_docs(cs: Seq<Comment>, i: int, j: int) -> Seq<Doc> {
    let ts = run_texts(cs, i, j);
    if ts.len() == 0 {
        Seq::empty()
    } else if any_preserve(ts) {
        raw_docs(cs, i, j)
    } else {
        seq![Doc::Comment(join(ts, " "@), false), Doc::Hard]
    }
}

/// The IR of leading comments from `i` on: consecutive line comments are
/// combined, every other comment stands alone; each is followed by a break.
pub open spec fn leading_docs(cs: Seq<Comment>, i: int) -> Seq<Doc>
    decreases cs.len() - i,
{
    if i < 0 || i >= cs.len() {
        Seq::empty()
    } else if cs[i] is Line {
        let j = run_end(cs, i);
        proof {
            lemma_run_end(cs, i);
        }
        run_docs(cs, i, j) + leading_docs(cs, j)
    } else {
        seq![comment_doc(cs[i], false), Doc::Hard] + leading_docs(cs, i + 1)
    }
}

/// A line comment's cleaned text.
fn cleaned_text(c: &Comment) -> (r: Vec<char>)
    ensures
        r@ == cleaned(*c),
{
    let tv = chars_of(c.text().as_str());
    let tr = trim_chars(tv.as_slice());
    let p = chars_of("//");
    let s = strip_prefix_chars(tr.as_slice(), p.as_slice());
    trim_chars(s.as_slice())
}

/// Whether a line asks for preservation.
fn is_preserve_line(l: &[char]) -> (b: bool)
    ensures
        b == is_preserve(l@),
{
    let t = trim_chars(l);
    let p = chars_of("@custom:preserve");
    let q = chars_of("@custom:preserve ");
    chars_equal(t.as_slice(), p.as_slice()) || starts_with(l, q.as_slice())
}

/// Whether one of the lines asks for preservation.
fn has_preserve_line(ls: &Vec<Vec<char>>) -> (b: bool)
    ensures
        b == any_preserve(views(ls@)),
{
    let mut i: usize = 0;
    while i < ls.len()
        invariant
            i <= ls@.len(),
            forall|k: int| 0 <= k < i ==> !is_preserve(#[trigger] views(ls@)[k]),
        decreases ls@.len() - i,
    {
        assert(views(ls@)[i as int] == ls@[i as int]@);
        if is_preserve_line(ls[i].as_slice()) {
            return true;
        }
        i = i + 1;
    }
    false
}

/// The texts joined by single spaces.
fn join_with_spaces(ts: &Vec<Vec<char>>) -> (r: Vec<char>)
    ensures
        r@ == join(views(ts@), " "@),
{
    let ghost tv = views(ts@);
    let mut r: Vec<char> = Vec::new();
    let mut i: usize = 0;
    proof {
        reveal_strlit(" ");
    }
    assert(tv.take(0) =~= Seq::<Seq<char>>::empty());
    while i < ts.len()
        invariant
            i <= ts@.len(),
            tv == views(ts@),
            r@ == join(tv.take(i as int), " "@),
            " "@ == seq![' '],
        decreases ts@.len() - i,
    {
        assert(tv.take(i + 1).drop_last() =~= tv.take(i as int));
        assert(tv[i as int] == ts@[i as int]@);
        if i > 0 {
            r.push(' ');
        }
        let ghost r0 = r@;
        push_all(&mut r, ts[i].as_slice());
        proof {
            if i == 0 {
                assert(tv.take(1) =~= seq![tv[0]]);
                assert(r@ =~= tv[0]);
            } else {
                assert(r@ =~= join(tv.take(i as int), " "@) + " "@ + tv[i as int]);
            }
        }
        i = i + 1;
    }
    assert(tv.take(ts@.len() as int) =~= tv);
    r
}

/// The IR of leading comments: consecutive line comments are combined into
/// one comment (or kept line by line when one of them is
/// `@custom:preserve`), other comments stand alone; each is followed by a
/// line break.
pub fn build_leading_comments(comments: &[Comment]) -> (r: Vec<IRElement>)
    ensures
        docs(r@, leading_docs(comments@, 0)),
{
    let ghost cs = comments@;
    let mut ir: Vec<IRElement> = Vec::new();
    let ghost mut d: Seq<Doc> = Seq::empty();
    proof {
        lemma_docs(ir@, d);
        assert(leading_docs(cs, 0) =~= d + leading_docs(cs, 0));
    }
    let mut i: usize = 0;
    while i < comments.len()
        invariant
            i <= cs.len(),
            cs == comments@,
            docs(ir@, d),
            leading_docs(cs, 0) == d + leading_docs(cs, i as int),
        decreases cs.len() - i,
    {
        if let Comment::Line(_) = &comments[i] {
            let start = i;
            let mut line_texts: Vec<Vec<char>> = Vec::new();
            proof {
                lemma_run_end(cs, start as int);
            }
            assert(views(line_texts@) =~= run_texts(cs, start as int, start as int));
            while i < comments.len() && comments[i].is_line()
                invariant
                    start <= i <= cs.len(),
                    cs == comments@,
                    views(line_texts@) == run_texts(cs, start as int, i as int),
                    forall|k: int| start <= k < i ==> #[trigger] cs[k] is Line,
                    i <= run_end(cs, start as int),
                    run_end(cs, start as int) <= cs.len(),
                    forall|k: int| start <= k < run_end(cs, start as int) ==> #[trigger] cs[k] is Line,
                    run_end(cs, start as int) < cs.len() ==> !(cs[run_end(cs, start as int)] is Line),
                decreases cs.len() - i,
            {
                let cleaned = cleaned_text(&comments[i]);
                let ghost before = line_texts@;
                if cleaned.len() > 0 {
                    let ghost cv = cleaned@;
                    line_texts.push(cleaned);
                    assert(views(line_texts@) =~= views(before).push(cv));
                }
                i = i + 1;
            }
            assert(i == run_end(cs, start as int));
            let ghost rd = run_docs(cs, start as int, i as int);
            if line_texts.len() > 0 {
                if has_preserve_line(&line_texts) {
                    let mut j = start;
                    let ghost mut rd2: Seq<Doc> = Seq::empty();
                    assert(raw_docs(cs, start as int, start as int) =~= Seq::<Doc>::empty());
                    while j < i
                        invariant
                            start <= j <= i <= cs.len(),
                            cs == comments@,
                            docs(ir@, d + raw_docs(cs, start as int, j as int)),
                        decreases i - j,
                    {
                        let ghost before = ir@;
                        let ghost d0 = d + raw_docs(cs, start as int, j as int);
                        let tv = chars_of(comments[j].text().as_str());
                        let trimmed = trim_chars(tv.as_slice());
                        let e = IRElement::Text(string_from(trimmed.as_slice()));
                        proof {
                            lemma_docs_push(before, d0, e, Doc::Text(trim(comment_text(cs[j as int]))));
                            lemma_docs_push(
                                before.push(e),
                                d0.push(Doc::Text(trim(comment_text(cs[j as int])))),
                                IRElement::HardLineBreak,
                                Doc::Hard,
                            );
                            assert(d0.push(Doc::Text(trim(comment_text(cs[j as int])))).push(Doc::Hard)
                                =~= d + raw_docs(cs, start as int, j + 1));
                        }
                        ir.push(e);
                        ir.push(IRElement::HardLineBreak);
                        j = j + 1;
                    }
                } else {
                    let combined = join_with_spaces(&line_texts);
                    let ghost before = ir@;
                    let e = IRElement::Comment { text: string_from(combined.as_slice()), is_doc: false };
                    proof {
                        lemma_docs_push(before, d, e, Doc::Comment(combined@, false));
                        lemma_docs_push(
                            before.push(e),
                            d.push(Doc::Comment(combined@, false)),
                            IRElement::HardLineBreak,
                            Doc::Hard,
                        );
                        assert(d.push(Doc::Comment(combined@, false)).push(Doc::Hard) =~= d + rd);
                    }
                    ir.push(e);
                    ir.push(IRElement::HardLineBreak);
                }
            } else {
                assert(d + rd =~= d);
            }
            proof {
                assert(leading_docs(cs, start as int) == rd + leading_docs(cs, i as int));
                assert(leading_docs(cs, 0) =~= (d + rd) + leading_docs(cs, i as int));
                d = d + rd;
            }
        } else {
            let ghost before = ir@;
            let e = build_comment(&comments[i]);
            proof {
                lemma_docs_push(before, d, e, comment_doc(cs[i as int], false));
                lemma_docs_push(
                    before.push(e),
                    d.push(comment_doc(cs[i as int], false)),
                    IRElement::HardLineBreak,
                    Doc::Hard,
                );
            }
            ir.push(e);
            ir.push(IRElement::HardLineBreak);
            proof {
                assert(leading_docs(cs, 0) =~= d.push(comment_doc(cs[i as int], false)).push(Doc::Hard)
                    + leading_docs(cs, i + 1));
                d = d.push(comment_doc(cs[i as int], false)).push(Doc::Hard);
            }
            i = i + 1;
        }
    }
    assert(d + leading_docs(cs, i as int) =~= d);
    ir
}


/// The end of the run that starts at `i`: line comments and SPDX comments.
pub open spec fn run_end_ns(cs: Seq<Comment>, i: int) -> int
    decreases cs.len() - i,
{
    if 0 <= i < cs.len() && (spdx(cs[i]) || cs[i] is Line) {
        run_end_ns(cs, i + 1)
    } else {
        i
    }
}

/// Such a run ends after its start and within the comments.
pub proof fn lemma_run_end_ns(cs: Seq<Comment>, i: int)
    requires
        0 <= i <= cs.len(),
    ensures
        i <= run_end_ns(cs, i) <= cs.len(),
        i < cs.len() && cs[i] is Line ==> i < run_end_ns(cs, i),
        forall|k: int| i <= k < run_end_ns(cs, i) ==> spdx(#[trigger] cs[k]) || cs[k] is Line,
        run_end_ns(cs, i) < cs.len() ==> !(spdx(cs[run_end_ns(cs, i)]) || cs[run_end_ns(cs, i)] is Line),
    decreases cs.len() - i,
{
    if i < cs.len() && (spdx(cs[i]) || cs[i] is Line) {
        lemma_run_end_ns(cs, i + 1);
    }
}

/// Whether a comment of a run contributes a line: a non-SPDX line comment
/// with non-empty text.
pub open spec fn kept_line(c: Comment) -> bool {
    !spdx(c) && c is Line && cleaned(c).len() > 0
}

/// The kept lines' texts of `cs[i..j]`.
pub open spec fn run_texts_ns(cs: Seq<Comment>, i: int, j: int) -> Seq<Seq<char>>
    decreases j - i,
{
    if j <= i {
        Seq::empty()
    } else if kept_line(cs[j - 1]) {
        run_texts_ns(cs, i, j - 1).push(cleaned(cs[j - 1]))
    } else {
        run_texts_ns(cs, i, j - 1)
    }
}

/// The kept lines of `cs[i..j]` as raw trimmed text, each on its own line.
pub open spec fn raw_docs_ns(cs: Seq<Comment>, i: int, j: int) -> Seq<Doc>
    decreases j - i,
{
    if j <= i {
        Seq::empty()
    } else if kept_line(cs[j - 1]) {
        raw_docs_ns(cs, i, j - 1) + seq![Doc::Text(trim(comment_text(cs[j - 1]))), Doc::Hard]
    } else {
        raw_docs_ns(cs, i, j - 1)
    }
}

/// A run without its SPDX comments, laid out as `run_docs` does.
pub open spec fn run_docs_ns(cs: Seq<Comment>, i: int, j: int) -> Seq<Doc> {
    let ts = run_texts_ns(cs, i, j);
    if ts.len() == 0 {
        Seq::empty()
    } else if any_preserve(ts) {
        raw_docs_ns(cs, i, j)
    } else {
        seq![Doc::Comment(join(ts, " "@), false), Doc::Hard]
    }
}

/// The IR of leading comments from `i` on, SPDX comments left out.
pub open spec fn leading_docs_ns(cs: Seq<Comment>, i: int) -> Seq<Doc>
    decreases cs.len() - i,
{
    if i < 0 || i >= cs.len() {
        Seq::empty()
    } else if spdx(cs[i]) {
        leading_docs_ns(cs, i + 1)
    } else if cs[i] is Line {
        let j = run_end_ns(cs, i);
        proof {
            lemma_run_end_ns(cs, i);
        }
        run_docs_ns(cs, i, j) + leading_docs_ns(cs, j)
    } else {
        seq![comment_doc(cs[i], false), Doc::Hard] + leading_docs_ns(cs, i + 1)
    }
}

/// The IR of leading comments as `build_leading_comments` lays them out,
/// with SPDX license comments left out.
pub fn build_leading_comments_without_spdx(comments: &[Comment]) -> (r: Vec<IRElement>)
    requires
        comments_ok(comments@),
    ensures
        docs(r@, leading_docs_ns(comments@, 0)),
{
    let ghost cs = comments@;
    let mut ir: Vec<IRElement> = Vec::new();
    let ghost mut d: Seq<Doc> = Seq::empty();
    proof {
        lemma_docs(ir@, d);
        assert(leading_docs_ns(cs, 0) =~= d + leading_docs_ns(cs, 0));
    }
    let mut i: usize = 0;
    while i < comments.len()
        invariant
            i <= cs.len(),
            cs == comments@,
            comments_ok(cs),
            docs(ir@, d),
            leading_docs_ns(cs, 0) == d + leading_docs_ns(cs, i as int),
        decreases cs.len() - i,
    {
        assert(marker_ok(comment_text(cs[i as int])));
        if is_spdx_comment(&comments[i]) {
            i = i + 1;
        } else if comments[i].is_line() {
            let start = i;
            let mut line_texts: Vec<Vec<char>> = Vec::new();
            proof {
                lemma_run_end_ns(cs, start as int);
            }
            assert(views(line_texts@) =~= run_texts_ns(cs, start as int, start as int));
            while i < comments.len() && (is_spdx_comment(&comments[i]) || comments[i].is_line())
                invariant
                    start <= i <= cs.len(),
                    cs == comments@,
                    comments_ok(cs),
                    views(line_texts@) == run_texts_ns(cs, start as int, i as int),
                    i <= run_end_ns(cs, start as int),
                    run_end_ns(cs, start as int) <= cs.len(),
                    run_end_ns(cs, start as int) < cs.len() ==> !(spdx(cs[run_end_ns(cs, start as int)])
                        || cs[run_end_ns(cs, start as int)] is Line),
                    forall|k: int| start <= k < run_end_ns(cs, start as int) ==> spdx(#[trigger] cs[k]) || cs[k] is Line,
                decreases cs.len() - i,
            {
                assert(marker_ok(comment_text(cs[i as int])));
                if !is_spdx_comment(&comments[i]) {
                    let cleaned = cleaned_text(&comments[i]);
                    let ghost before = line_texts@;
                    if cleaned.len() > 0 {
                        let ghost cv = cleaned@;
                        line_texts.push(cleaned);
                        assert(views(line_texts@) =~= views(before).push(cv));
                    }
                }
                i = i + 1;
            }
            assert(i == run_end_ns(cs, start as int));
            let ghost rd = run_docs_ns(cs, start as int, i as int);
            if line_texts.len() > 0 {
                if has_preserve_line(&line_texts) {
                    let mut j = start;
                    assert(raw_docs_ns(cs, start as int, start as int) =~= Seq::<Doc>::empty());
                    while j < i
                        invariant
                            start <= j <= i <= cs.len(),
                            cs == comments@,
                            comments_ok(cs),
                            docs(ir@, d + raw_docs_ns(cs, start as int, j as int)),
                        decreases i - j,
                    {
                        let ghost before = ir@;
                        let ghost d0 = d + raw_docs_ns(cs, start as int, j as int);
                        assert(marker_ok(comment_text(cs[j as int])));
                        let keep = !is_spdx_comment(&comments[j]) && comments[j].is_line() && cleaned_text(
                            &comments[j],
                        ).len() > 0;
                        if keep {
                            let tv = chars_of(comments[j].text().as_str());
                            let trimmed = trim_chars(tv.as_slice());
                            let e = IRElement::Text(string_from(trimmed.as_slice()));
                            proof {
                                lemma_docs_push(before, d0, e, Doc::Text(trim(comment_text(cs[j as int]))));
                                lemma_docs_push(
                                    before.push(e),
                                    d0.push(Doc::Text(trim(comment_text(cs[j as int])))),
                                    IRElement::HardLineBreak,
                                    Doc::Hard,
                                );
                                assert(d0.push(Doc::Text(trim(comment_text(cs[j as int])))).push(Doc::Hard)
                                    =~= d + raw_docs_ns(cs, start as int, j + 1));
                            }
                            ir.push(e);
                            ir.push(IRElement::HardLineBreak);
                        }
                        j = j + 1;
                    }
                } else {
                    let combined = join_with_spaces(&line_texts);
                    let ghost before = ir@;
                    let e = IRElement::Comment { text: string_from(combined.as_slice()), is_doc: false };
                    proof {
                        lemma_docs_push(before, d, e, Doc::Comment(combined@, false));
                        lemma_docs_push(
                            before.push(e),
                            d.push(Doc::Comment(combined@, false)),
                            IRElement::HardLineBreak,
                            Doc::Hard,
                        );
                        assert(d.push(Doc::Comment(combined@, false)).push(Doc::Hard) =~= d + rd);
                    }
                    ir.push(e);
                    ir.push(IRElement::HardLineBreak);
                }
            } else {
                assert(d + rd =~= d);
            }
            proof {
                assert(leading_docs_ns(cs, start as int) == rd + leading_docs_ns(cs, i as int));
                assert(leading_docs_ns(cs, 0) =~= (d + rd) + leading_docs_ns(cs, i as int));
                d = d + rd;
            }
        } else {
            let ghost before = ir@;
            let e = build_comment(&comments[i]);
            proof {
                lemma_docs_push(before, d, e, comment_doc(cs[i as int], false));
                lemma_docs_push(
                    before.push(e),
                    d.push(comment_doc(cs[i as int], false)),
                    IRElement::HardLineBreak,
                    Doc::Hard,
                );
            }
            ir.push(e);
            ir.push(IRElement::HardLineBreak);
            proof {
                assert(leading_docs_ns(cs, 0) =~= d.push(comment_doc(cs[i as int], false)).push(Doc::Hard)
                    + leading_docs_ns(cs, i + 1));
                d = d.push(comment_doc(cs[i as int], false)).push(Doc::Hard);
            }
            i = i + 1;
        }
    }
    assert(d + leading_docs_ns(cs, i as int) =~= d);
    ir
}


/// Scanning leading comments: the IR of line comments already laid out
/// (those before a non-line comment), the line comments still waiting, and
/// the non-line comments.
pub open spec fn wc_scan(ls: Seq<Comment>) -> (Seq<Doc>, Seq<Comment>, Seq<Comment>)
    decreases ls.len(),
{
    if ls.len() == 0 {
        (Seq::empty(), Seq::empty(), Seq::empty())
    } else {
        let (f, p, o) = wc_scan(ls.drop_last());
        let c = ls.last();
        if c is Line {
            (f, p.push(c), o)
        } else if p.len() > 0 {
            (f + leading_docs(p, 0), Seq::empty(), o.push(c))
        } else {
            (f, p, o.push(c))
        }
    }
}

/// The line comments among `ts`, in order.
pub open spec fn line_comments(ts: Seq<Comment>) -> Seq<Comment>
    decreases ts.len(),
{
    if ts.len() == 0 {
        Seq::empty()
    } else if ts.last() is Line {
        line_comments(ts.drop_last()).push(ts.last())
    } else {
        line_comments(ts.drop_last())
    }
}

/// The comment IR placed before an element: the leading comments, with the
/// last line comments combined with the trailing line comments; trailing
/// line comments alone come after a blank line.
pub open spec fn with_comments_docs(leading: Seq<Comment>, trailing: Seq<Comment>) -> Seq<Doc> {
    let (f, p, o) = wc_scan(leading);
    let tl = line_comments(trailing);
    f + leading_docs(o, 0) + if p.len() > 0 {
        leading_docs(p + tl, 0)
    } else if tl.len() > 0 {
        seq![Doc::Hard] + leading_docs(tl, 0)
    } else {
        Seq::empty()
    }
}

/// Copies of the comments.
fn copy_comments(cs: &Vec<Comment>) -> (r: Vec<Comment>)
    ensures
        r@ == cs@,
{
    let mut r: Vec<Comment> = Vec::new();
    let mut i: usize = 0;
    while i < cs.len()
        invariant
            i <= cs@.len(),
            r@ == cs@.take(i as int),
        decreases cs@.len() - i,
    {
        r.push(cs[i].duplicate());
        i = i + 1;
        assert(r@ =~= cs@.take(i as int));
    }
    assert(cs@.take(cs@.len() as int) =~= cs@);
    r
}

/// Places the comments' IR before the element's IR `element`: leading
/// comments first, the trailing line comments combined with the last
/// leading line comments into one comment.
pub fn with_comments(leading: &[Comment], trailing: &[Comment], element: Vec<IRElement>) -> (r: Vec<
    IRElement,
>)
    ensures
        r@.len() >= element@.len(),
        r@.skip(r@.len() - element@.len()) == element@,
        docs(r@.take(r@.len() - element@.len()), with_comments_docs(leading@, trailing@)),
{
    let ghost ls = leading@;
    let mut ir: Vec<IRElement> = Vec::new();
    let mut leading_line_comments: Vec<Comment> = Vec::new();
    let mut other_leading: Vec<Comment> = Vec::new();
    let mut i: usize = 0;
    proof {
        lemma_docs(ir@, Seq::empty());
        assert(ls.take(0) =~= Seq::<Comment>::empty());
    }
    while i < leading.len()
        invariant
            i <= ls.len(),
            ls == leading@,
            wc_scan(ls.take(i as int)) == (wc_scan(ls.take(i as int)).0, leading_line_comments@, other_leading@),
            docs(ir@, wc_scan(ls.take(i as int)).0),
        decreases ls.len() - i,
    {
        assert(ls.take(i + 1).drop_last() =~= ls.take(i as int));
        assert(ls.take(i + 1).last() == ls[i as int]);
        let c = leading[i].duplicate();
        if c.is_line() {
            leading_line_comments.push(c);
        } else {
            if leading_line_comments.len() > 0 {
                let ghost before = ir@;
                let mut flushed = build_leading_comments(leading_line_comments.as_slice());
                proof {
                    lemma_docs_append(before, wc_scan(ls.take(i as int)).0, flushed@, leading_docs(leading_line_comments@, 0));
                }
                ir.append(&mut flushed);
                leading_line_comments = Vec::new();
            }
            other_leading.push(c);
        }
        i = i + 1;
    }
    assert(ls.take(ls.len() as int) =~= ls);
    let ghost (f, p, o) = wc_scan(ls);
    let mut trailing_line_comments: Vec<Comment> = Vec::new();
    let ghost ts = trailing@;
    let mut k: usize = 0;
    assert(ts.take(0) =~= Seq::<Comment>::empty());
    while k < trailing.len()
        invariant
            k <= ts.len(),
            ts == trailing@,
            trailing_line_comments@ == line_comments(ts.take(k as int)),
        decreases ts.len() - k,
    {
        assert(ts.take(k + 1).drop_last() =~= ts.take(k as int));
        assert(ts.take(k + 1).last() == ts[k as int]);
        if trailing[k].is_line() {
            trailing_line_comments.push(trailing[k].duplicate());
        }
        k = k + 1;
    }
    assert(ts.take(ts.len() as int) =~= ts);
    let ghost tl = line_comments(ts);
    let ghost b1 = ir@;
    let mut others_ir = build_leading_comments(other_leading.as_slice());
    proof {
        lemma_docs_append(b1, f, others_ir@, leading_docs(o, 0));
    }
    ir.append(&mut others_ir);
    let ghost b2 = ir@;
    let ghost d2 = f + leading_docs(o, 0);
    if leading_line_comments.len() > 0 {
        let mut combined = copy_comments(&leading_line_comments);
        let mut tcopy = copy_comments(&trailing_line_comments);
        combined.append(&mut tcopy);
        let mut cir = build_leading_comments(combined.as_slice());
        proof {
            lemma_docs_append(b2, d2, cir@, leading_docs(p + tl, 0));
        }
        ir.append(&mut cir);
    } else if trailing_line_comments.len() > 0 {
        let mut tir = vec![IRElement::HardLineBreak];
        let mut rest = build_leading_comments(trailing_line_comments.as_slice());
        proof {
            lemma_docs(tir@, seq![Doc::Hard]);
            lemma_docs_append(tir@, seq![Doc::Hard], rest@, leading_docs(tl, 0));
        }
        tir.append(&mut rest);
        proof {
            lemma_docs_append(b2, d2, tir@, seq![Doc::Hard] + leading_docs(tl, 0));
        }
        ir.append(&mut tir);
    } else {
        assert(d2 + Seq::<Doc>::empty() =~= d2);
    }
    let ghost pre = ir@;
    let ghost el = element@;
    let mut element = element;
    ir.append(&mut element);
    assert(ir@.take(ir@.len() - el.len()) =~= pre);
    assert(ir@.skip(ir@.len() - el.len()) =~= el);
    ir
}


/// `wc_scan` with SPDX comments left out.
pub open spec fn wc_scan_ns(ls: Seq<Comment>) -> (Seq<Doc>, Seq<Comment>, Seq<Comment>)
    decreases ls.len(),
{
    if ls.len() == 0 {
        (Seq::empty(), Seq::empty(), Seq::empty())
    } else {
        let (f, p, o) = wc_scan_ns(ls.drop_last());
        let c = ls.last();
        if spdx(c) {
            (f, p, o)
        } else if c is Line {
            (f, p.push(c), o)
        } else if p.len() > 0 {
            (f + leading_docs_ns(p, 0), Seq::empty(), o.push(c))
        } else {
            (f, p, o.push(c))
        }
    }
}

/// The line comments among `ts` that are not SPDX comments, in order.
pub open spec fn line_comments_ns(ts: Seq<Comment>) -> Seq<Comment>
    decreases ts.len(),
{
    if ts.len() == 0 {
        Seq::empty()
    } else if !spdx(ts.last()) && ts.last() is Line {
        line_comments_ns(ts.drop_last()).push(ts.last())
    } else {
        line_comments_ns(ts.drop_last())
    }
}

/// `with_comments_docs` with SPDX comments left out.
pub open spec fn with_comments_docs_ns(leading: Seq<Comment>, trailing: Seq<Comment>) -> Seq<Doc> {
    let (f, p, o) = wc_scan_ns(leading);
    let tl = line_comments_ns(trailing);
    f + leading_docs_ns(o, 0) + if p.len() > 0 {
        leading_docs_ns(p + tl, 0)
    } else if tl.len() > 0 {
        seq![Doc::Hard] + leading_docs_ns(tl, 0)
    } else {
        Seq::empty()
    }
}

/// `with_comments` with SPDX license comments left out.
pub fn with_comments_no_spdx(leading: &[Comment], trailing: &[Comment], element: Vec<IRElement>) -> (r:
    Vec<IRElement>)
    requires
        comments_ok(leading@),
        comments_ok(trailing@),
    ensures
        r@.len() >= element@.len(),
        r@.skip(r@.len() - element@.len()) == element@,
        docs(r@.take(r@.len() - element@.len()), with_comments_docs_ns(leading@, trailing@)),
{
    let ghost ls = leading@;
    let mut ir: Vec<IRElement> = Vec::new();
    let mut leading_line_comments: Vec<Comment> = Vec::new();
    let mut other_leading: Vec<Comment> = Vec::new();
    let mut i: usize = 0;
    proof {
        lemma_docs(ir@, Seq::empty());
        assert(ls.take(0) =~= Seq::<Comment>::empty());
    }
    while i < leading.len()
        invariant
            i <= ls.len(),
            ls == leading@,
            comments_ok(ls),
            wc_scan_ns(ls.take(i as int)) == (
                wc_scan_ns(ls.take(i as int)).0,
                leading_line_comments@,
                other_leading@,
            ),
            docs(ir@, wc_scan_ns(ls.take(i as int)).0),
            comments_ok(leading_line_comments@),
            comments_ok(other_leading@),
        decreases ls.len() - i,
    {
        assert(ls.take(i + 1).drop_last() =~= ls.take(i as int));
        assert(ls.take(i + 1).last() == ls[i as int]);
        assert(marker_ok(comment_text(ls[i as int])));
        if !is_spdx_comment(&leading[i]) {
            let c = leading[i].duplicate();
            if c.is_line() {
                leading_line_comments.push(c);
            } else {
                if leading_line_comments.len() > 0 {
                    let ghost before = ir@;
                    let mut flushed = build_leading_comments_without_spdx(leading_line_comments.as_slice());
                    proof {
                        lemma_docs_append(
                            before,
                            wc_scan_ns(ls.take(i as int)).0,
                            flushed@,
                            leading_docs_ns(leading_line_comments@, 0),
                        );
                    }
                    ir.append(&mut flushed);
                    leading_line_comments = Vec::new();
                }
                other_leading.push(c);
            }
        }
        i = i + 1;
    }
    assert(ls.take(ls.len() as int) =~= ls);
    let ghost (f, p, o) = wc_scan_ns(ls);
    let mut trailing_line_comments: Vec<Comment> = Vec::new();
    let ghost ts = trailing@;
    let mut k: usize = 0;
    assert(ts.take(0) =~= Seq::<Comment>::empty());
    while k < trailing.len()
        invariant
            k <= ts.len(),
            ts == trailing@,
            comments_ok(ts),
            trailing_line_comments@ == line_comments_ns(ts.take(k as int)),
            comments_ok(trailing_line_comments@),
        decreases ts.len() - k,
    {
        assert(ts.take(k + 1).drop_last() =~= ts.take(k as int));
        assert(ts.take(k + 1).last() == ts[k as int]);
        assert(marker_ok(comment_text(ts[k as int])));
        if !is_spdx_comment(&trailing[k]) && trailing[k].is_line() {
            trailing_line_comments.push(trailing[k].duplicate());
        }
        k = k + 1;
    }
    assert(ts.take(ts.len() as int) =~= ts);
    let ghost tl = line_comments_ns(ts);
    let ghost b1 = ir@;
    let mut others_ir = build_leading_comments_without_spdx(other_leading.as_slice());
    proof {
        lemma_docs_append(b1, f, others_ir@, leading_docs_ns(o, 0));
    }
    ir.append(&mut others_ir);
    let ghost b2 = ir@;
    let ghost d2 = f + leading_docs_ns(o, 0);
    if leading_line_comments.len() > 0 {
        let mut combined = copy_comments(&leading_line_comments);
        let mut tcopy = copy_comments(&trailing_line_comments);
        combined.append(&mut tcopy);
        assert(comments_ok(combined@)) by {
            assert forall|q: int| 0 <= q < combined@.len() implies #[trigger] marker_ok(
                comment_text(combined@[q]),
            ) by {
                if q < p.len() {
                    assert(combined@[q] == p[q]);
                } else {
                    assert(combined@[q] == tl[q - p.len()]);
                }
            }
        }
        let mut cir = build_leading_comments_without_spdx(combined.as_slice());
        proof {
            lemma_docs_append(b2, d2, cir@, leading_docs_ns(p + tl, 0));
        }
        ir.append(&mut cir);
    } else if trailing_line_comments.len() > 0 {
        let mut tir = vec![IRElement::HardLineBreak];
        let mut rest = build_leading_comments_without_spdx(trailing_line_comments.as_slice());
        proof {
            lemma_docs(tir@, seq![Doc::Hard]);
            lemma_docs_append(tir@, seq![Doc::Hard], rest@, leading_docs_ns(tl, 0));
        }
        tir.append(&mut rest);
        proof {
            lemma_docs_append(b2, d2, tir@, seq![Doc::Hard] + leading_docs_ns(tl, 0));
        }
        ir.append(&mut tir);
    } else {
        assert(d2 + Seq::<Doc>::empty() =~= d2);
    }
    let ghost pre = ir@;
    let ghost el = element@;
    let mut element = element;
    ir.append(&mut element);
    assert(ir@.take(ir@.len() - el.len()) =~= pre);
    assert(ir@.skip(ir@.len() - el.len()) =~= el);
    ir
}

} // verus!
