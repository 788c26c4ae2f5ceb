//! NatSpec blocks for state variables: description, `@param` and `@return`
//! tags (with the ones a mapping needs added as TODOs) and other tags.
use vstd::prelude::*;
use crate::ir_builder::ir::{docs, lemma_docs, Doc, IRElement};
use crate::ir_builder::{lemma_docs_append, lemma_docs_push, text_with_word_breaks, word_break_docs};
use crate::ir_builder::comments::{
    build_comment, build_natspec_comment_ir, comment_doc, natspec_content_ok, natspec_docs,
};
use crate::ir_builder::ir::{doc_of, docs_of, lemma_doc_of, lemma_docs_of, doc_match};
use crate::model::{
    variable_attribute_keyword,
    comment_text, mapping_depth, type_shape, Comment, CommentedElement, TypeShape, VariableAttribute, VariableDefinition,
};
use crate::ast::{Expression, SolType};
use crate::ir_builder::expressions::{expr_doc, expr_ok, format_expression, format_visibility, visibility_text};
use crate::text::{
    chars_equal, chars_of, ends_with, has_suffix, join_chars, find_char, first_index, has_prefix, join, lemma_first_index, push_all,
    slice_chars, starts_with, str_views, string_from, trim, trim_chars, views, words,
};

verus! {

/// The `@param` and `@return` tags that a type's documentation needs: one
/// parameter per mapping key and one return for a mapping's value.
pub open spec fn mapping_counts(t: TypeShape) -> (int, int) {
    let d = mapping_depth(t) as int;
    (
        d,
        if d > 0 {
            1
        } else {
            0
        },
    )
}

/// Counts the `@param` and `@return` tags that a type's documentation needs.
pub fn count_mapping_params(ty: &TypeShape) -> (r: (usize, usize))
    requires
        mapping_depth(*ty) < usize::MAX,
    ensures
        r.0 == mapping_counts(*ty).0,
        r.1 == mapping_counts(*ty).1,
    decreases ty,
{
    match ty {
        TypeShape::Mapping(v) => {
            let (p, q) = count_mapping_params(v);
            (
                1 + p,
                if q > 1 {
                    q
                } else {
                    1
                },
            )
        },
        TypeShape::Other => (0, 0),
    }
}

/// The parts of a variable's NatSpec gathered from its lines.
pub struct VarDocs {
    /// Description lines (`@notice`, `@dev` and plain text).
    pub desc: Seq<Seq<char>>,
    /// `@param` tags, already written out.
    pub param_tags: Seq<Seq<char>>,
    /// `@return` tags, already written out.
    pub return_tags: Seq<Seq<char>>,
    /// Other tags.
    pub others: Seq<Seq<char>>,
    /// Whether plain text continues the description.
    pub in_desc: bool,
}

/// The parameter tag: `@custom:param` for mappings, else `@param`.
pub open spec fn param_tag(mapping: bool) -> Seq<char> {
    if mapping {
        "@custom:param"@
    } else {
        "@param"@
    }
}

/// The return tag: `@custom:return` for mappings, else `@return`.
pub open spec fn return_tag(mapping: bool) -> Seq<char> {
    if mapping {
        "@custom:return"@
    } else {
        "@return"@
    }
}

/// A documented name with a leading underscore, except `TODO`.
pub open spec fn prefixed_name(n: Seq<char>) -> Seq<char> {
    if (n.len() > 0 && n[0] == '_') || n == "TODO"@ {
        n
    } else {
        seq!['_'] + n
    }
}

/// A tag written out: the tag, the prefixed name, and the description after
/// the first space, if any.
pub open spec fn tag_entry(tag: Seq<char>, rest: Seq<char>) -> Seq<char> {
    match first_index(rest, ' ') {
        Some(k) => tag + seq![' '] + prefixed_name(rest.subrange(0, k)) + seq![' '] + rest.subrange(
            k + 1,
            rest.len() as int,
        ),
        None => tag + seq![' '] + prefixed_name(rest),
    }
}

/// `t` from position `n` on.
pub open spec fn after(t: Seq<char>, n: int) -> Seq<char> {
    t.subrange(n, t.len() as int)
}

/// The parts after one more line.
pub open spec fn var_line(s: VarDocs, line: Seq<char>, mapping: bool) -> VarDocs {
    let t = trim(line);
    if has_prefix(t, "@notice "@) {
        VarDocs {
            desc: s.desc.push(trim(after(t, 8))),
            param_tags: s.param_tags,
            return_tags: s.return_tags,
            others: s.others,
            in_desc: true,
        }
    } else if has_prefix(t, "@dev "@) {
        VarDocs {
            desc: s.desc.push(trim(after(t, 5))),
            param_tags: s.param_tags,
            return_tags: s.return_tags,
            others: s.others,
            in_desc: true,
        }
    } else if has_prefix(t, "@param "@) || has_prefix(t, "@custom:param "@) {
        let rest = if has_prefix(t, "@param "@) {
            after(t, 7)
        } else {
            after(t, 14)
        };
        VarDocs {
            desc: s.desc,
            param_tags: s.param_tags.push(tag_entry(param_tag(mapping), rest)),
            return_tags: s.return_tags,
            others: s.others,
            in_desc: false,
        }
    } else if has_prefix(t, "@return "@) || has_prefix(t, "@custom:return "@) {
        let rest = if has_prefix(t, "@return "@) {
            after(t, 8)
        } else {
            after(t, 15)
        };
        VarDocs {
            desc: s.desc,
            param_tags: s.param_tags,
            return_tags: s.return_tags.push(tag_entry(return_tag(mapping), rest)),
            others: s.others,
            in_desc: false,
        }
    } else if has_prefix(t, "@"@) {
        VarDocs {
            desc: s.desc,
            param_tags: s.param_tags,
            return_tags: s.return_tags,
            others: s.others.push(t),
            in_desc: false,
        }
    } else if t.len() > 0 && (s.in_desc || s.desc.len() > 0) {
        VarDocs {
            desc: if s.desc.len() > 0 {
                s.desc.drop_last().push(s.desc.last() + seq![' '] + t)
            } else {
                s.desc.push(t)
            },
            param_tags: s.param_tags,
            return_tags: s.return_tags,
            others: s.others,
            in_desc: s.in_desc,
        }
    } else {
        s
    }
}

/// The parts gathered from the lines, in order.
pub open spec fn var_scan(ls: Seq<Seq<char>>, mapping: bool) -> VarDocs
    decreases ls.len(),
{
    if ls.len() == 0 {
        VarDocs {
            desc: Seq::empty(),
            param_tags: Seq::empty(),
            return_tags: Seq::empty(),
            others: Seq::empty(),
            in_desc: false,
        }
    } else {
        var_line(var_scan(ls.drop_last(), mapping), ls.last(), mapping)
    }
}

/// `s` with its first occurrence of `from` replaced by `to` (`replacen`
/// with a count of one, for a non-empty pattern).
pub open spec fn replace_first(s: Seq<char>, from: Seq<char>, to: Seq<char>) -> Seq<char>
    decreases s.len(),
{
    if from.len() == 0 || s.len() == 0 {
        s
    } else if has_prefix(s, from) {
        to + s.subrange(from.len() as int, s.len() as int)
    } else {
        seq![s[0]] + replace_first(s.subrange(1, s.len() as int), from, to)
    }
}

/// Extra parameter tags (past `np`) turned into return tags, from the last,
/// while fewer than `nr` return tags exist.
pub open spec fn move_extra(
    param_tags: Seq<Seq<char>>,
    return_tags: Seq<Seq<char>>,
    np: int,
    nr: int,
    mapping: bool,
) -> (Seq<Seq<char>>, Seq<Seq<char>>)
    decreases param_tags.len(),
{
    if param_tags.len() > np && return_tags.len() < nr && param_tags.len() > 0 {
        move_extra(
            param_tags.drop_last(),
            return_tags.push(replace_first(param_tags.last(), param_tag(mapping), return_tag(mapping))),
            np,
            nr,
            mapping,
        )
    } else {
        (param_tags, return_tags)
    }
}

/// `n` copies of `tag TODO`.
pub open spec fn todos(tag: Seq<char>, n: int) -> Seq<Seq<char>>
    decreases n,
{
    if n <= 0 {
        Seq::empty()
    } else {
        todos(tag, n - 1).push(tag + " TODO"@)
    }
}

/// The tags once completed for a type that needs `np` parameters and `nr`
/// returns: where returns are missing and parameters are in excess, the
/// last parameters become returns; then missing ones are added as TODOs.
pub open spec fn var_completed(s: VarDocs, np: int, nr: int, mapping: bool) -> VarDocs {
    let (p1, r1) = if nr > 0 && s.param_tags.len() > np && s.return_tags.len() == 0 {
        move_extra(s.param_tags, s.return_tags, np, nr, mapping)
    } else {
        (s.param_tags, s.return_tags)
    };
    VarDocs {
        desc: s.desc,
        param_tags: p1 + todos(param_tag(mapping), np - p1.len()),
        return_tags: r1 + todos(return_tag(mapping), nr - r1.len()),
        others: s.others,
        in_desc: s.in_desc,
    }
}

/// Lines separated by hard line breaks.
pub open spec fn line_list_docs(ts: Seq<Seq<char>>) -> Seq<Doc>
    decreases ts.len(),
{
    if ts.len() == 0 {
        Seq::empty()
    } else if ts.len() == 1 {
        seq![Doc::Text(ts[0])]
    } else {
        line_list_docs(ts.drop_last()) + seq![Doc::Hard, Doc::Text(ts.last())]
    }
}

/// The body of a variable's NatSpec block: the description (or `TODO`),
/// then after a blank line the parameters, after a blank line the returns,
/// and after a line break the other tags.
pub open spec fn var_content_docs(s: VarDocs) -> Seq<Doc> {
    seq![Doc::Hard] + (if s.desc.len() > 0 {
        seq![Doc::Group(word_break_docs(words(join(s.desc, seq![' ']))))]
    } else {
        seq![Doc::Text("TODO"@)]
    }) + (if s.param_tags.len() > 0 {
        seq![Doc::Hard, Doc::Hard] + line_list_docs(s.param_tags)
    } else {
        Seq::empty()
    }) + (if s.return_tags.len() > 0 {
        seq![Doc::Hard, Doc::Hard] + line_list_docs(s.return_tags)
    } else {
        Seq::empty()
    }) + (if s.others.len() > 0 {
        seq![Doc::Hard] + line_list_docs(s.others)
    } else {
        Seq::empty()
    })
}

/// The NatSpec block of a variable of type `ty` documented by `lines`.
pub open spec fn var_natspec_docs(lines: Seq<Seq<char>>, ty: TypeShape) -> Seq<Doc> {
    let m = ty is Mapping;
    let s = var_completed(var_scan(lines, m), mapping_counts(ty).0, mapping_counts(ty).1, m);
    seq![Doc::Text("/**"@), Doc::Indent(var_content_docs(s)), Doc::Hard, Doc::Text("*/"@)]
}

/// A documented name with a leading underscore, except `TODO`.
fn prefixed_name_chars(n: &[char]) -> (r: Vec<char>)
    ensures
        r@ == prefixed_name(n@),
{
    let todo = chars_of("TODO");
    if (n.len() > 0 && n[0] == '_') || chars_equal(n, todo.as_slice()) {
        slice_chars(n, 0, n.len())
    } else {
        let mut r: Vec<char> = vec!['_'];
        push_all(&mut r, n);
        assert(r@ =~= seq!['_'] + n@);
        r
    }
}

/// A tag written out with its prefixed name and description.
fn tag_entry_chars(tag: &[char], rest: &[char]) -> (r: Vec<char>)
    ensures
        r@ == tag_entry(tag@, rest@),
{
    let n = rest.len();
    let found = find_char(rest, ' ');
    proof {
        lemma_first_index(rest@, ' ');
        match first_index(rest@, ' ') {
            Some(j) => {
                assert(found == Some(j as usize));
            },
            None => {},
        }
    }
    let mut r: Vec<char> = Vec::new();
    push_all(&mut r, tag);
    r.push(' ');
    match found {
        Some(k) => {
            let name = slice_chars(rest, 0, k);
            push_all(&mut r, prefixed_name_chars(name.as_slice()).as_slice());
            r.push(' ');
            push_all(&mut r, slice_chars(rest, k + 1, n).as_slice());
        },
        None => {
            push_all(&mut r, prefixed_name_chars(rest).as_slice());
        },
    }
    r
}

/// Replaces the first occurrence of `from` by `to`.
fn replace_first_chars(s: &[char], from: &[char], to: &[char]) -> (r: Vec<char>)
    requires
        from@.len() > 0,
    ensures
        r@ == replace_first(s@, from@, to@),
{
    let mut out: Vec<char> = Vec::new();
    let mut i: usize = 0;
    assert(s@.subrange(0, s@.len() as int) =~= s@);
    while i < s.len()
        invariant
            i <= s@.len(),
            from@.len() > 0,
            replace_first(s@, from@, to@) == out@ + replace_first(
                s@.subrange(i as int, s@.len() as int),
                from@,
                to@,
            ),
        decreases s@.len() - i,
    {
        let ghost rest = s@.subrange(i as int, s@.len() as int);
        let tail = slice_chars(s, i, s.len());
        if starts_with(tail.as_slice(), from) {
            push_all(&mut out, to);
            let after_match = slice_chars(s, i + from.len(), s.len());
            assert(rest.subrange(from@.len() as int, rest.len() as int) =~= after_match@);
            push_all(&mut out, after_match.as_slice());
            return out;
        }
        let ghost o = out@;
        out.push(s[i]);
        assert(rest.subrange(1, rest.len() as int) =~= s@.subrange(i + 1, s@.len() as int));
        assert(o + (seq![s@[i as int]] + replace_first(
            s@.subrange(i + 1, s@.len() as int),
            from@,
            to@,
        )) =~= out@ + replace_first(s@.subrange(i + 1, s@.len() as int), from@, to@));
        i = i + 1;
    }
    assert(out@ + replace_first(s@.subrange(i as int, s@.len() as int), from@, to@) =~= out@);
    out
}

/// The parts gathered so far, held as character vectors.
struct VarState {
    desc: Vec<Vec<char>>,
    param_tags: Vec<Vec<char>>,
    return_tags: Vec<Vec<char>>,
    others: Vec<Vec<char>>,
    in_desc: bool,
}

impl VarState {
    spec fn parts(&self) -> VarDocs {
        VarDocs {
            desc: views(self.desc@),
            param_tags: views(self.param_tags@),
            return_tags: views(self.return_tags@),
            others: views(self.others@),
            in_desc: self.in_desc,
        }
    }
}

/// Pushes a character vector, extending the views.
fn push_view(v: &mut Vec<Vec<char>>, x: Vec<char>)
    ensures
        views(final(v)@) == views(old(v)@).push(x@),
{
    let ghost before = views(v@);
    let ghost xv = x@;
    v.push(x);
    assert(views(v@) =~= before.push(xv));
}

/// Takes one more line into the gathered parts.
#[verifier::spinoff_prover]
fn var_step(st: &mut VarState, line: &String, mapping: bool)
    ensures
        final(st).parts() == var_line(old(st).parts(), line@, mapping),
{
    let lc = chars_of(line.as_str());
    let t = trim_chars(lc.as_slice());
    let notice = chars_of("@notice ");
    let dev = chars_of("@dev ");
    let param = chars_of("@param ");
    let cparam = chars_of("@custom:param ");
    let ret = chars_of("@return ");
    let cret = chars_of("@custom:return ");
    let at = chars_of("@");
    proof {
        reveal_strlit("@notice ");
        reveal_strlit("@dev ");
        reveal_strlit("@param ");
        reveal_strlit("@custom:param ");
        reveal_strlit("@return ");
        reveal_strlit("@custom:return ");
        reveal_strlit("@");
        reveal_strlit("@custom:param");
        reveal_strlit("@param");
        reveal_strlit("@custom:return");
        reveal_strlit("@return");
    }
    let ptag = if mapping {
        chars_of("@custom:param")
    } else {
        chars_of("@param")
    };
    let rtag = if mapping {
        chars_of("@custom:return")
    } else {
        chars_of("@return")
    };
    let n = t.len();
    let ghost s0 = st.parts();
    let ghost tv = trim(line@);
    assert(t@ == tv);
    assert(views(st.desc@).len() == st.desc@.len());
    if starts_with(t.as_slice(), notice.as_slice()) {
        let rest = slice_chars(t.as_slice(), 8, n);
        push_view(&mut st.desc, trim_chars(rest.as_slice()));
        st.in_desc = true;
    } else if starts_with(t.as_slice(), dev.as_slice()) {
        let rest = slice_chars(t.as_slice(), 5, n);
        push_view(&mut st.desc, trim_chars(rest.as_slice()));
        st.in_desc = true;
    } else if starts_with(t.as_slice(), param.as_slice()) || starts_with(
        t.as_slice(),
        cparam.as_slice(),
    ) {
        let rest = if starts_with(t.as_slice(), param.as_slice()) {
            slice_chars(t.as_slice(), 7, n)
        } else {
            slice_chars(t.as_slice(), 14, n)
        };
        push_view(&mut st.param_tags, tag_entry_chars(ptag.as_slice(), rest.as_slice()));
        st.in_desc = false;
    } else if starts_with(t.as_slice(), ret.as_slice()) || starts_with(t.as_slice(), cret.as_slice()) {
        let rest = if starts_with(t.as_slice(), ret.as_slice()) {
            slice_chars(t.as_slice(), 8, n)
        } else {
            slice_chars(t.as_slice(), 15, n)
        };
        push_view(&mut st.return_tags, tag_entry_chars(rtag.as_slice(), rest.as_slice()));
        st.in_desc = false;
    } else if starts_with(t.as_slice(), at.as_slice()) {
        push_view(&mut st.others, t);
        st.in_desc = false;
    } else if n > 0 && (st.in_desc || st.desc.len() > 0) {
        if st.desc.len() > 0 {
            let ghost before = views(st.desc@);
            let ghost old_desc = st.desc@;
            assert(before.last() == old_desc.last()@);
            let mut last = st.desc.pop().unwrap();
            assert(views(st.desc@) =~= before.drop_last());
            let ghost l0 = last@;
            assert(l0 == before.last());
            last.push(' ');
            push_all(&mut last, t.as_slice());
            assert(last@ =~= l0 + seq![' '] + tv);
            push_view(&mut st.desc, last);
            assert(st.parts().desc =~= s0.desc.drop_last().push(s0.desc.last() + seq![' '] + tv));
        } else {
            push_view(&mut st.desc, t);
        }
        assert(st.parts() == var_line(s0, line@, mapping));
    } else {
        assert(st.parts() == var_line(s0, line@, mapping));
    }
}

/// Appends lines separated by hard line breaks.
fn push_line_list(ir: &mut Vec<IRElement>, ts: &Vec<Vec<char>>, Ghost(ds): Ghost<Seq<Doc>>)
    requires
        docs(old(ir)@, ds),
    ensures
        docs(final(ir)@, ds + line_list_docs(views(ts@))),
{
    let ghost tv = views(ts@);
    let mut i: usize = 0;
    assert(tv.take(0) =~= Seq::<Seq<char>>::empty());
    assert(ds =~= ds + line_list_docs(tv.take(0)));
    while i < ts.len()
        invariant
            i <= ts@.len(),
            tv == views(ts@),
            docs(ir@, ds + line_list_docs(tv.take(i as int))),
        decreases ts@.len() - i,
    {
        let ghost pre = ds + line_list_docs(tv.take(i as int));
        assert(tv.take(i + 1).drop_last() =~= tv.take(i as int));
        assert(tv[i as int] == ts@[i as int]@);
        let ghost mut cur = pre;
        if i > 0 {
            proof {
                lemma_docs_push(ir@, pre, IRElement::HardLineBreak, Doc::Hard);
            }
            ir.push(IRElement::HardLineBreak);
            proof {
                cur = pre.push(Doc::Hard);
            }
        }
        let e = IRElement::Text(string_from(ts[i].as_slice()));
        proof {
            lemma_docs_push(ir@, cur, e, Doc::Text(tv[i as int]));
        }
        ir.push(e);
        proof {
            if i == 0 {
                assert(tv.take(1) =~= seq![tv[0]]);
                assert(cur.push(Doc::Text(tv[i as int])) =~= ds + line_list_docs(tv.take(1)));
            } else {
                assert(cur.push(Doc::Text(tv[i as int])) =~= ds + line_list_docs(tv.take(i + 1)));
            }
        }
        i = i + 1;
    }
    assert(tv.take(ts@.len() as int) =~= tv);
}

/// Appends a hard line break.
fn push_hard(ir: &mut Vec<IRElement>, Ghost(ds): Ghost<Seq<Doc>>)
    requires
        docs(old(ir)@, ds),
    ensures
        docs(final(ir)@, ds.push(Doc::Hard)),
{
    proof {
        lemma_docs_push(ir@, ds, IRElement::HardLineBreak, Doc::Hard);
    }
    ir.push(IRElement::HardLineBreak);
}

/// Completes the tags for the type: extra parameters become returns where
/// returns are missing, then missing tags are added as TODOs.
fn complete_tags(st: &mut VarState, ty: &TypeShape, mapping: bool)
    requires
        mapping_depth(*ty) < usize::MAX,
        mapping == (*ty is Mapping),
    ensures
        final(st).parts() == var_completed(
            old(st).parts(),
            mapping_counts(*ty).0,
            mapping_counts(*ty).1,
            mapping,
        ),
{
    let ghost s0 = st.parts();
    assert(s0.param_tags.len() == st.param_tags@.len());
    assert(s0.return_tags.len() == st.return_tags@.len());
    let (np, nr) = count_mapping_params(ty);
    proof {
        reveal_strlit("@custom:param");
        reveal_strlit("@param");
        reveal_strlit("@custom:return");
        reveal_strlit("@return");
    }
    let ptag = if mapping {
        chars_of("@custom:param")
    } else {
        chars_of("@param")
    };
    let rtag = if mapping {
        chars_of("@custom:return")
    } else {
        chars_of("@return")
    };
    if nr > 0 && st.param_tags.len() > np && st.return_tags.len() == 0 {
        while st.param_tags.len() > np && st.return_tags.len() < nr
            invariant
                ptag@ == param_tag(mapping),
                rtag@ == return_tag(mapping),
                ptag@.len() > 0,
                move_extra(s0.param_tags, s0.return_tags, np as int, nr as int, mapping) == move_extra(
                    views(st.param_tags@),
                    views(st.return_tags@),
                    np as int,
                    nr as int,
                    mapping,
                ),
                views(st.desc@) == s0.desc,
                views(st.others@) == s0.others,
                st.in_desc == s0.in_desc,
            st.in_desc == s0.in_desc,
            decreases st.param_tags@.len(),
        {
            let ghost pv = views(st.param_tags@);
            let ghost rv = views(st.return_tags@);
            assert(pv.len() == st.param_tags@.len());
            assert(rv.len() == st.return_tags@.len());
            let ghost old_params = st.param_tags@;
            assert(pv.last() == old_params.last()@);
            let extra = st.param_tags.pop().unwrap();
            assert(views(st.param_tags@) =~= pv.drop_last());
            let moved = replace_first_chars(extra.as_slice(), ptag.as_slice(), rtag.as_slice());
            push_view(&mut st.return_tags, moved);
        }
        assert(views(st.param_tags@).len() == st.param_tags@.len());
        assert(views(st.return_tags@).len() == st.return_tags@.len());
    }
    let ghost p1 = views(st.param_tags@);
    let ghost r1 = views(st.return_tags@);
    assert((p1, r1) == (if nr > 0 && s0.param_tags.len() > np && s0.return_tags.len() == 0 {
        move_extra(s0.param_tags, s0.return_tags, np as int, nr as int, mapping)
    } else {
        (s0.param_tags, s0.return_tags)
    }));
    let mut ptodo = slice_chars(ptag.as_slice(), 0, ptag.len());
    push_all(&mut ptodo, chars_of(" TODO").as_slice());
    let mut rtodo = slice_chars(rtag.as_slice(), 0, rtag.len());
    push_all(&mut rtodo, chars_of(" TODO").as_slice());
    assert(ptodo@ =~= param_tag(mapping) + " TODO"@);
    assert(rtodo@ =~= return_tag(mapping) + " TODO"@);
    assert(todos(param_tag(mapping), 0) =~= Seq::<Seq<char>>::empty());
    assert(p1 =~= p1 + todos(param_tag(mapping), 0));
    while st.param_tags.len() < np
        invariant
            ptodo@ == param_tag(mapping) + " TODO"@,
            st.param_tags@.len() >= p1.len(),
            st.param_tags@.len() == p1.len() || st.param_tags@.len() <= np,
            views(st.param_tags@) == p1 + todos(
                param_tag(mapping),
                st.param_tags@.len() - p1.len(),
            ),
            views(st.desc@) == s0.desc,
            views(st.others@) == s0.others,
            st.in_desc == s0.in_desc,
            views(st.return_tags@) == r1,
        decreases np - st.param_tags@.len(),
    {
        let ghost k = st.param_tags@.len() - p1.len();
        let item = slice_chars(ptodo.as_slice(), 0, ptodo.len());
        assert(item@ =~= ptodo@);
        push_view(&mut st.param_tags, item);
        assert(views(st.param_tags@) =~= p1 + todos(param_tag(mapping), k + 1));
    }
    proof {
        if p1.len() >= np {
            lemma_todos_none(param_tag(mapping), p1.len() as int, np as int);
            assert(todos(param_tag(mapping), 0) =~= Seq::<Seq<char>>::empty());
        }
    }
    assert(views(st.param_tags@) == p1 + todos(param_tag(mapping), np - p1.len()));
    assert(todos(return_tag(mapping), 0) =~= Seq::<Seq<char>>::empty());
    assert(r1 =~= r1 + todos(return_tag(mapping), 0));
    while st.return_tags.len() < nr
        invariant
            rtodo@ == return_tag(mapping) + " TODO"@,
            st.return_tags@.len() >= r1.len(),
            st.return_tags@.len() == r1.len() || st.return_tags@.len() <= nr,
            views(st.return_tags@) == r1 + todos(
                return_tag(mapping),
                st.return_tags@.len() - r1.len(),
            ),
            views(st.desc@) == s0.desc,
            views(st.others@) == s0.others,
            st.in_desc == s0.in_desc,
            views(st.param_tags@) == p1 + todos(param_tag(mapping), np - p1.len()),
        decreases nr - st.return_tags@.len(),
    {
        let ghost k = st.return_tags@.len() - r1.len();
        let item = slice_chars(rtodo.as_slice(), 0, rtodo.len());
        assert(item@ =~= rtodo@);
        push_view(&mut st.return_tags, item);
        assert(views(st.return_tags@) =~= r1 + todos(return_tag(mapping), k + 1));
    }
    proof {
        if r1.len() >= nr {
            lemma_todos_none(return_tag(mapping), r1.len() as int, nr as int);
            assert(todos(return_tag(mapping), 0) =~= Seq::<Seq<char>>::empty());
        }
    }
    assert(views(st.return_tags@) == r1 + todos(return_tag(mapping), nr - r1.len()));
    assert(st.parts() == var_completed(s0, np as int, nr as int, mapping));
}

/// The body of the NatSpec block for the gathered parts.
#[verifier::spinoff_prover]
fn var_content(st: &VarState) -> (content: Vec<IRElement>)
    ensures
        docs(content@, var_content_docs(st.parts())),
{
    assert(views(st.desc@).len() == st.desc@.len());
    assert(views(st.param_tags@).len() == st.param_tags@.len());
    assert(views(st.return_tags@).len() == st.return_tags@.len());
    assert(views(st.others@).len() == st.others@.len());
    let mut content: Vec<IRElement> = Vec::new();
    proof {
        lemma_docs(content@, Seq::empty());
    }
    push_hard(&mut content, Ghost(Seq::empty()));
    let ghost mut ds = seq![Doc::Hard];
    assert(Seq::<Doc>::empty().push(Doc::Hard) =~= ds);
    if st.desc.len() > 0 {
        let space: Vec<char> = vec![' '];
        assert(space@ =~= seq![' ']);
        let joined = join_chars(&st.desc, space.as_slice());
        let text = string_from(joined.as_slice());
        let inner = text_with_word_breaks(text.as_str());
        let g = IRElement::Group(inner);
        let ghost gd = Doc::Group(word_break_docs(words(join(st.parts().desc, seq![' ']))));
        proof {
            lemma_docs_push(content@, ds, g, gd);
            ds = ds.push(gd);
        }
        content.push(g);
    } else {
        let e = IRElement::text("TODO");
        proof {
            lemma_docs_push(content@, ds, e, Doc::Text("TODO"@));
            ds = ds.push(Doc::Text("TODO"@));
        }
        content.push(e);
    }
    let ghost c1 = ds;
    if st.param_tags.len() > 0 {
        push_hard(&mut content, Ghost(c1));
        push_hard(&mut content, Ghost(c1.push(Doc::Hard)));
        push_line_list(&mut content, &st.param_tags, Ghost(c1.push(Doc::Hard).push(Doc::Hard)));
        assert(c1.push(Doc::Hard).push(Doc::Hard) + line_list_docs(st.parts().param_tags) =~= c1 + (seq![
            Doc::Hard,
            Doc::Hard,
        ] + line_list_docs(st.parts().param_tags)));
    } else {
        assert(c1 =~= c1 + Seq::<Doc>::empty());
    }
    let ghost c2 = c1 + (if st.parts().param_tags.len() > 0 {
        seq![Doc::Hard, Doc::Hard] + line_list_docs(st.parts().param_tags)
    } else {
        Seq::empty()
    });
    if st.return_tags.len() > 0 {
        push_hard(&mut content, Ghost(c2));
        push_hard(&mut content, Ghost(c2.push(Doc::Hard)));
        push_line_list(&mut content, &st.return_tags, Ghost(c2.push(Doc::Hard).push(Doc::Hard)));
        assert(c2.push(Doc::Hard).push(Doc::Hard) + line_list_docs(st.parts().return_tags) =~= c2 + (seq![
            Doc::Hard,
            Doc::Hard,
        ] + line_list_docs(st.parts().return_tags)));
    } else {
        assert(c2 =~= c2 + Seq::<Doc>::empty());
    }
    let ghost c3 = c2 + (if st.parts().return_tags.len() > 0 {
        seq![Doc::Hard, Doc::Hard] + line_list_docs(st.parts().return_tags)
    } else {
        Seq::empty()
    });
    if st.others.len() > 0 {
        push_hard(&mut content, Ghost(c3));
        push_line_list(&mut content, &st.others, Ghost(c3.push(Doc::Hard)));
        assert(c3.push(Doc::Hard) + line_list_docs(st.parts().others) =~= c3 + (seq![Doc::Hard]
            + line_list_docs(st.parts().others)));
    } else {
        assert(c3 =~= c3 + Seq::<Doc>::empty());
    }
    assert(c3 + (if st.parts().others.len() > 0 {
        seq![Doc::Hard] + line_list_docs(st.parts().others)
    } else {
        Seq::empty()
    }) =~= var_content_docs(st.parts()));
    content
}

/// The NatSpec block of a state variable: its description (or `TODO`),
/// its `@param` and `@return` tags, and its other tags. Parameter and return
/// names get a leading underscore; a mapping uses `@custom:param` and
/// `@custom:return`, and gets TODO tags for every key and for its value
/// that the lines do not document (an extra parameter tag is taken as the
/// return tag).
pub fn build_variable_natspec_ir_with_type(natspec_lines: &[String], ty: &Expression) -> (r: Vec<
    IRElement,
>)
    requires
        mapping_depth(type_shape(*ty)) < usize::MAX,
    ensures
        docs(r@, var_natspec_docs(str_views(natspec_lines@), type_shape(*ty))),
{
    let shape = shape_of(ty);
    build_natspec_for_shape(natspec_lines, &shape)
}

/// The shape of a type: whether it is a mapping, and of what.
pub fn shape_of(e: &Expression) -> (r: TypeShape)
    ensures
        r == type_shape(*e),
    decreases e,
{
    match e {
        Expression::Type(t) => match t {
            SolType::Mapping { value, .. } => TypeShape::Mapping(Box::new(shape_of(&**value))),
            _ => TypeShape::Other,
        },
        _ => TypeShape::Other,
    }
}

/// The NatSpec block of a state variable whose type has the shape `ty`.
fn build_natspec_for_shape(natspec_lines: &[String], ty: &TypeShape) -> (r: Vec<IRElement>)
    requires
        mapping_depth(*ty) < usize::MAX,
    ensures
        docs(r@, var_natspec_docs(str_views(natspec_lines@), *ty)),
{
    let mapping = match ty {
        TypeShape::Mapping(_) => true,
        TypeShape::Other => false,
    };
    let ghost lv = str_views(natspec_lines@);
    let mut st = VarState {
        desc: Vec::new(),
        param_tags: Vec::new(),
        return_tags: Vec::new(),
        others: Vec::new(),
        in_desc: false,
    };
    assert(st.parts() == var_scan(lv.take(0), mapping)) by {
        assert(lv.take(0) =~= Seq::<Seq<char>>::empty());
        assert(views(st.desc@) =~= Seq::<Seq<char>>::empty());
        assert(views(st.param_tags@) =~= Seq::<Seq<char>>::empty());
        assert(views(st.return_tags@) =~= Seq::<Seq<char>>::empty());
        assert(views(st.others@) =~= Seq::<Seq<char>>::empty());
    }
    let mut i: usize = 0;
    while i < natspec_lines.len()
        invariant
            i <= natspec_lines@.len(),
            lv == str_views(natspec_lines@),
            st.parts() == var_scan(lv.take(i as int), mapping),
        decreases natspec_lines@.len() - i,
    {
        assert(lv.take(i + 1).drop_last() =~= lv.take(i as int));
        assert(lv.take(i + 1).last() == natspec_lines@[i as int]@);
        var_step(&mut st, &natspec_lines[i], mapping);
        i = i + 1;
    }
    assert(lv.take(i as int) =~= lv);
    let ghost s0 = st.parts();
    complete_tags(&mut st, ty, mapping);
    let (np, nr) = count_mapping_params(ty);
    let ghost fin = var_completed(s0, np as int, nr as int, mapping);
    let content = var_content(&st);
    let open_text = IRElement::text("/**");
    let close_text = IRElement::text("*/");
    let r = vec![open_text, IRElement::Indent(content), IRElement::HardLineBreak, close_text];
    proof {
        lemma_docs(r@, var_natspec_docs(lv, *ty));
    }
    r
}

/// Adding no TODOs leaves the tags as they are.
proof fn lemma_todos_none(tag: Seq<char>, have: int, need: int)
    requires
        have >= need,
    ensures
        todos(tag, need - have) == Seq::<Seq<char>>::empty(),
{
}

/// `s` without every leading repetition of `p`.
pub open spec fn strip_all_prefix(s: Seq<char>, p: Seq<char>) -> Seq<char>
    decreases s.len(),
{
    if p.len() > 0 && has_prefix(s, p) {
        strip_all_prefix(s.subrange(p.len() as int, s.len() as int), p)
    } else {
        s
    }
}

/// `s` without every trailing repetition of `p`.
pub open spec fn strip_all_suffix(s: Seq<char>, p: Seq<char>) -> Seq<char>
    decreases s.len(),
{
    if p.len() > 0 && has_suffix(s, p) {
        strip_all_suffix(s.subrange(0, s.len() - p.len()), p)
    } else {
        s
    }
}

/// Removes every leading repetition of `p` (`trim_start_matches`).
pub(crate) fn strip_all_prefix_chars(s: &[char], p: &[char]) -> (r: Vec<char>)
    ensures
        r@ == strip_all_prefix(s@, p@),
{
    let mut cur = slice_chars(s, 0, s.len());
    assert(cur@ =~= s@);
    if p.len() == 0 {
        return cur;
    }
    while starts_with(cur.as_slice(), p)
        invariant
            p@.len() > 0,
            strip_all_prefix(cur@, p@) == strip_all_prefix(s@, p@),
        decreases cur@.len(),
    {
        cur = slice_chars(cur.as_slice(), p.len(), cur.len());
    }
    cur
}

/// Removes every trailing repetition of `p` (`trim_end_matches`).
pub(crate) fn strip_all_suffix_chars(s: &[char], p: &[char]) -> (r: Vec<char>)
    ensures
        r@ == strip_all_suffix(s@, p@),
{
    let mut cur = slice_chars(s, 0, s.len());
    assert(cur@ =~= s@);
    if p.len() == 0 {
        return cur;
    }
    while ends_with(cur.as_slice(), p)
        invariant
            p@.len() > 0,
            strip_all_suffix(cur@, p@) == strip_all_suffix(s@, p@),
        decreases cur@.len(),
    {
        cur = slice_chars(cur.as_slice(), 0, cur.len() - p.len());
    }
    cur
}

/// What the leading comments of a variable contribute: their IR, the
/// NatSpec lines of its `///` comments, whether one of those is a tag, and
/// whether a plain comment was seen.
pub struct LeadScan {
    /// The IR of the comments written out as they are.
    pub docs: Seq<Doc>,
    /// The text of the `///` comments.
    pub lines: Seq<Seq<char>>,
    /// Whether one of the `///` comments is a tag.
    pub natspec: bool,
    /// Whether a `//` or `/* */` comment was seen.
    pub regular: bool,
}

/// The text of a `///` comment.
pub open spec fn doc_line_text(t: Seq<char>) -> Seq<char> {
    trim(strip_all_prefix(t, "///"@))
}

/// One more leading comment: a `///` comment adds a NatSpec line, a `/** */`
/// comment is written as a NatSpec block when it holds `@`, and any other
/// comment is written as it is.
pub open spec fn lead_step(st: LeadScan, c: Comment) -> LeadScan {
    match c {
        Comment::DocLine(t) => {
            let x = doc_line_text(t@);
            LeadScan {
                docs: st.docs,
                lines: st.lines.push(x),
                natspec: st.natspec || has_prefix(x, "@"@),
                regular: st.regular,
            }
        },
        Comment::DocBlock(t) => LeadScan {
            docs: if first_index(t@, '@') is Some {
                st.docs + natspec_docs(t@) + seq![Doc::Hard]
            } else {
                st.docs + seq![comment_doc(c, false), Doc::Hard]
            },
            lines: st.lines,
            natspec: st.natspec,
            regular: st.regular,
        },
        _ => LeadScan {
            docs: st.docs + seq![comment_doc(c, false), Doc::Hard],
            lines: st.lines,
            natspec: st.natspec,
            regular: true,
        },
    }
}

/// The scan of the leading comments, in order.
pub open spec fn lead_scan(cs: Seq<Comment>) -> LeadScan
    decreases cs.len(),
{
    if cs.len() == 0 {
        LeadScan { docs: Seq::empty(), lines: Seq::empty(), natspec: false, regular: false }
    } else {
        lead_step(lead_scan(cs.drop_last()), cs.last())
    }
}

/// The text a trailing comment adds to the NatSpec lines, if not empty.
pub open spec fn trailing_text(c: Comment) -> Seq<char> {
    match c {
        Comment::Line(t) => trim(strip_all_prefix(strip_all_prefix(t@, "///"@), "//"@)),
        Comment::DocLine(t) => trim(strip_all_prefix(strip_all_prefix(t@, "///"@), "//"@)),
        Comment::Block(t) => trim(strip_all_suffix(strip_all_prefix(t@, "/*"@), "*/"@)),
        Comment::DocBlock(t) => trim(strip_all_suffix(strip_all_prefix(t@, "/*"@), "*/"@)),
    }
}

/// The non-empty texts of the trailing comments, in order.
pub open spec fn trailing_lines(cs: Seq<Comment>) -> Seq<Seq<char>>
    decreases cs.len(),
{
    if cs.len() == 0 {
        Seq::empty()
    } else if trailing_text(cs.last()).len() > 0 {
        trailing_lines(cs.drop_last()).push(trailing_text(cs.last()))
    } else {
        trailing_lines(cs.drop_last())
    }
}

/// A NatSpec line that is a tag other than `@notice` and `@dev`.
pub open spec fn other_tag_line(l: Seq<char>) -> bool {
    let t = trim(l);
    has_prefix(t, "@"@) && !has_prefix(t, "@notice"@) && !has_prefix(t, "@dev"@)
}

/// The description part of a line: without `@notice ` or `@dev `.
pub open spec fn description_part(l: Seq<char>) -> Seq<char> {
    let t = trim(l);
    if has_prefix(t, "@notice "@) {
        after(t, 8)
    } else if has_prefix(t, "@dev "@) {
        after(t, 5)
    } else {
        t
    }
}

/// The description parts of the lines.
pub open spec fn description_parts(ls: Seq<Seq<char>>) -> Seq<Seq<char>> {
    ls.map_values(|l: Seq<char>| description_part(l))
}

/// The documentation of a variable, before its declaration: with comments,
/// the IR of its comments and a NatSpec block (or a one-line `///`
/// description) from its `///` and trailing comments; without comments, a
/// TODO block for a mapping or `/// TODO`.
pub open spec fn var_doc_docs(v: CommentedElement<VariableDefinition>) -> Seq<Doc> {
    let leading = v.leading_comments@;
    let trailing = v.trailing_comments@;
    if leading.len() > 0 || trailing.len() > 0 {
        let ls = lead_scan(leading);
        let lines = ls.lines + trailing_lines(trailing);
        ls.docs + if ls.natspec && lines.len() > 0 {
            if (exists|i: int| 0 <= i < lines.len() && #[trigger] other_tag_line(lines[i]))
                || type_shape(v.element.ty) is Mapping {
                var_natspec_docs(lines, type_shape(v.element.ty)) + seq![Doc::Hard]
            } else {
                seq![Doc::Comment(join(description_parts(lines), " "@), true), Doc::Hard]
            }
        } else if !ls.regular && lines.len() > 0 {
            leading_comment_docs(leading)
        } else {
            Seq::empty()
        }
    } else if type_shape(v.element.ty) is Mapping {
        var_natspec_docs(Seq::empty(), type_shape(v.element.ty)) + seq![Doc::Hard]
    } else {
        seq![Doc::Text("/// TODO"@), Doc::Hard]
    }
}

/// Each comment written as it is, followed by a line break.
pub open spec fn leading_comment_docs(cs: Seq<Comment>) -> Seq<Doc>
    decreases cs.len(),
{
    if cs.len() == 0 {
        Seq::empty()
    } else {
        leading_comment_docs(cs.drop_last()) + seq![comment_doc(cs.last(), false), Doc::Hard]
    }
}

/// The attributes, each after a space.
pub open spec fn attr_docs(attrs: Seq<VariableAttribute>) -> Seq<Doc>
    decreases attrs.len(),
{
    if attrs.len() == 0 {
        Seq::empty()
    } else {
        attr_docs(attrs.drop_last()) + seq![Doc::Text(" "@), Doc::Text(var_attr_text(attrs.last()))]
    }
}

/// How a state variable's attribute is written.
pub open spec fn var_attr_text(a: VariableAttribute) -> Seq<char> {
    match a {
        VariableAttribute::Visibility(v) => visibility_text(v),
        VariableAttribute::Constant => "constant"@,
        VariableAttribute::Immutable => "immutable"@,
        VariableAttribute::Override(_) => "override"@,
    }
}

/// A state variable's attribute as text.
pub fn format_variable_attribute(attr: &VariableAttribute) -> (r: IRElement)
    ensures
        doc_match(r, Doc::Text(var_attr_text(*attr))),
{
    match attr {
        VariableAttribute::Visibility(v) => format_visibility(v),
        VariableAttribute::Constant => IRElement::text("constant"),
        VariableAttribute::Immutable => IRElement::text("immutable"),
        VariableAttribute::Override(_) => IRElement::text("override"),
    }
}

/// Whether a state variable's type and initializer can be laid out.
pub open spec fn var_ok(v: VariableDefinition) -> bool {
    &&& mapping_depth(type_shape(v.ty)) < usize::MAX
    &&& expr_ok(v.ty)
    &&& match v.initializer {
        Some(e) => expr_ok(e),
        None => true,
    }
}

/// The declaration: type, attributes, name, and the initializer (which may
/// move to the next line after `=`) or `;`.
pub open spec fn var_decl_docs(v: VariableDefinition) -> Seq<Doc> {
    seq![expr_doc(v.ty, Seq::empty())] + attr_docs(v.attrs@) + seq![Doc::Text(" "@)] + (match v.name {
        Some(n) => seq![Doc::Text(n@)],
        None => Seq::empty(),
    }) + (match v.initializer {
        Some(init) => seq![
            Doc::Group(
                seq![Doc::Text(" ="@), Doc::Indent(seq![Doc::Soft, expr_doc(init, Seq::empty()), Doc::Text(";"@)])],
            ),
        ],
        None => seq![Doc::Text(";"@)],
    }) + (if v.has_type_comments {
        seq![Doc::Text(" /* type has internal comments */"@)]
    } else {
        Seq::empty()
    })
}

/// The `/** */` comments with `@` among the leading comments can be
/// rebuilt as NatSpec blocks.
pub open spec fn var_comments_ok(cs: Seq<Comment>) -> bool {
    forall|i: int|
        0 <= i < cs.len() ==> (#[trigger] cs[i] matches Comment::DocBlock(t) ==> natspec_content_ok(
            t@,
        ))
}

/// Appends elements with their model.
fn append_modelled(ir: &mut Vec<IRElement>, es: Vec<IRElement>, Ghost(ds): Ghost<Seq<Doc>>, Ghost(
    es_docs,
): Ghost<Seq<Doc>>)
    requires
        docs(old(ir)@, ds),
        docs(es@, es_docs),
    ensures
        docs(final(ir)@, ds + es_docs),
{
    let mut es = es;
    proof {
        lemma_docs_append(ir@, ds, es@, es_docs);
    }
    ir.append(&mut es);
}

/// Appends an element with its model.
fn push_modelled(ir: &mut Vec<IRElement>, e: IRElement, Ghost(ds): Ghost<Seq<Doc>>, Ghost(d): Ghost<
    Doc,
>)
    requires
        docs(old(ir)@, ds),
        doc_match(e, d),
    ensures
        docs(final(ir)@, ds.push(d)),
{
    proof {
        lemma_docs_push(ir@, ds, e, d);
    }
    ir.push(e);
}

/// Scans the leading comments, appending the IR of those written as they
/// are; gives the `///` lines, whether one is a tag, and whether a plain
/// comment was seen.
#[verifier::spinoff_prover]
fn scan_leading(cs: &Vec<Comment>, ir: &mut Vec<IRElement>, Ghost(ds): Ghost<Seq<Doc>>) -> (r: (
    Vec<Vec<char>>,
    bool,
    bool,
))
    requires
        docs(old(ir)@, ds),
        var_comments_ok(cs@),
    ensures
        docs(final(ir)@, ds + lead_scan(cs@).docs),
        views(r.0@) == lead_scan(cs@).lines,
        r.1 == lead_scan(cs@).natspec,
        r.2 == lead_scan(cs@).regular,
{
    let mut lines: Vec<Vec<char>> = Vec::new();
    let mut natspec = false;
    let mut regular = false;
    let mut i: usize = 0;
    let triple = chars_of("///");
    let at = chars_of("@");
    assert(cs@.take(0) =~= Seq::<Comment>::empty());
    assert(views(lines@) =~= Seq::<Seq<char>>::empty());
    assert(ds =~= ds + lead_scan(cs@.take(0)).docs);
    while i < cs.len()
        invariant
            i <= cs@.len(),
            var_comments_ok(cs@),
            triple@ == "///"@,
            at@ == "@"@,
            docs(ir@, ds + lead_scan(cs@.take(i as int)).docs),
            views(lines@) == lead_scan(cs@.take(i as int)).lines,
            natspec == lead_scan(cs@.take(i as int)).natspec,
            regular == lead_scan(cs@.take(i as int)).regular,
        decreases cs@.len() - i,
    {
        let ghost st = lead_scan(cs@.take(i as int));
        assert(cs@.take(i + 1).drop_last() =~= cs@.take(i as int));
        assert(cs@.take(i + 1).last() == cs@[i as int]);
        let c = &cs[i];
        match c {
            Comment::DocLine(t) => {
                let tc = chars_of(t.as_str());
                let stripped = strip_all_prefix_chars(tc.as_slice(), triple.as_slice());
                let x = trim_chars(stripped.as_slice());
                if starts_with(x.as_slice(), at.as_slice()) {
                    natspec = true;
                }
                push_view(&mut lines, x);
                assert(ds + st.docs =~= ds + lead_scan(cs@.take(i + 1)).docs);
            },
            Comment::DocBlock(t) => {
                let tc = chars_of(t.as_str());
                let found = find_char(tc.as_slice(), '@');
                if found.is_some() {
                    assert(var_comments_ok(cs@) ==> (cs@[i as int] matches Comment::DocBlock(t)
                        ==> natspec_content_ok(t@)));
                    let block = build_natspec_comment_ir(t.as_str());
                    append_modelled(ir, block, Ghost(ds + st.docs), Ghost(natspec_docs(t@)));
                    push_hard(ir, Ghost(ds + st.docs + natspec_docs(t@)));
                    assert((ds + st.docs + natspec_docs(t@)).push(Doc::Hard) =~= ds + lead_scan(
                        cs@.take(i + 1),
                    ).docs);
                } else {
                    let e = build_comment(c);
                    push_modelled(ir, e, Ghost(ds + st.docs), Ghost(comment_doc(*c, false)));
                    push_hard(ir, Ghost((ds + st.docs).push(comment_doc(*c, false))));
                    assert((ds + st.docs).push(comment_doc(*c, false)).push(Doc::Hard) =~= ds
                        + lead_scan(cs@.take(i + 1)).docs);
                }
            },
            _ => {
                regular = true;
                let e = build_comment(c);
                push_modelled(ir, e, Ghost(ds + st.docs), Ghost(comment_doc(*c, false)));
                push_hard(ir, Ghost((ds + st.docs).push(comment_doc(*c, false))));
                assert((ds + st.docs).push(comment_doc(*c, false)).push(Doc::Hard) =~= ds + lead_scan(
                    cs@.take(i + 1),
                ).docs);
            },
        }
        i = i + 1;
    }
    assert(cs@.take(i as int) =~= cs@);
    (lines, natspec, regular)
}

/// Appends the non-empty texts of the trailing comments.
fn add_trailing_lines(cs: &Vec<Comment>, lines: &mut Vec<Vec<char>>)
    ensures
        views(final(lines)@) == views(old(lines)@) + trailing_lines(cs@),
{
    let ghost base = views(lines@);
    let triple = chars_of("///");
    let double = chars_of("//");
    let open = chars_of("/*");
    let close = chars_of("*/");
    let mut i: usize = 0;
    assert(cs@.take(0) =~= Seq::<Comment>::empty());
    assert(base =~= base + trailing_lines(cs@.take(0)));
    while i < cs.len()
        invariant
            i <= cs@.len(),
            triple@ == "///"@,
            double@ == "//"@,
            open@ == "/*"@,
            close@ == "*/"@,
            views(lines@) == base + trailing_lines(cs@.take(i as int)),
        decreases cs@.len() - i,
    {
        assert(cs@.take(i + 1).drop_last() =~= cs@.take(i as int));
        assert(cs@.take(i + 1).last() == cs@[i as int]);
        let x = match &cs[i] {
            Comment::Line(t) | Comment::DocLine(t) => {
                let tc = chars_of(t.as_str());
                let a = strip_all_prefix_chars(tc.as_slice(), triple.as_slice());
                let b = strip_all_prefix_chars(a.as_slice(), double.as_slice());
                trim_chars(b.as_slice())
            },
            Comment::Block(t) | Comment::DocBlock(t) => {
                let tc = chars_of(t.as_str());
                let a = strip_all_prefix_chars(tc.as_slice(), open.as_slice());
                let b = strip_all_suffix_chars(a.as_slice(), close.as_slice());
                trim_chars(b.as_slice())
            },
        };
        assert(x@ == trailing_text(cs@[i as int]));
        if x.len() > 0 {
            let ghost before = views(lines@);
            push_view(lines, x);
            assert(views(lines@) =~= base + trailing_lines(cs@.take(i + 1)));
        } else {
            assert(views(lines@) =~= base + trailing_lines(cs@.take(i + 1)));
        }
        i = i + 1;
    }
    assert(cs@.take(i as int) =~= cs@);
}

/// Strings with the characters of each vector.
fn to_strings(v: &Vec<Vec<char>>) -> (r: Vec<String>)
    ensures
        str_views(r@) == views(v@),
{
    let mut r: Vec<String> = Vec::new();
    let mut i: usize = 0;
    while i < v.len()
        invariant
            i <= v@.len(),
            str_views(r@) == views(v@).take(i as int),
        decreases v@.len() - i,
    {
        let ghost before = str_views(r@);
        let s = string_from(v[i].as_slice());
        r.push(s);
        assert(str_views(r@) =~= before.push(v@[i as int]@));
        assert(views(v@).take(i + 1) =~= views(v@).take(i as int).push(v@[i as int]@));
        i = i + 1;
    }
    assert(views(v@).take(i as int) =~= views(v@));
    r
}

/// Whether some line is a tag other than `@notice` and `@dev`.
fn has_other_tags(lines: &Vec<Vec<char>>) -> (b: bool)
    ensures
        b == exists|i: int| 0 <= i < lines@.len() && #[trigger] other_tag_line(views(lines@)[i]),
{
    let at = chars_of("@");
    let notice = chars_of("@notice");
    let dev = chars_of("@dev");
    let mut i: usize = 0;
    while i < lines.len()
        invariant
            i <= lines@.len(),
            at@ == "@"@,
            notice@ == "@notice"@,
            dev@ == "@dev"@,
            forall|j: int| 0 <= j < i ==> !#[trigger] other_tag_line(views(lines@)[j]),
        decreases lines@.len() - i,
    {
        let t = trim_chars(lines[i].as_slice());
        assert(views(lines@)[i as int] == lines@[i as int]@);
        if starts_with(t.as_slice(), at.as_slice()) && !starts_with(t.as_slice(), notice.as_slice())
            && !starts_with(t.as_slice(), dev.as_slice()) {
            assert(other_tag_line(views(lines@)[i as int]));
            return true;
        }
        i = i + 1;
    }
    false
}

/// The description parts of the lines joined by spaces.
fn joined_description(lines: &Vec<Vec<char>>) -> (r: String)
    ensures
        r@ == join(description_parts(views(lines@)), " "@),
{
    let notice = chars_of("@notice ");
    let dev = chars_of("@dev ");
    proof {
        reveal_strlit("@notice ");
        reveal_strlit("@dev ");
        reveal_strlit(" ");
    }
    let mut parts: Vec<Vec<char>> = Vec::new();
    let mut i: usize = 0;
    while i < lines.len()
        invariant
            i <= lines@.len(),
            notice@ == "@notice "@,
            dev@ == "@dev "@,
            "@notice "@.len() == 8,
            "@dev "@.len() == 5,
            views(parts@) == description_parts(views(lines@)).take(i as int),
        decreases lines@.len() - i,
    {
        let t = trim_chars(lines[i].as_slice());
        assert(views(lines@)[i as int] == lines@[i as int]@);
        let n = t.len();
        let part = if starts_with(t.as_slice(), notice.as_slice()) {
            slice_chars(t.as_slice(), 8, n)
        } else if starts_with(t.as_slice(), dev.as_slice()) {
            slice_chars(t.as_slice(), 5, n)
        } else {
            let whole = slice_chars(t.as_slice(), 0, n);
            assert(whole@ =~= t@);
            whole
        };
        assert(part@ == description_part(views(lines@)[i as int]));
        let ghost before = views(parts@);
        push_view(&mut parts, part);
        assert(description_parts(views(lines@)).take(i + 1) =~= before.push(
            description_part(views(lines@)[i as int]),
        ));
        i = i + 1;
    }
    assert(description_parts(views(lines@)).take(i as int) =~= description_parts(views(lines@)));
    let space: Vec<char> = vec![' '];
    assert(space@ =~= " "@);
    let joined = join_chars(&parts, space.as_slice());
    string_from(joined.as_slice())
}

/// Appends each comment as it is, each followed by a line break.
fn push_leading_comments(ir: &mut Vec<IRElement>, cs: &Vec<Comment>, Ghost(ds): Ghost<Seq<Doc>>)
    requires
        docs(old(ir)@, ds),
    ensures
        docs(final(ir)@, ds + leading_comment_docs(cs@)),
{
    let mut i: usize = 0;
    assert(cs@.take(0) =~= Seq::<Comment>::empty());
    assert(ds =~= ds + leading_comment_docs(cs@.take(0)));
    while i < cs.len()
        invariant
            i <= cs@.len(),
            docs(ir@, ds + leading_comment_docs(cs@.take(i as int))),
        decreases cs@.len() - i,
    {
        let ghost pre = ds + leading_comment_docs(cs@.take(i as int));
        assert(cs@.take(i + 1).drop_last() =~= cs@.take(i as int));
        assert(cs@.take(i + 1).last() == cs@[i as int]);
        let e = build_comment(&cs[i]);
        push_modelled(ir, e, Ghost(pre), Ghost(comment_doc(cs@[i as int], false)));
        push_hard(ir, Ghost(pre.push(comment_doc(cs@[i as int], false))));
        assert(pre.push(comment_doc(cs@[i as int], false)).push(Doc::Hard) =~= ds
            + leading_comment_docs(cs@.take(i + 1)));
        i = i + 1;
    }
    assert(cs@.take(i as int) =~= cs@);
}

/// Appends a copy-free move of an element with its own model.
fn push_own(ir: &mut Vec<IRElement>, e: IRElement, Ghost(ds): Ghost<Seq<Doc>>)
    requires
        docs(old(ir)@, ds),
    ensures
        docs(final(ir)@, ds.push(doc_of(e))),
{
    proof {
        lemma_doc_of(e);
    }
    push_modelled(ir, e, Ghost(ds), Ghost(doc_of(e)));
}

/// The documentation part of a variable definition.
#[verifier::spinoff_prover]
fn build_variable_docs(var_def: &CommentedElement<VariableDefinition>) -> (r: Vec<IRElement>)
    requires
        var_comments_ok(var_def.leading_comments@),
        mapping_depth(type_shape(var_def.element.ty)) < usize::MAX,
    ensures
        docs(r@, var_doc_docs(*var_def)),
{
    let mut ir: Vec<IRElement> = Vec::new();
    proof {
        lemma_docs(ir@, Seq::empty());
    }
    let is_mapping = match shape_of(&var_def.element.ty) {
        TypeShape::Mapping(_) => true,
        TypeShape::Other => false,
    };
    if var_def.leading_comments.len() > 0 || var_def.trailing_comments.len() > 0 {
        let ghost ls = lead_scan(var_def.leading_comments@);
        let (mut lines, is_natspec, has_regular) = scan_leading(
            &var_def.leading_comments,
            &mut ir,
            Ghost(Seq::empty()),
        );
        assert(Seq::<Doc>::empty() + ls.docs =~= ls.docs);
        add_trailing_lines(&var_def.trailing_comments, &mut lines);
        let ghost lv = ls.lines + trailing_lines(var_def.trailing_comments@);
        assert(views(lines@) == lv);
        assert(views(lines@).len() == lines@.len());
        if is_natspec && lines.len() > 0 {
            let other = has_other_tags(&lines);
            if other || is_mapping {
                let strings = to_strings(&lines);
                let block = build_variable_natspec_ir_with_type(
                    strings.as_slice(),
                    &var_def.element.ty,
                );
                append_modelled(
                    &mut ir,
                    block,
                    Ghost(ls.docs),
                    Ghost(var_natspec_docs(lv, type_shape(var_def.element.ty))),
                );
                push_hard(&mut ir, Ghost(ls.docs + var_natspec_docs(lv, type_shape(var_def.element.ty))));
                assert((ls.docs + var_natspec_docs(lv, type_shape(var_def.element.ty))).push(Doc::Hard) =~= ls.docs
                    + (var_natspec_docs(lv, type_shape(var_def.element.ty)) + seq![Doc::Hard]));
            } else {
                let description = joined_description(&lines);
                let e = IRElement::comment(description.as_str(), true);
                push_modelled(
                    &mut ir,
                    e,
                    Ghost(ls.docs),
                    Ghost(Doc::Comment(join(description_parts(lv), " "@), true)),
                );
                push_hard(
                    &mut ir,
                    Ghost(ls.docs.push(Doc::Comment(join(description_parts(lv), " "@), true))),
                );
                assert(ls.docs.push(Doc::Comment(join(description_parts(lv), " "@), true)).push(
                    Doc::Hard,
                ) =~= ls.docs + seq![
                    Doc::Comment(join(description_parts(lv), " "@), true),
                    Doc::Hard,
                ]);
            }
        } else if !has_regular && lines.len() > 0 {
            push_leading_comments(&mut ir, &var_def.leading_comments, Ghost(ls.docs));
        } else {
            assert(ls.docs =~= ls.docs + Seq::<Doc>::empty());
        }
    } else if is_mapping {
        let none: Vec<String> = Vec::new();
        assert(str_views(none@) =~= Seq::<Seq<char>>::empty());
        let block = build_variable_natspec_ir_with_type(none.as_slice(), &var_def.element.ty);
        let ghost bd = var_natspec_docs(Seq::empty(), type_shape(var_def.element.ty));
        append_modelled(&mut ir, block, Ghost(Seq::empty()), Ghost(bd));
        push_hard(&mut ir, Ghost(Seq::<Doc>::empty() + bd));
        assert((Seq::<Doc>::empty() + bd).push(Doc::Hard) =~= bd + seq![Doc::Hard]);
    } else {
        let ghost d0: Seq<Doc> = Seq::empty();
        let e = IRElement::text("/// TODO");
        push_modelled(&mut ir, e, Ghost(d0), Ghost(Doc::Text("/// TODO"@)));
        push_hard(&mut ir, Ghost(d0.push(Doc::Text("/// TODO"@))));
        assert(d0.push(Doc::Text("/// TODO"@)).push(Doc::Hard) =~= seq![
            Doc::Text("/// TODO"@),
            Doc::Hard,
        ]);
    }
    ir
}

/// The IR of a state variable: its documentation (comments, NatSpec block,
/// or a TODO placeholder when it has none), then its declaration.
pub fn build_variable_definition_ir(var_def: CommentedElement<VariableDefinition>) -> (r: Vec<
    IRElement,
>)
    requires
        var_comments_ok(var_def.leading_comments@),
        var_ok(var_def.element),
    ensures
        docs(r@, var_doc_docs(var_def) + var_decl_docs(var_def.element)),
{
    let mut ir = build_variable_docs(&var_def);
    let ghost d0 = var_doc_docs(var_def);
    let ghost v = var_def.element;
    let CommentedElement { element, leading_comments, trailing_comments } = var_def;
    let decl = build_variable_decl(element);
    append_modelled(&mut ir, decl, Ghost(d0), Ghost(var_decl_docs(v)));
    ir
}

/// The declaration of a state variable.
#[verifier::spinoff_prover]
fn build_variable_decl(element: VariableDefinition) -> (r: Vec<IRElement>)
    requires
        var_ok(element),
    ensures
        docs(r@, var_decl_docs(element)),
{
    let mut ir: Vec<IRElement> = Vec::new();
    proof {
        lemma_docs(ir@, Seq::empty());
    }
    let ghost d0: Seq<Doc> = Seq::empty();
    let ghost v = element;
    let VariableDefinition { ty, attrs, name, initializer, has_type_comments } = element;
    let te = format_expression(&ty);
    push_modelled(&mut ir, te, Ghost(d0), Ghost(expr_doc(v.ty, Seq::empty())));
    let ghost base = d0.push(expr_doc(v.ty, Seq::empty()));
    let ghost av = attrs@;
    let mut i: usize = 0;
    assert(av.take(0) =~= Seq::<VariableAttribute>::empty());
    assert(base =~= base + attr_docs(av.take(0)));
    while i < attrs.len()
        invariant
            i <= av.len(),
            av == attrs@,
            docs(ir@, base + attr_docs(av.take(i as int))),
        decreases av.len() - i,
    {
        let ghost pre = base + attr_docs(av.take(i as int));
        assert(av.take(i + 1).drop_last() =~= av.take(i as int));
        assert(av.take(i + 1).last() == av[i as int]);
        push_text_elem(&mut ir, " ", Ghost(pre));
        let a = format_variable_attribute(&attrs[i]);
        push_modelled(&mut ir, a, Ghost(pre.push(Doc::Text(" "@))), Ghost(Doc::Text(var_attr_text(av[i as int]))));
        assert(pre.push(Doc::Text(" "@)).push(Doc::Text(var_attr_text(av[i as int]))) =~= base + attr_docs(
            av.take(i + 1),
        ));
        i = i + 1;
    }
    assert(av.take(i as int) =~= av);
    let ghost d1 = base + attr_docs(av);
    push_text_elem(&mut ir, " ", Ghost(d1));
    let ghost mut d2 = d1.push(Doc::Text(" "@));
    match &name {
        Some(nm) => {
            push_text_elem(&mut ir, nm.as_str(), Ghost(d2));
            proof {
                d2 = d2.push(Doc::Text(nm@));
            }
        },
        None => {},
    }
    let ghost d3 = d2;
    match &initializer {
        Some(init) => {
            let ghost id = expr_doc(*init, Seq::empty());
            let ie = format_expression(init);
            let semi = IRElement::text(";");
            let inner = vec![IRElement::SoftLineBreak, ie, semi];
            proof {
                lemma_docs(inner@, seq![Doc::Soft, id, Doc::Text(";"@)]);
            }
            let eq = IRElement::text(" =");
            let outer = vec![eq, IRElement::Indent(inner)];
            let ghost gd = seq![Doc::Text(" ="@), Doc::Indent(seq![Doc::Soft, id, Doc::Text(";"@)])];
            proof {
                lemma_docs(outer@, gd);
            }
            push_modelled(&mut ir, IRElement::Group(outer), Ghost(d3), Ghost(Doc::Group(gd)));
        },
        None => {
            push_text_elem(&mut ir, ";", Ghost(d3));
        },
    }
    let ghost d4 = d3 + match v.initializer {
        Some(init) => seq![
            Doc::Group(
                seq![Doc::Text(" ="@), Doc::Indent(seq![Doc::Soft, expr_doc(init, Seq::empty()), Doc::Text(";"@)])],
            ),
        ],
        None => seq![Doc::Text(";"@)],
    };
    assert(docs(ir@, d4)) by {
        match v.initializer {
            Some(init) => {
                assert(d4 =~= d3.push(
                    Doc::Group(
                        seq![Doc::Text(" ="@), Doc::Indent(seq![Doc::Soft, expr_doc(init, Seq::empty()), Doc::Text(";"@)])],
                    ),
                ));
            },
            None => {
                assert(d4 =~= d3.push(Doc::Text(";"@)));
            },
        }
    }
    if has_type_comments {
        push_text_elem(&mut ir, " /* type has internal comments */", Ghost(d4));
        assert(d4.push(Doc::Text(" /* type has internal comments */"@)) =~= var_decl_docs(v));
    } else {
        assert(d4 =~= var_decl_docs(v));
    }
    ir
}

/// Appends a text element with its model.
fn push_text_elem(ir: &mut Vec<IRElement>, s: &str, Ghost(ds): Ghost<Seq<Doc>>)
    requires
        docs(old(ir)@, ds),
    ensures
        docs(final(ir)@, ds.push(Doc::Text(s@))),
{
    let e = IRElement::text(s);
    push_modelled(ir, e, Ghost(ds), Ghost(Doc::Text(s@)));
}

/// Each attribute of a state variable is written with its own keyword, and
/// attributes of distinct kinds (distinct visibilities, `constant`,
/// `immutable`, `override`) are written differently.
pub proof fn law_variable_attribute_keywords(a: VariableAttribute, b: VariableAttribute)
    ensures
        var_attr_text(a) == variable_attribute_keyword(a),
        !(a is Override && b is Override) && a != b ==> var_attr_text(a) != var_attr_text(b),
{
    reveal_strlit("constant");
    reveal_strlit("immutable");
    reveal_strlit("override");
    reveal_strlit("public");
    reveal_strlit("private");
    reveal_strlit("internal");
    reveal_strlit("external");
    match a {
        VariableAttribute::Visibility(v) => {
            crate::ir_builder::expressions::law_visibility_keywords(v, v);
        },
        _ => {},
    }
    match b {
        VariableAttribute::Visibility(w) => {
            crate::ir_builder::expressions::law_visibility_keywords(w, w);
            match a {
                VariableAttribute::Visibility(v) => {
                    crate::ir_builder::expressions::law_visibility_keywords(v, w);
                },
                _ => {},
            }
        },
        _ => {},
    }
    assert("constant"@.len() != "immutable"@.len());
    assert("constant"@[0] != "override"@[0]);
    assert("immutable"@.len() != "override"@.len());
    assert("constant"@[0] != "private"@[0]);
    assert("constant"@[0] != "internal"@[0]);
    assert("constant"@[0] != "external"@[0]);
    assert("constant"@.len() != "public"@.len());
    assert("immutable"@.len() != "public"@.len());
    assert("immutable"@.len() != "private"@.len());
    assert("immutable"@[1] != "internal"@[1]);
    assert("immutable"@.len() != "external"@.len());
    assert("override"@.len() != "public"@.len());
    assert("override"@.len() != "private"@.len());
    assert("override"@[0] != "internal"@[0]);
    assert("override"@[0] != "external"@[0]);
}

} // verus!
