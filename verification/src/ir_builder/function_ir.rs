//! A function with its documentation: the NatSpec block rebuilt from its
//! comments (or generated), the definition, and the comments after it.
use vstd::prelude::*;
use crate::ast::{CollectedFunction, FunctionTy, TypedParameter};
use crate::ir_builder::comments::comment_doc;
use crate::ir_builder::function_definition::{fn_def_docs, fn_ok, param_names};
use crate::ir_builder::functions::{fn_natspec_docs, generated_fn_natspec_docs};
use crate::ir_builder::ir::{docs, Doc, IRElement};
use crate::ir_builder::types::{comment_lines_docs, moved_comments_docs};
use crate::ir_builder::variables::{strip_all_prefix, strip_all_prefix_chars};
use crate::model::{comment_text, Comment};
use crate::text::{
    chars_of, ends_with, has_prefix, has_suffix, join, lines, push_all, slice_chars, split_lines, starts_with,
    strip_prefix_or_keep, trim, trim_chars, views,
};
use crate::ir_builder::functions::push_view;
use crate::ir_builder::types::{push_block, push_doc};
use crate::ir_builder::expressions::opt_view;

verus! {

/// What a function's leading comments hold, read in order: the IR of the
/// plain block comments, the NatSpec lines so far, whether there is
/// NatSpec, whether there are `//` comments, the line being collected, and
/// the last `/** */` comment.
pub struct FnComments {
    pub pre: Seq<Doc>,
    pub lines: Seq<Seq<char>>,
    pub is_natspec: bool,
    pub has_regular: bool,
    pub current: Seq<char>,
    pub original: Option<Seq<char>>,
}

/// `t` appended to the line being collected, after a space when it is not
/// empty.
pub open spec fn add_piece(cur: Seq<char>, t: Seq<char>) -> Seq<char> {
    if cur.len() > 0 {
        cur + seq![' '] + t
    } else {
        t
    }
}

/// The inside of a `/** */` comment: trimmed, without `/**` and `*/` when
/// it has both.
pub open spec fn fn_block_inner(t: Seq<char>) -> Seq<char> {
    let tt = trim(t);
    if has_prefix(tt, "/**"@) && has_suffix(tt, "*/"@) {
        trim(tt.subrange(3, tt.len() - 2))
    } else {
        tt
    }
}

/// The lines of a tagged `/** */` comment: a tag line starts a new NatSpec
/// line, other text continues it, an empty line ends it.
pub open spec fn tag_block_lines(ls: Seq<Seq<char>>, lines0: Seq<Seq<char>>, cur: Seq<char>) -> (
    Seq<Seq<char>>,
    Seq<char>,
)
    decreases ls.len(),
{
    if ls.len() == 0 {
        (lines0, cur)
    } else {
        let p = tag_block_lines(ls.drop_last(), lines0, cur);
        let t = trim(ls.last());
        if has_prefix(t, "@"@) {
            (
                if p.1.len() > 0 {
                    p.0.push(p.1)
                } else {
                    p.0
                },
                t,
            )
        } else if t.len() > 0 {
            (p.0, add_piece(p.1, t))
        } else if p.1.len() > 0 {
            (p.0.push(p.1), Seq::empty())
        } else {
            p
        }
    }
}

/// The text of an untagged `/** */` comment added to the line being
/// collected.
pub open spec fn plain_block_text(ls: Seq<Seq<char>>, cur: Seq<char>) -> Seq<char>
    decreases ls.len(),
{
    if ls.len() == 0 {
        cur
    } else {
        let c = plain_block_text(ls.drop_last(), cur);
        let t = trim(ls.last());
        if t.len() > 0 {
            add_piece(c, t)
        } else {
            c
        }
    }
}

/// Reads one leading comment of a function.
pub open spec fn fn_comment_step(s: FnComments, c: Comment) -> FnComments {
    match c {
        Comment::DocLine(t) => {
            let tr = trim(strip_all_prefix(t@, "///"@));
            if tr.contains('@') {
                FnComments {
                    lines: if s.current.len() > 0 {
                        s.lines.push(s.current)
                    } else {
                        s.lines
                    },
                    current: tr,
                    is_natspec: true,
                    ..s
                }
            } else if tr.len() > 0 {
                FnComments { current: add_piece(s.current, tr), is_natspec: true, ..s }
            } else if s.current.len() > 0 {
                FnComments { lines: s.lines.push(s.current), current: Seq::empty(), ..s }
            } else {
                s
            }
        },
        Comment::DocBlock(t) => {
            let ls = lines(fn_block_inner(t@));
            if t@.contains('@') {
                let r = tag_block_lines(ls, s.lines, s.current);
                FnComments { lines: r.0, current: r.1, is_natspec: true, original: Some(t@), ..s }
            } else {
                let cur = plain_block_text(ls, s.current);
                FnComments { current: cur, is_natspec: s.is_natspec || cur.len() > 0, original: Some(t@), ..s }
            }
        },
        Comment::Line(t) => {
            let tr = trim(strip_all_prefix(t@, "//"@));
            FnComments {
                has_regular: true,
                current: if tr.len() > 0 {
                    add_piece(s.current, tr)
                } else {
                    s.current
                },
                ..s
            }
        },
        Comment::Block(_) => FnComments { pre: s.pre + seq![comment_doc(c, false), Doc::Hard], ..s },
    }
}

/// Reads a function's leading comments in order.
pub open spec fn fn_comment_scan(cs: Seq<Comment>) -> FnComments
    decreases cs.len(),
{
    if cs.len() == 0 {
        FnComments {
            pre: Seq::empty(),
            lines: Seq::empty(),
            is_natspec: false,
            has_regular: false,
            current: Seq::empty(),
            original: None,
        }
    } else {
        fn_comment_step(fn_comment_scan(cs.drop_last()), cs.last())
    }
}

/// The NatSpec lines once the scan is done: the line being collected is
/// kept when there is NatSpec.
pub open spec fn final_lines(s: FnComments) -> Seq<Seq<char>> {
    if s.current.len() > 0 && s.is_natspec {
        s.lines.push(s.current)
    } else {
        s.lines
    }
}

/// Whether a line is the tag `@custom:preserve`.
pub open spec fn preserve_line(l: Seq<char>) -> bool {
    trim(l) == "@custom:preserve"@ || has_prefix(trim(l), "@custom:preserve "@)
}

/// Whether a line documents a parameter or a return value.
pub open spec fn param_or_return_line(l: Seq<char>) -> bool {
    has_prefix(trim(l), "@param "@) || has_prefix(trim(l), "@return "@)
}

/// Whether a line is a tag other than `@notice` and `@custom:semver`.
pub open spec fn other_tag_line(l: Seq<char>) -> bool {
    has_prefix(trim(l), "@"@) && !has_prefix(trim(l), "@notice"@) && !has_prefix(trim(l), "@custom:semver"@)
}

/// The one-line description of a notice-only NatSpec: the lines without
/// `@notice `, joined by spaces.
pub open spec fn notice_description(ls: Seq<Seq<char>>) -> Seq<char> {
    join(ls.map_values(|l: Seq<char>| strip_prefix_or_keep(trim(l), "@notice "@)), " "@)
}

/// Whether a function gets generated NatSpec: functions, constructors and
/// modifiers.
pub open spec fn documentable(ty: FunctionTy) -> bool {
    ty is Function || ty is Constructor || ty is Modifier
}

/// The parameter slots of a function for generated NatSpec: `None` for an
/// unreadable one, else its name.
pub open spec fn param_slots(ps: Seq<Option<TypedParameter>>) -> Seq<Option<Option<String>>> {
    ps.map_values(
        |o: Option<TypedParameter>|
            match o {
                Some(p) => Some(p.name),
                None => None,
            },
    )
}

/// A function's documentation from its leading comments. The plain block
/// comments come first. NatSpec marked `@custom:preserve` is kept as
/// written; NatSpec of a function with parameters or return values, or
/// with `@param`, `@return` or other tags, is rebuilt as a block; a
/// notice-only NatSpec becomes a one-line doc comment. Doc comments that
/// are not NatSpec are kept; `//` comments on a function, constructor or
/// modifier become the description of a generated NatSpec block, which
/// such a function without comments also gets.
pub open spec fn fn_doc_docs(f: CollectedFunction) -> Seq<Doc> {
    let d = f.definition.element;
    let cs = f.definition.leading_comments@;
    let has_outs = d.outputs.len() > 0;
    if cs.len() > 0 {
        let s = fn_comment_scan(cs);
        let ls = final_lines(s);
        s.pre + if s.is_natspec && ls.len() > 0 {
            if exists|i: int| 0 <= i < ls.len() && preserve_line(#[trigger] ls[i]) {
                match s.original {
                    Some(t) => seq![Doc::Comment(fn_block_inner(t), true), Doc::Hard],
                    None => comment_lines_docs(cs),
                }
            } else if d.params.len() > 0 || has_outs || (exists|i: int|
                0 <= i < ls.len() && param_or_return_line(#[trigger] ls[i])) || (exists|i: int|
                0 <= i < ls.len() && other_tag_line(#[trigger] ls[i])) {
                fn_natspec_docs(ls, param_names(d.params@), has_outs) + seq![Doc::Hard]
            } else {
                seq![Doc::Comment(notice_description(ls), true), Doc::Hard]
            }
        } else if !s.has_regular && ls.len() > 0 {
            comment_lines_docs(cs)
        } else if s.has_regular && s.current.len() > 0 && documentable(d.ty) {
            generated_fn_natspec_docs(param_slots(d.params@), has_outs, Some(s.current)) + seq![Doc::Hard]
        } else {
            Seq::empty()
        }
    } else if documentable(d.ty) {
        generated_fn_natspec_docs(param_slots(d.params@), has_outs, None) + seq![Doc::Hard]
    } else {
        Seq::empty()
    }
}

/// A function with its documentation, its definition, and the comments
/// after it moved onto the lines below.
pub open spec fn fn_ir_docs(f: CollectedFunction) -> Seq<Doc> {
    fn_doc_docs(f) + fn_def_docs(f) + moved_comments_docs(f.definition.trailing_comments@)
}

/// The layout of a function as an element of a contract or of a source
/// unit: that of `fn_ir_docs`, kept folded where whole units are laid out.
#[verifier::opaque]
pub open spec fn function_item_docs(f: CollectedFunction) -> Seq<Doc> {
    fn_ir_docs(f)
}

/// Whether each function can be laid out: its types and expressions, and
/// its comments.
pub open spec fn fns_ok(fs: Seq<CollectedFunction>) -> bool {
    forall|i: int| 0 <= i < fs.len() ==> fn_ok(#[trigger] fs[i]) && fn_comments_ok(fs[i].definition.leading_comments@)
}

/// Whether no `/** */` comment is the bare `/**/`, whose inside is not
/// defined.
pub open spec fn fn_comments_ok(cs: Seq<Comment>) -> bool {
    forall|i: int| 0 <= i < cs.len() ==> (#[trigger] cs[i] matches Comment::DocBlock(t) ==> trim(t@) != "/**/"@)
}


/// Appends `t` to the line being collected, after a space when it is not
/// empty.
fn add_piece_chars(cur: &mut Vec<char>, t: &[char])
    ensures
        final(cur)@ == add_piece(old(cur)@, t@),
{
    if cur.len() > 0 {
        cur.push(' ');
    }
    push_all(cur, t);
    assert(cur@ =~= add_piece(old(cur)@, t@));
}

/// The inside of a `/** */` comment.
fn fn_block_inner_chars(t: &String) -> (r: Vec<char>)
    requires
        trim(t@) != "/**/"@,
    ensures
        r@ == fn_block_inner(t@),
{
    proof {
        reveal_strlit("/**");
        reveal_strlit("*/");
        reveal_strlit("/**/");
    }
    let tt = trim_chars(chars_of(t.as_str()).as_slice());
    if starts_with(tt.as_slice(), chars_of("/**").as_slice()) && ends_with(tt.as_slice(), chars_of("*/").as_slice()) {
        if tt.len() < 5 {
            proof {
                let s = tt@;
                let n = s.len() as int;
                assert(s.subrange(0, 3) == "/**"@);
                assert(s.subrange(n - 2, n) == "*/"@);
                assert(s[2] == s.subrange(0, 3)[2]);
                assert(s[n - 1] == s.subrange(n - 2, n)[1]);
                assert(s[n - 2] == s.subrange(n - 2, n)[0]);
                assert(n != 3);
                assert(n == 4);
                assert(s =~= "/**/"@) by {
                    assert(s[0] == s.subrange(0, 3)[0]);
                    assert(s[1] == s.subrange(0, 3)[1]);
                }
            }
            return tt;
        }
        let inner = slice_chars(tt.as_slice(), 3, tt.len() - 2);
        trim_chars(inner.as_slice())
    } else {
        tt
    }
}

/// The reading of a function's leading comments so far (its plain block
/// comments go straight to the IR).
struct FnScan {
    lines: Vec<Vec<char>>,
    is_natspec: bool,
    has_regular: bool,
    current: Vec<char>,
    original: Option<String>,
}

/// Whether the scan state is the reading `s`, but for its IR.
spec fn scan_is(st: FnScan, s: FnComments) -> bool {
    &&& views(st.lines@) == s.lines
    &&& st.is_natspec == s.is_natspec
    &&& st.has_regular == s.has_regular
    &&& st.current@ == s.current
    &&& opt_view(st.original) == s.original
}

/// Ends the line being collected: keeps it when it is not empty.
fn flush_current(st: &mut FnScan)
    ensures
        views(final(st).lines@) == if old(st).current@.len() > 0 {
            views(old(st).lines@).push(old(st).current@)
        } else {
            views(old(st).lines@)
        },
        final(st).current@ == Seq::<char>::empty(),
        final(st).is_natspec == old(st).is_natspec,
        final(st).has_regular == old(st).has_regular,
        final(st).original == old(st).original,
{
    if st.current.len() > 0 {
        let c = slice_chars(st.current.as_slice(), 0, st.current.len());
        assert(c@ =~= st.current@);
        push_view(&mut st.lines, c);
    }
    st.current = Vec::new();
}

/// Reads the lines of a tagged `/** */` comment.
fn read_tag_block(st: &mut FnScan, inner: &Vec<char>)
    ensures
        (views(final(st).lines@), final(st).current@) == tag_block_lines(
            lines(inner@),
            views(old(st).lines@),
            old(st).current@,
        ),
        final(st).is_natspec == old(st).is_natspec,
        final(st).has_regular == old(st).has_regular,
        final(st).original == old(st).original,
{
    let ls = split_lines(inner.as_slice());
    let ghost lv = views(ls@);
    let ghost l0 = views(st.lines@);
    let ghost c0 = st.current@;
    let ghost n0 = st.is_natspec;
    let ghost h0 = st.has_regular;
    let ghost o0 = st.original;
    let mut j: usize = 0;
    assert(lv.take(0) =~= Seq::<Seq<char>>::empty());
    while j < ls.len()
        invariant
            j <= ls@.len(),
            lv == views(ls@),
            lv == lines(inner@),
            (views(st.lines@), st.current@) == tag_block_lines(lv.take(j as int), l0, c0),
            st.is_natspec == n0,
            st.has_regular == h0,
            st.original == o0,
        decreases ls@.len() - j,
    {
        assert(lv.take(j + 1).drop_last() =~= lv.take(j as int));
        assert(lv.take(j + 1).last() == ls@[j as int]@);
        let t = trim_chars(ls[j].as_slice());
        if starts_with(t.as_slice(), chars_of("@").as_slice()) {
            flush_current(st);
            st.current = t;
        } else if t.len() > 0 {
            add_piece_chars(&mut st.current, t.as_slice());
        } else if st.current.len() > 0 {
            flush_current(st);
        }
        j = j + 1;
    }
    assert(lv.take(j as int) =~= lv);
}

/// Reads the lines of an untagged `/** */` comment.
fn read_plain_block(st: &mut FnScan, inner: &Vec<char>)
    ensures
        final(st).current@ == plain_block_text(lines(inner@), old(st).current@),
        final(st).lines == old(st).lines,
        final(st).is_natspec == old(st).is_natspec,
        final(st).has_regular == old(st).has_regular,
        final(st).original == old(st).original,
{
    let ls = split_lines(inner.as_slice());
    let ghost lv = views(ls@);
    let ghost c0 = st.current@;
    let ghost s0 = *st;
    let mut j: usize = 0;
    assert(lv.take(0) =~= Seq::<Seq<char>>::empty());
    while j < ls.len()
        invariant
            j <= ls@.len(),
            lv == views(ls@),
            lv == lines(inner@),
            st.current@ == plain_block_text(lv.take(j as int), c0),
            st.lines == s0.lines,
            st.is_natspec == s0.is_natspec,
            st.has_regular == s0.has_regular,
            st.original == s0.original,
        decreases ls@.len() - j,
    {
        assert(lv.take(j + 1).drop_last() =~= lv.take(j as int));
        assert(lv.take(j + 1).last() == ls@[j as int]@);
        let t = trim_chars(ls[j].as_slice());
        if t.len() > 0 {
            add_piece_chars(&mut st.current, t.as_slice());
        }
        j = j + 1;
    }
    assert(lv.take(j as int) =~= lv);
}

/// Reads a function's leading comments, laying out the plain block ones.
#[verifier::spinoff_prover]
fn scan_fn_comments(cs: &Vec<Comment>, ir: &mut Vec<IRElement>, Ghost(ds): Ghost<Seq<Doc>>) -> (r: FnScan)
    requires
        docs(old(ir)@, ds),
        fn_comments_ok(cs@),
    ensures
        docs(final(ir)@, ds + fn_comment_scan(cs@).pre),
        scan_is(r, fn_comment_scan(cs@)),
        r.original matches Some(t) ==> trim(t@) != "/**/"@,
{
    let mut st = FnScan {
        lines: Vec::new(),
        is_natspec: false,
        has_regular: false,
        current: Vec::new(),
        original: None,
    };
    let mut i: usize = 0;
    assert(cs@.take(0) =~= Seq::<Comment>::empty());
    assert(views(st.lines@) =~= Seq::<Seq<char>>::empty());
    assert(ds =~= ds + fn_comment_scan(cs@.take(0)).pre);
    while i < cs.len()
        invariant
            i <= cs@.len(),
            fn_comments_ok(cs@),
            docs(ir@, ds + fn_comment_scan(cs@.take(i as int)).pre),
            scan_is(st, fn_comment_scan(cs@.take(i as int))),
            st.original matches Some(t) ==> trim(t@) != "/**/"@,
        decreases cs@.len() - i,
    {
        let ghost s = fn_comment_scan(cs@.take(i as int));
        assert(cs@.take(i + 1).drop_last() =~= cs@.take(i as int));
        assert(cs@.take(i + 1).last() == cs@[i as int]);
        let ghost n = fn_comment_step(s, cs@[i as int]);
        match &cs[i] {
            Comment::DocLine(t) => {
                let a = strip_all_prefix_chars(chars_of(t.as_str()).as_slice(), chars_of("///").as_slice());
                let tr = trim_chars(a.as_slice());
                if crate::ir_builder::contracts::has_char(tr.as_slice(), '@') {
                    flush_current(&mut st);
                    st.current = tr;
                    st.is_natspec = true;
                } else if tr.len() > 0 {
                    add_piece_chars(&mut st.current, tr.as_slice());
                    st.is_natspec = true;
                } else if st.current.len() > 0 {
                    flush_current(&mut st);
                }
                assert(ds + s.pre =~= ds + n.pre);
            },
            Comment::DocBlock(t) => {
                let inner = fn_block_inner_chars(t);
                if crate::ir_builder::contracts::has_char(chars_of(t.as_str()).as_slice(), '@') {
                    read_tag_block(&mut st, &inner);
                    st.is_natspec = true;
                } else {
                    read_plain_block(&mut st, &inner);
                    if st.current.len() > 0 {
                        st.is_natspec = true;
                    }
                }
                st.original = Some(t.clone());
                assert(ds + s.pre =~= ds + n.pre);
            },
            Comment::Line(t) => {
                let a = strip_all_prefix_chars(chars_of(t.as_str()).as_slice(), chars_of("//").as_slice());
                let tr = trim_chars(a.as_slice());
                if tr.len() > 0 {
                    add_piece_chars(&mut st.current, tr.as_slice());
                }
                st.has_regular = true;
                assert(ds + s.pre =~= ds + n.pre);
            },
            Comment::Block(_) => {
                let e = crate::ir_builder::comments::build_comment(&cs[i]);
                push_doc(ir, e, Ghost(ds + s.pre), Ghost(comment_doc(cs@[i as int], false)));
                push_doc(
                    ir,
                    IRElement::HardLineBreak,
                    Ghost((ds + s.pre).push(comment_doc(cs@[i as int], false))),
                    Ghost(Doc::Hard),
                );
                assert((ds + s.pre).push(comment_doc(cs@[i as int], false)).push(Doc::Hard) =~= ds + n.pre);
            },
        }
        i = i + 1;
    }
    assert(cs@.take(i as int) =~= cs@);
    st
}


/// Whether some line is the tag `@custom:preserve`.
fn any_preserve_line(ls: &Vec<Vec<char>>) -> (b: bool)
    ensures
        b == exists|i: int| 0 <= i < views(ls@).len() && preserve_line(#[trigger] views(ls@)[i]),
{
    let mut i: usize = 0;
    while i < ls.len()
        invariant
            i <= ls@.len(),
            forall|j: int| 0 <= j < i ==> !preserve_line(#[trigger] views(ls@)[j]),
        decreases ls@.len() - i,
    {
        let t = trim_chars(ls[i].as_slice());
        assert(views(ls@)[i as int] == ls@[i as int]@);
        if crate::text::chars_equal(t.as_slice(), chars_of("@custom:preserve").as_slice()) || starts_with(
            t.as_slice(),
            chars_of("@custom:preserve ").as_slice(),
        ) {
            return true;
        }
        i = i + 1;
    }
    false
}

/// Whether some line documents a parameter or a return value.
fn any_param_or_return_line(ls: &Vec<Vec<char>>) -> (b: bool)
    ensures
        b == exists|i: int| 0 <= i < views(ls@).len() && param_or_return_line(#[trigger] views(ls@)[i]),
{
    let mut i: usize = 0;
    while i < ls.len()
        invariant
            i <= ls@.len(),
            forall|j: int| 0 <= j < i ==> !param_or_return_line(#[trigger] views(ls@)[j]),
        decreases ls@.len() - i,
    {
        let t = trim_chars(ls[i].as_slice());
        assert(views(ls@)[i as int] == ls@[i as int]@);
        if starts_with(t.as_slice(), chars_of("@param ").as_slice()) || starts_with(
            t.as_slice(),
            chars_of("@return ").as_slice(),
        ) {
            return true;
        }
        i = i + 1;
    }
    false
}

/// Whether some line is a tag other than `@notice` and `@custom:semver`.
fn any_other_tag_line(ls: &Vec<Vec<char>>) -> (b: bool)
    ensures
        b == exists|i: int| 0 <= i < views(ls@).len() && other_tag_line(#[trigger] views(ls@)[i]),
{
    let mut i: usize = 0;
    while i < ls.len()
        invariant
            i <= ls@.len(),
            forall|j: int| 0 <= j < i ==> !other_tag_line(#[trigger] views(ls@)[j]),
        decreases ls@.len() - i,
    {
        let t = trim_chars(ls[i].as_slice());
        assert(views(ls@)[i as int] == ls@[i as int]@);
        if starts_with(t.as_slice(), chars_of("@").as_slice()) && !starts_with(t.as_slice(), chars_of("@notice").as_slice())
            && !starts_with(t.as_slice(), chars_of("@custom:semver").as_slice()) {
            return true;
        }
        i = i + 1;
    }
    false
}

/// The one-line description of a notice-only NatSpec.
fn notice_description_text(ls: &Vec<Vec<char>>) -> (r: String)
    ensures
        r@ == notice_description(views(ls@)),
{
    let mut parts: Vec<String> = Vec::new();
    let mut i: usize = 0;
    while i < ls.len()
        invariant
            i <= ls@.len(),
            crate::text::str_views(parts@) == views(ls@).take(i as int).map_values(
                |l: Seq<char>| strip_prefix_or_keep(trim(l), "@notice "@),
            ),
        decreases ls@.len() - i,
    {
        let t = trim_chars(ls[i].as_slice());
        assert(views(ls@)[i as int] == ls@[i as int]@);
        let x = crate::text::strip_prefix_chars(t.as_slice(), chars_of("@notice ").as_slice());
        let ghost before = crate::text::str_views(parts@);
        let xs = crate::text::string_from(x.as_slice());
        parts.push(xs);
        assert(crate::text::str_views(parts@) =~= before.push(xs@));
        assert(crate::text::str_views(parts@) =~= views(ls@).take(i + 1).map_values(
            |l: Seq<char>| strip_prefix_or_keep(trim(l), "@notice "@),
        ));
        i = i + 1;
    }
    assert(views(ls@).take(i as int) =~= views(ls@));
    let j = crate::text::join_strings(&parts, chars_of(" ").as_slice());
    crate::text::string_from(j.as_slice())
}

/// The parameter slots of a function for generated NatSpec.
fn param_slot_list(ps: &Vec<Option<TypedParameter>>) -> (r: Vec<Option<Option<String>>>)
    ensures
        r@ == param_slots(ps@),
{
    let mut r: Vec<Option<Option<String>>> = Vec::new();
    let mut i: usize = 0;
    while i < ps.len()
        invariant
            i <= ps@.len(),
            r@ == param_slots(ps@).take(i as int),
        decreases ps@.len() - i,
    {
        let x = match &ps[i] {
            Some(p) => Some(
                match &p.name {
                    Some(n) => Some(n.clone()),
                    None => None,
                },
            ),
            None => None,
        };
        r.push(x);
        assert(r@ =~= param_slots(ps@).take(i + 1));
        i = i + 1;
    }
    assert(param_slots(ps@).take(i as int) =~= param_slots(ps@));
    r
}

/// Whether a function gets generated NatSpec.
fn is_documentable(ty: FunctionTy) -> (b: bool)
    ensures
        b == documentable(ty),
{
    match ty {
        FunctionTy::Function | FunctionTy::Constructor | FunctionTy::Modifier => true,
        _ => false,
    }
}

/// A function's documentation (see `fn_doc_docs`).
#[verifier::spinoff_prover]
fn build_function_docs(func: &CollectedFunction) -> (r: Vec<IRElement>)
    requires
        fn_comments_ok(func.definition.leading_comments@),
    ensures
        docs(r@, fn_doc_docs(*func)),
{
    let d = &func.definition.element;
    let cs = &func.definition.leading_comments;
    let has_outs = d.outputs.len() > 0;
    let mut ir: Vec<IRElement> = Vec::new();
    if cs.len() > 0 {
        let st = scan_fn_comments(cs, &mut ir, Ghost(Seq::empty()));
        let ghost s = fn_comment_scan(cs@);
        let ghost pre = Seq::<Doc>::empty() + s.pre;
        assert(pre =~= s.pre);
        let mut ls: Vec<Vec<char>> = Vec::new();
        let mut k: usize = 0;
        assert(views(ls@) =~= views(st.lines@).take(0));
        while k < st.lines.len()
            invariant
                k <= st.lines@.len(),
                views(ls@) == views(st.lines@).take(k as int),
            decreases st.lines@.len() - k,
        {
            let c = slice_chars(st.lines[k].as_slice(), 0, st.lines[k].len());
            assert(c@ =~= st.lines@[k as int]@);
            assert(views(st.lines@)[k as int] == st.lines@[k as int]@);
            push_view(&mut ls, c);
            assert(views(ls@) =~= views(st.lines@).take(k + 1));
            k = k + 1;
        }
        assert(views(st.lines@).take(k as int) =~= views(st.lines@));
        assert(views(ls@) == s.lines);
        if st.current.len() > 0 && st.is_natspec {
            let c = slice_chars(st.current.as_slice(), 0, st.current.len());
            assert(c@ =~= s.current);
            push_view(&mut ls, c);
        }
        let ghost lv = final_lines(s);
        assert(views(ls@) == lv);
        if st.is_natspec && ls.len() > 0 {
            if any_preserve_line(&ls) {
                match &st.original {
                    Some(t) => {
                        let inner = fn_block_inner_chars(t);
                        let e = IRElement::comment(crate::text::string_from(inner.as_slice()).as_str(), true);
                        push_doc(&mut ir, e, Ghost(pre), Ghost(Doc::Comment(inner@, true)));
                        push_doc(&mut ir, IRElement::HardLineBreak, Ghost(pre.push(Doc::Comment(inner@, true))), Ghost(Doc::Hard));
                        assert(pre.push(Doc::Comment(inner@, true)).push(Doc::Hard) =~= fn_doc_docs(*func));
                    },
                    None => {
                        crate::ir_builder::contracts::push_comment_lines(&mut ir, cs, Ghost(pre));
                    },
                }
            } else if d.params.len() > 0 || has_outs || any_param_or_return_line(&ls) || any_other_tag_line(&ls) {
                let strings = crate::ir_builder::contracts::line_strings(&ls);
                let names = crate::ir_builder::function_definition::param_name_list(&d.params);
                let nv = crate::ir_builder::functions::build_function_natspec_ir(strings.as_slice(), names.as_slice(), has_outs);
                push_block(&mut ir, nv, Ghost(pre), Ghost(fn_natspec_docs(lv, param_names(d.params@), has_outs)));
                push_doc(
                    &mut ir,
                    IRElement::HardLineBreak,
                    Ghost(pre + fn_natspec_docs(lv, param_names(d.params@), has_outs)),
                    Ghost(Doc::Hard),
                );
                assert((pre + fn_natspec_docs(lv, param_names(d.params@), has_outs)).push(Doc::Hard) =~= fn_doc_docs(*func));
            } else {
                let t = notice_description_text(&ls);
                let e = IRElement::comment(t.as_str(), true);
                push_doc(&mut ir, e, Ghost(pre), Ghost(Doc::Comment(t@, true)));
                push_doc(&mut ir, IRElement::HardLineBreak, Ghost(pre.push(Doc::Comment(t@, true))), Ghost(Doc::Hard));
                assert(pre.push(Doc::Comment(t@, true)).push(Doc::Hard) =~= fn_doc_docs(*func));
            }
        } else if !st.has_regular && ls.len() > 0 {
            crate::ir_builder::contracts::push_comment_lines(&mut ir, cs, Ghost(pre));
        } else if st.has_regular && st.current.len() > 0 && is_documentable(d.ty) {
            let slots = param_slot_list(&d.params);
            let desc = crate::text::string_from(st.current.as_slice());
            let gv = crate::ir_builder::functions::generate_function_natspec_with_description(
                slots.as_slice(),
                has_outs,
                Some(desc.as_str()),
            );
            let ghost gd = generated_fn_natspec_docs(param_slots(d.params@), has_outs, Some(s.current));
            push_block(&mut ir, gv, Ghost(pre), Ghost(gd));
            push_doc(&mut ir, IRElement::HardLineBreak, Ghost(pre + gd), Ghost(Doc::Hard));
            assert((pre + gd).push(Doc::Hard) =~= fn_doc_docs(*func));
        } else {
            assert(pre =~= fn_doc_docs(*func));
        }
    } else if is_documentable(d.ty) {
        let slots = param_slot_list(&d.params);
        let gv = crate::ir_builder::functions::generate_function_natspec_with_description(slots.as_slice(), has_outs, None);
        let ghost gd = generated_fn_natspec_docs(param_slots(d.params@), has_outs, None);
        push_block(&mut ir, gv, Ghost(Seq::empty()), Ghost(gd));
        push_doc(&mut ir, IRElement::HardLineBreak, Ghost(Seq::empty() + gd), Ghost(Doc::Hard));
        assert((Seq::<Doc>::empty() + gd).push(Doc::Hard) =~= fn_doc_docs(*func));
    } else {
        assert(ir@ =~= Seq::<IRElement>::empty());
    }
    ir
}


/// A function with its documentation, its definition, and the comments
/// after it moved onto the lines below (see `fn_ir_docs`).
pub fn build_function_ir(func: &CollectedFunction) -> (r: Vec<IRElement>)
    requires
        fn_ok(*func),
        fn_comments_ok(func.definition.leading_comments@),
    ensures
        docs(r@, fn_ir_docs(*func)),
{
    let mut ir = build_function_docs(func);
    let dv = crate::ir_builder::function_definition::build_function_definition(func);
    push_block(&mut ir, dv, Ghost(fn_doc_docs(*func)), Ghost(fn_def_docs(*func)));
    crate::ir_builder::types::push_moved_comments(
        &mut ir,
        &func.definition.trailing_comments,
        Ghost(fn_doc_docs(*func) + fn_def_docs(*func)),
    );
    ir
}

} // verus!
