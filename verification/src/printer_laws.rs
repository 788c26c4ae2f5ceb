//! Properties of the printer's layout model.
use vstd::prelude::*;
use crate::ir_builder::ir::IRElement;
use crate::printer::{
    advance, cont_break, fill, flat_run, flush, hard_break, put_text, render, repend, run, spaces,
    start_state, strip_spaces, Cfg, PState, PrintMode,
};
use crate::text::is_ws;

verus! {

/// The non-whitespace characters of `s`, in order.
pub open spec fn visible(s: Seq<char>) -> Seq<char>
    decreases s.len(),
{
    if s.len() == 0 {
        Seq::empty()
    } else if is_ws(s.last()) {
        visible(s.drop_last())
    } else {
        visible(s.drop_last()).push(s.last())
    }
}

/// The text of `es[i..]` in order, nested groups and indents included.
pub open spec fn text_from(es: Seq<IRElement>, i: int) -> Seq<char>
    decreases es, es.len() - i,
{
    if i < 0 || i >= es.len() {
        Seq::empty()
    } else {
        let t = match es[i] {
            IRElement::Text(t) => t@,
            IRElement::Group(ch) => text_from(ch@, 0),
            IRElement::Indent(ch) => text_from(ch@, 0),
            _ => Seq::empty(),
        };
        t + text_from(es, i + 1)
    }
}

/// Whether `es[i..]` holds no comment at any depth.
pub open spec fn comment_free(es: Seq<IRElement>, i: int) -> bool
    decreases es, es.len() - i,
{
    if i < 0 || i >= es.len() {
        true
    } else {
        let ok = match es[i] {
            IRElement::Comment { .. } => false,
            IRElement::Group(ch) => comment_free(ch@, 0),
            IRElement::Indent(ch) => comment_free(ch@, 0),
            _ => true,
        };
        ok && comment_free(es, i + 1)
    }
}

/// `visible` distributes over concatenation.
pub proof fn lemma_visible_add(a: Seq<char>, b: Seq<char>)
    ensures
        visible(a + b) == visible(a) + visible(b),
    decreases b.len(),
{
    if b.len() == 0 {
        assert(a + b =~= a);
        assert(visible(a) + visible(b) =~= visible(a));
    } else {
        lemma_visible_add(a, b.drop_last());
        assert((a + b).drop_last() =~= a + b.drop_last());
        assert((a + b).last() == b.last());
        if !is_ws(b.last()) {
            assert(visible(a) + visible(b) =~= (visible(a) + visible(b.drop_last())).push(b.last()));
        }
    }
}

/// Spaces are invisible.
pub proof fn lemma_visible_spaces(n: int)
    requires
        n >= 0,
    ensures
        visible(spaces(n)) == Seq::<char>::empty(),
    decreases n,
{
    if n > 0 {
        assert(spaces(n).drop_last() =~= spaces(n - 1));
        assert(is_ws(spaces(n).last()));
        lemma_visible_spaces(n - 1);
    } else {
        assert(spaces(n) =~= Seq::<char>::empty());
    }
}

/// Dropping trailing spaces keeps the visible characters.
pub proof fn lemma_visible_strip(b: Seq<char>)
    ensures
        visible(strip_spaces(b)) == visible(b),
    decreases b.len(),
{
    if b.len() > 0 && b.last() == ' ' {
        assert(is_ws(b.last()));
        lemma_visible_strip(b.drop_last());
    }
}

/// Writing text adds exactly its visible characters; breaks and
/// indentation add none.
pub proof fn lemma_visible_steps(c: Cfg, s: PState, t: Seq<char>, indent: int)
    requires
        c.iw >= 0,
        indent >= 0,
        s.pending matches Some(n) ==> n >= 0,
    ensures
        visible(flush(c, s).buf) == visible(s.buf),
        visible(put_text(c, s, t).buf) == visible(s.buf) + visible(t),
        visible(hard_break(c, s, indent).buf) == visible(s.buf),
        visible(cont_break(c, s, indent).buf) == visible(s.buf),
        visible(repend(s, indent).buf) == visible(s.buf),
{
    if let Some(n) = s.pending {
        assert(n * c.iw >= 0) by (nonlinear_arith)
            requires
                n >= 0,
                c.iw >= 0,
        ;
        lemma_visible_add(s.buf, spaces(n * c.iw));
        lemma_visible_spaces(n * c.iw);
        assert(visible(s.buf) + Seq::<char>::empty() =~= visible(s.buf));
    }
    lemma_visible_add(flush(c, s).buf, t);
    lemma_visible_strip(s.buf);
    let h = hard_break(c, s, indent);
    assert(is_ws('\n'));
    assert(h.buf.drop_last() =~= strip_spaces(s.buf));
    let two = seq![' ', ' '];
    assert(two.drop_last() =~= seq![' ']);
    assert(seq![' '].drop_last() =~= Seq::<char>::empty());
    assert(is_ws(' '));
    let one = seq![' '];
    assert(one.last() == ' ');
    assert(one.drop_last() =~= Seq::<char>::empty());
    assert(visible(Seq::<char>::empty()) =~= Seq::<char>::empty());
    assert(visible(one) =~= Seq::<char>::empty());
    assert(two.last() == ' ');
    assert(visible(two) =~= Seq::<char>::empty());
    if let Some(n) = h.pending {
        assert(n * c.iw >= 0) by (nonlinear_arith)
            requires
                n >= 0,
                c.iw >= 0,
        ;
        lemma_visible_add(h.buf, spaces(n * c.iw));
        lemma_visible_spaces(n * c.iw);
        assert(visible(h.buf) + Seq::<char>::empty() =~= visible(h.buf));
    }
    lemma_visible_add(flush(c, h).buf, two);
    assert(visible(h.buf) + Seq::<char>::empty() =~= visible(h.buf));
}


/// A state whose pending indentation level, if any, is not negative.
pub open spec fn valid_state(s: PState) -> bool {
    s.pending matches Some(n) ==> n >= 0
}

proof fn lemma_visible_newline(b: Seq<char>)
    ensures
        visible(b.push('\n')) == visible(b),
{
    assert(b.push('\n').drop_last() =~= b);
    assert(is_ws('\n'));
}

proof fn lemma_text_step(es: Seq<IRElement>, i: int, t: Seq<char>, s: Seq<char>)
    requires
        0 <= i < es.len(),
    ensures
        s + visible(t + text_from(es, i + 1)) == (s + visible(t)) + visible(text_from(es, i + 1)),
{
    lemma_visible_add(t, text_from(es, i + 1));
    assert(s + (visible(t) + visible(text_from(es, i + 1))) =~= (s + visible(t)) + visible(
        text_from(es, i + 1),
    ));
}

/// Flat printing writes exactly the visible text of comment-free elements.
pub proof fn lemma_flat_visible(c: Cfg, s: PState, es: Seq<IRElement>, i: int)
    requires
        c.iw >= 0,
        valid_state(s),
        comment_free(es, i),
        0 <= i,
    ensures
        valid_state(flat_run(c, s, es, i)),
        visible(flat_run(c, s, es, i).buf) == visible(s.buf) + visible(text_from(es, i)),
    decreases es, es.len() - i,
{
    if i >= es.len() {
        assert(visible(s.buf) + visible(text_from(es, i)) =~= visible(s.buf));
    } else {
        lemma_visible_steps(c, s, Seq::empty(), 0);
        let s1 = match es[i] {
            IRElement::Text(t) => {
                lemma_visible_steps(c, s, t@, 0);
                lemma_text_step(es, i, t@, visible(s.buf));
                put_text(c, s, t@)
            },
            IRElement::SoftLineBreak => {
                lemma_visible_steps(c, s, seq![' '], 0);
                lemma_text_step(es, i, Seq::empty(), visible(s.buf));
                put_text(c, s, seq![' '])
            },
            IRElement::SoftLineBreakWithContinuation => {
                lemma_visible_steps(c, s, seq![' '], 0);
                lemma_text_step(es, i, Seq::empty(), visible(s.buf));
                put_text(c, s, seq![' '])
            },
            IRElement::SoftestLineBreak => {
                lemma_text_step(es, i, Seq::empty(), visible(s.buf));
                s
            },
            IRElement::HardLineBreak => {
                lemma_visible_newline(s.buf);
                lemma_text_step(es, i, Seq::empty(), visible(s.buf));
                PState { buf: s.buf.push('\n'), col: 0, pending: s.pending }
            },
            IRElement::Group(ch) => {
                lemma_flat_visible(c, s, ch@, 0);
                lemma_text_step(es, i, text_from(ch@, 0), visible(s.buf));
                flat_run(c, s, ch@, 0)
            },
            IRElement::Indent(ch) => {
                lemma_flat_visible(c, s, ch@, 0);
                lemma_text_step(es, i, text_from(ch@, 0), visible(s.buf));
                flat_run(c, s, ch@, 0)
            },
            IRElement::Comment { .. } => s,
        };
        assert(visible(Seq::<char>::empty()) =~= Seq::<char>::empty());
        assert(visible(seq![' ']) =~= Seq::<char>::empty()) by {
            assert(seq![' '].drop_last() =~= Seq::<char>::empty());
            assert(is_ws(' '));
        }
        lemma_flat_visible(c, s1, es, i + 1);
    }
}


proof fn lemma_visible_space_empty()
    ensures
        visible(seq![' ']) == Seq::<char>::empty(),
        visible(Seq::<char>::empty()) == Seq::<char>::empty(),
{
    let one = seq![' '];
    assert(is_ws(' '));
    assert(one.last() == ' ');
    assert(one.drop_last() =~= Seq::<char>::empty());
    assert(visible(Seq::<char>::empty()) =~= Seq::<char>::empty());
    assert(visible(one) =~= Seq::<char>::empty());
}

/// Greedy filling writes exactly the visible text of comment-free elements.
pub proof fn lemma_fill_visible(c: Cfg, s: PState, es: Seq<IRElement>, indent: int, i: int, skip: bool)
    requires
        c.iw >= 0,
        indent >= 0,
        valid_state(s),
        comment_free(es, i),
        0 <= i,
    ensures
        valid_state(fill(c, s, es, indent, i, skip)),
        visible(fill(c, s, es, indent, i, skip).buf) == visible(s.buf) + visible(text_from(es, i)),
    decreases es, es.len() - i,
{
    lemma_visible_space_empty();
    if i >= es.len() {
        assert(visible(s.buf) + visible(text_from(es, i)) =~= visible(s.buf));
    } else {
        lemma_visible_steps(c, s, seq![' '], indent);
        match es[i] {
            IRElement::Text(t) => {
                lemma_visible_steps(c, s, t@, indent);
                lemma_visible_steps(c, hard_break(c, s, indent), t@, indent);
                lemma_text_step(es, i, t@, visible(s.buf));
                let s1 = if crate::printer::is_terminator(t@) || s.col + t@.len() <= c.max {
                    put_text(c, s, t@)
                } else {
                    put_text(c, hard_break(c, s, indent), t@)
                };
                lemma_fill_visible(c, s1, es, indent, i + 1, false);
            },
            IRElement::SoftLineBreak => {
                lemma_text_step(es, i, Seq::empty(), visible(s.buf));
                let w = crate::printer::chunk_from(es, i + 1);
                let s1 = if w > 0 && s.col + 1 + w > c.max {
                    hard_break(c, s, indent)
                } else {
                    put_text(c, s, seq![' '])
                };
                lemma_fill_visible(c, s1, es, indent, i + 1, false);
            },
            IRElement::SoftLineBreakWithContinuation => {
                lemma_text_step(es, i, Seq::empty(), visible(s.buf));
                let w = crate::printer::chunk_from(es, i + 1);
                let s1 = if w > 0 && s.col + 1 + w > c.max {
                    cont_break(c, s, indent)
                } else {
                    put_text(c, s, seq![' '])
                };
                lemma_fill_visible(c, s1, es, indent, i + 1, false);
            },
            IRElement::SoftestLineBreak => {
                lemma_text_step(es, i, Seq::empty(), visible(s.buf));
                lemma_fill_visible(c, s, es, indent, i + 1, true);
                lemma_fill_visible(c, hard_break(c, s, indent), es, indent, i + 1, false);
            },
            IRElement::HardLineBreak => {
                lemma_text_step(es, i, Seq::empty(), visible(s.buf));
                lemma_fill_visible(c, hard_break(c, s, indent), es, indent, i + 1, false);
            },
            IRElement::Group(ch) => {
                lemma_text_step(es, i, text_from(ch@, 0), visible(s.buf));
                lemma_flat_visible(c, s, ch@, 0);
                lemma_fill_visible(c, s, ch@, indent, 0, false);
                let s1 = if crate::printer::group_fits(c, s, ch@) {
                    flat_run(c, s, ch@, 0)
                } else {
                    fill(c, s, ch@, indent, 0, false)
                };
                lemma_fill_visible(c, s1, es, indent, i + 1, false);
            },
            IRElement::Indent(ch) => {
                lemma_text_step(es, i, text_from(ch@, 0), visible(s.buf));
                let eff = if skip {
                    indent
                } else {
                    indent + 1
                };
                lemma_visible_steps(c, s, seq![' '], eff);
                lemma_fill_visible(c, repend(s, eff), ch@, eff, 0, false);
                let s1 = fill(c, repend(s, eff), ch@, eff, 0, false);
                lemma_fill_visible(c, s1, es, indent, i + 1, false);
            },
            IRElement::Comment { .. } => {},
        }
    }
}

/// Printing in either mode writes exactly the visible text of comment-free
/// elements.
pub proof fn lemma_run_visible(c: Cfg, s: PState, mode: PrintMode, indent: int, es: Seq<IRElement>, i: int)
    requires
        c.iw >= 0,
        indent >= 0,
        valid_state(s),
        comment_free(es, i),
        0 <= i,
    ensures
        valid_state(run(c, s, mode, indent, es, i)),
        visible(run(c, s, mode, indent, es, i).buf) == visible(s.buf) + visible(text_from(es, i)),
    decreases es, es.len() - i,
{
    lemma_visible_space_empty();
    if i >= es.len() {
        assert(visible(s.buf) + visible(text_from(es, i)) =~= visible(s.buf));
    } else {
        lemma_visible_steps(c, s, seq![' '], indent);
        let s1 = match es[i] {
            IRElement::Text(t) => {
                lemma_visible_steps(c, s, t@, indent);
                lemma_text_step(es, i, t@, visible(s.buf));
                put_text(c, s, t@)
            },
            IRElement::SoftLineBreak => {
                lemma_text_step(es, i, Seq::empty(), visible(s.buf));
                match mode {
                    PrintMode::Flat => put_text(c, s, seq![' ']),
                    PrintMode::Break => hard_break(c, s, indent),
                }
            },
            IRElement::SoftLineBreakWithContinuation => {
                lemma_text_step(es, i, Seq::empty(), visible(s.buf));
                match mode {
                    PrintMode::Flat => put_text(c, s, seq![' ']),
                    PrintMode::Break => cont_break(c, s, indent),
                }
            },
            IRElement::SoftestLineBreak => {
                lemma_text_step(es, i, Seq::empty(), visible(s.buf));
                match mode {
                    PrintMode::Flat => s,
                    PrintMode::Break => hard_break(c, s, indent),
                }
            },
            IRElement::HardLineBreak => {
                lemma_text_step(es, i, Seq::empty(), visible(s.buf));
                hard_break(c, s, indent)
            },
            IRElement::Indent(ch) => {
                lemma_text_step(es, i, text_from(ch@, 0), visible(s.buf));
                lemma_visible_steps(c, s, seq![' '], indent + 1);
                lemma_run_visible(c, repend(s, indent + 1), mode, indent + 1, ch@, 0);
                run(c, repend(s, indent + 1), mode, indent + 1, ch@, 0)
            },
            IRElement::Group(ch) => {
                lemma_text_step(es, i, text_from(ch@, 0), visible(s.buf));
                lemma_run_visible(c, s, PrintMode::Flat, indent, ch@, 0);
                lemma_fill_visible(c, s, ch@, indent, 0, false);
                if crate::printer::group_fits(c, s, ch@) {
                    run(c, s, PrintMode::Flat, indent, ch@, 0)
                } else {
                    fill(c, s, ch@, indent, 0, false)
                }
            },
            IRElement::Comment { .. } => s,
        };
        lemma_run_visible(c, s1, mode, indent, es, i + 1);
    }
}

/// Printing only lays text out: the non-whitespace characters of the output
/// are those of the IR's text, in order, for IR without comments.
pub proof fn law_print_preserves_text(max: int, iw: int, ir: Seq<IRElement>)
    requires
        iw >= 0,
        comment_free(ir, 0),
    ensures
        visible(render(max, iw, ir)) == visible(text_from(ir, 0)),
{
    let c = Cfg { max, iw };
    lemma_run_visible(c, start_state(), PrintMode::Break, 0, ir, 0);
    let s = run(c, start_state(), PrintMode::Break, 0, ir, 0);
    assert(visible(start_state().buf) =~= Seq::<char>::empty());
    assert(Seq::<char>::empty() + visible(text_from(ir, 0)) =~= visible(text_from(ir, 0)));
    lemma_visible_newline(s.buf);
}

/// The printed text always ends with a newline.
pub proof fn law_print_ends_with_newline(max: int, iw: int, ir: Seq<IRElement>)
    ensures
        render(max, iw, ir).len() > 0,
        render(max, iw, ir).last() == '\n',
{
}

} // verus!
