//! Wadler-style printer that turns IR into formatted text.
use vstd::prelude::*;
use crate::ir_builder::ir::{comment_prefix_len, depth_from, flat_from, hard_from, weight_from, IRElement};
use crate::ir_builder::ir::lemma_measures;
use crate::text::{
    chars_of, lemma_words_total_mono, lemma_lines_len, lemma_trim_len, lemma_utf8_len, lemma_words_total, lines, split_lines,
    split_words, string_from, trim, trim_chars, utf8_len, utf8_length, views, words, words_total,
};

verus! {

/// Result of laying `es` out on one line from column `start` within `max`:
/// the end column, or `None` when a hard break forbids it or it overflows.
pub open spec fn flat_fit(es: Seq<IRElement>, start: int, max: int) -> Option<int> {
    if hard_from(es, 0) || start + flat_from(es, 0) > max {
        None
    } else {
        Some(start + flat_from(es, 0))
    }
}

/// Flat widths are never negative.
pub proof fn lemma_flat_nonneg(es: Seq<IRElement>, i: int)
    ensures
        flat_from(es, i) >= 0,
    decreases es, es.len() - i,
{
    if 0 <= i < es.len() {
        lemma_flat_nonneg(es, i + 1);
        match es[i] {
            IRElement::Group(ch) => lemma_flat_nonneg(ch@, 0),
            IRElement::Indent(ch) => lemma_flat_nonneg(ch@, 0),
            _ => {},
        }
    }
}

/// Checks whether `elements` fit on one line starting at `start_col`; returns
/// the column after them when they do.
pub fn check_flat_layout_fits(elements: &[IRElement], start_col: usize, max_width: usize) -> (r:
    Option<usize>)
    ensures
        r == (match flat_fit(elements@, start_col as int, max_width as int) {
            Some(e) => Some(e as usize),
            None => None::<usize>,
        }),
    decreases elements@,
{
    proof {
        lemma_flat_nonneg(elements@, 0);
    }
    if start_col > max_width {
        return None;
    }
    let mut current_col = start_col;
    let mut i: usize = 0;
    while i < elements.len()
        invariant
            i <= elements@.len(),
            start_col <= current_col <= max_width,
            flat_from(elements@, 0) == (current_col - start_col) + flat_from(elements@, i as int),
            hard_from(elements@, 0) == hard_from(elements@, i as int),
        decreases elements@.len() - i,
    {
        proof {
            lemma_flat_nonneg(elements@, i + 1);
        }
        match &elements[i] {
            IRElement::Text(s) => {
                let n = s.as_str().unicode_len();
                if n > max_width - current_col {
                    return None;
                }
                current_col = current_col + n;
            },
            IRElement::SoftLineBreak | IRElement::SoftLineBreakWithContinuation => {
                if current_col == max_width {
                    return None;
                }
                current_col = current_col + 1;
            },
            IRElement::SoftestLineBreak => {},
            IRElement::HardLineBreak => {
                return None;
            },
            IRElement::Indent(children) | IRElement::Group(children) => {
                proof {
                    lemma_flat_nonneg(children@, 0);
                }
                match check_flat_layout_fits(children.as_slice(), current_col, max_width) {
                    Some(new_col) => current_col = new_col,
                    None => return None,
                }
            },
            IRElement::Comment { text, is_doc } => {
                let prefix_len: usize = if *is_doc { 3 } else { 2 };
                let n = text.as_str().unicode_len();
                if n > max_width - current_col || prefix_len + 1 > max_width - current_col - n {
                    return None;
                }
                current_col = current_col + prefix_len + 1 + n;
            },
        }
        i = i + 1;
    }
    Some(current_col)
}


/// The two modes a group can be printed in.
#[derive(Clone, Copy, Debug, PartialEq, Eq, Structural)]
pub enum PrintMode {
    /// Everything on one line: soft breaks are spaces.
    Flat,
    /// Soft breaks are line breaks.
    Break,
}

/// The printer's settings as numbers.
pub struct Cfg {
    pub max: int,
    pub iw: int,
}

/// What printing has produced so far: the text, the current column, and the
/// indentation level still to be written before the next content.
pub struct PState {
    pub buf: Seq<char>,
    pub col: int,
    pub pending: Option<int>,
}

/// `n` spaces.
pub open spec fn spaces(n: int) -> Seq<char> {
    Seq::new(n as nat, |_i: int| ' ')
}

/// Writes the pending indentation, if any.
pub open spec fn flush(c: Cfg, s: PState) -> PState {
    match s.pending {
        Some(n) => PState { buf: s.buf + spaces(n * c.iw), col: n * c.iw, pending: None },
        None => s,
    }
}

/// The column after writing `t` from column `col`.
pub open spec fn advance(col: int, t: Seq<char>) -> int
    decreases t.len(),
{
    if t.len() == 0 {
        col
    } else if t.last() == '\n' {
        0
    } else {
        advance(col, t.drop_last()) + 1
    }
}

/// Writes text after the pending indentation.
pub open spec fn put_text(c: Cfg, s: PState, t: Seq<char>) -> PState {
    let f = flush(c, s);
    PState { buf: f.buf + t, col: advance(f.col, t), pending: None }
}

/// `b` without its trailing spaces.
pub open spec fn strip_spaces(b: Seq<char>) -> Seq<char>
    decreases b.len(),
{
    if b.len() > 0 && b.last() == ' ' {
        strip_spaces(b.drop_last())
    } else {
        b
    }
}

/// Ends the line (dropping its trailing spaces) and leaves `indent` levels pending.
pub open spec fn hard_break(c: Cfg, s: PState, indent: int) -> PState {
    PState { buf: strip_spaces(s.buf).push('\n'), col: indent * c.iw, pending: Some(indent) }
}

/// A line break followed by two spaces of continuation indentation.
pub open spec fn cont_break(c: Cfg, s: PState, indent: int) -> PState {
    put_text(c, hard_break(c, s, indent), seq![' ', ' '])
}

/// Moves a pending indentation, if there is one, to level `lvl`.
pub open spec fn repend(s: PState, lvl: int) -> PState {
    if s.pending is Some {
        PState { pending: Some(lvl), ..s }
    } else {
        s
    }
}

/// `// text` or `/// text`.
pub open spec fn line_comment(text: Seq<char>, is_doc: bool) -> Seq<char> {
    (if is_doc {
        seq!['/', '/', '/']
    } else {
        seq!['/', '/']
    }) + seq![' '] + text
}

/// `/*` or `/**`.
pub open spec fn block_open(is_doc: bool) -> Seq<char> {
    if is_doc {
        seq!['/', '*', '*']
    } else {
        seq!['/', '*']
    }
}

/// The body of a block comment that keeps the comment's own lines.
pub open spec fn comment_lines(c: Cfg, s: PState, ls: Seq<Seq<char>>, ind: int, i: int) -> PState
    decreases ls.len() - i,
{
    if i < 0 || i >= ls.len() {
        s
    } else {
        let s1 = if i > 0 {
            hard_break(c, s, ind)
        } else {
            s
        };
        let tr = trim(ls[i]);
        let s2 = if tr.len() > 0 {
            put_text(c, s1, tr)
        } else {
            s1
        };
        comment_lines(c, s2, ls, ind, i + 1)
    }
}

/// The body of a block comment whose words are wrapped within the width;
/// `cur` is the line length so far and `base` that of an empty body line.
pub open spec fn comment_words(
    c: Cfg,
    s: PState,
    ws: Seq<Seq<char>>,
    ind: int,
    base: int,
    cur: int,
    i: int,
) -> PState
    decreases ws.len() - i,
{
    if i < 0 || i >= ws.len() {
        s
    } else {
        let wl = ws[i].len() as int;
        if i == 0 {
            comment_words(c, put_text(c, s, ws[i]), ws, ind, base, cur + wl, i + 1)
        } else if cur + 1 + wl <= c.max {
            comment_words(
                c,
                put_text(c, put_text(c, s, seq![' ']), ws[i]),
                ws,
                ind,
                base,
                cur + 1 + wl,
                i + 1,
            )
        } else {
            comment_words(c, put_text(c, hard_break(c, s, ind), ws[i]), ws, ind, base, base + wl, i + 1)
        }
    }
}

/// Writes a comment: `// text` when it fits and has no line breaks, else a
/// block comment that keeps its lines or wraps its words.
pub open spec fn put_comment(c: Cfg, s: PState, text: Seq<char>, is_doc: bool, indent: int) -> PState {
    let lc = line_comment(text, is_doc);
    let has_nl = text.contains('\n');
    if !has_nl && indent * c.iw + utf8_len(lc) <= c.max {
        put_text(c, s, lc)
    } else {
        let s1 = hard_break(c, put_text(c, s, block_open(is_doc)), indent + 1);
        let s2 = if has_nl {
            comment_lines(c, s1, lines(text), indent + 1, 0)
        } else {
            comment_words(
                c,
                s1,
                words(text),
                indent + 1,
                indent * c.iw + c.iw,
                indent * c.iw + c.iw,
                0,
            )
        };
        put_text(c, hard_break(c, s2, indent), seq!['*', '/'])
    }
}

/// Writes `es[i..]` on one line; hard breaks still end the line.
pub open spec fn flat_run(c: Cfg, s: PState, es: Seq<IRElement>, i: int) -> PState
    decreases es, es.len() - i,
{
    if i < 0 || i >= es.len() {
        s
    } else {
        let s1 = match es[i] {
            IRElement::Text(t) => put_text(c, s, t@),
            IRElement::SoftLineBreak => put_text(c, s, seq![' ']),
            IRElement::SoftLineBreakWithContinuation => put_text(c, s, seq![' ']),
            IRElement::SoftestLineBreak => s,
            IRElement::HardLineBreak => PState { buf: s.buf.push('\n'), col: 0, pending: s.pending },
            IRElement::Group(ch) => flat_run(c, s, ch@, 0),
            IRElement::Indent(ch) => flat_run(c, s, ch@, 0),
            IRElement::Comment { text, is_doc } => put_text(c, s, line_comment(text@, is_doc)),
        };
        flat_run(c, s1, es, i + 1)
    }
}

/// Flat width of `es[i..]` up to the next soft or hard break (or nested
/// hard break).
pub open spec fn chunk_from(es: Seq<IRElement>, i: int) -> int
    decreases es.len() - i,
{
    if i < 0 || i >= es.len() {
        0
    } else {
        match es[i] {
            IRElement::Text(t) => t@.len() + chunk_from(es, i + 1),
            IRElement::SoftLineBreak => 0,
            IRElement::SoftLineBreakWithContinuation => 0,
            IRElement::HardLineBreak => 0,
            IRElement::SoftestLineBreak => chunk_from(es, i + 1),
            IRElement::Group(ch) => if hard_from(ch@, 0) {
                0
            } else {
                flat_from(ch@, 0) + chunk_from(es, i + 1)
            },
            IRElement::Indent(ch) => if hard_from(ch@, 0) {
                0
            } else {
                flat_from(ch@, 0) + chunk_from(es, i + 1)
            },
            IRElement::Comment { text, is_doc } => comment_prefix_len(is_doc) + 1 + text@.len()
                + chunk_from(es, i + 1),
        }
    }
}

/// Flat width of `es[i..]` up to the first hard break at any depth.
pub open spec fn until_hard_from(es: Seq<IRElement>, i: int) -> int
    decreases es, es.len() - i,
{
    if i < 0 || i >= es.len() {
        0
    } else {
        match es[i] {
            IRElement::Text(t) => t@.len() + until_hard_from(es, i + 1),
            IRElement::SoftLineBreak => 1 + until_hard_from(es, i + 1),
            IRElement::SoftLineBreakWithContinuation => 1 + until_hard_from(es, i + 1),
            IRElement::SoftestLineBreak => until_hard_from(es, i + 1),
            IRElement::HardLineBreak => 0,
            IRElement::Group(ch) => until_hard_from(ch@, 0) + if hard_from(ch@, 0) {
                0
            } else {
                until_hard_from(es, i + 1)
            },
            IRElement::Indent(ch) => until_hard_from(ch@, 0) + if hard_from(ch@, 0) {
                0
            } else {
                until_hard_from(es, i + 1)
            },
            IRElement::Comment { text, is_doc } => comment_prefix_len(is_doc) + 1 + text@.len()
                + until_hard_from(es, i + 1),
        }
    }
}

/// Text that is never moved to a new line on its own: `;`, `);`, `})`.
pub open spec fn is_terminator(t: Seq<char>) -> bool {
    t == seq![';'] || t == seq![')', ';'] || t == seq!['}', ')']
}

/// Whether a group fits flat on the current line, strictly within the width.
pub open spec fn group_fits(c: Cfg, s: PState, ch: Seq<IRElement>) -> bool {
    match flat_fit(ch, s.col, c.max) {
        Some(e) => e < c.max,
        None => false,
    }
}

/// Greedy filling of `es[i..]` at level `indent`; `skip` is set right after a
/// softest break that stayed on the line, so that a following `Indent` keeps
/// the level.
pub open spec fn fill(c: Cfg, s: PState, es: Seq<IRElement>, indent: int, i: int, skip: bool) -> PState
    decreases es, es.len() - i,
{
    if i < 0 || i >= es.len() {
        s
    } else {
        match es[i] {
            IRElement::Text(t) => {
                let s1 = if is_terminator(t@) || s.col + t@.len() <= c.max {
                    put_text(c, s, t@)
                } else {
                    put_text(c, hard_break(c, s, indent), t@)
                };
                fill(c, s1, es, indent, i + 1, false)
            },
            IRElement::SoftLineBreak => {
                let w = chunk_from(es, i + 1);
                let s1 = if w > 0 && s.col + 1 + w > c.max {
                    hard_break(c, s, indent)
                } else {
                    put_text(c, s, seq![' '])
                };
                fill(c, s1, es, indent, i + 1, false)
            },
            IRElement::SoftLineBreakWithContinuation => {
                let w = chunk_from(es, i + 1);
                let s1 = if w > 0 && s.col + 1 + w > c.max {
                    cont_break(c, s, indent)
                } else {
                    put_text(c, s, seq![' '])
                };
                fill(c, s1, es, indent, i + 1, false)
            },
            IRElement::SoftestLineBreak => {
                let w = until_hard_from(es, i + 1);
                if hard_from(es, i + 1) && w > 0 && s.col + w <= c.max {
                    fill(c, s, es, indent, i + 1, true)
                } else {
                    fill(c, hard_break(c, s, indent), es, indent, i + 1, false)
                }
            },
            IRElement::HardLineBreak => fill(c, hard_break(c, s, indent), es, indent, i + 1, false),
            IRElement::Group(ch) => {
                let s1 = if group_fits(c, s, ch@) {
                    flat_run(c, s, ch@, 0)
                } else {
                    fill(c, s, ch@, indent, 0, false)
                };
                fill(c, s1, es, indent, i + 1, false)
            },
            IRElement::Indent(ch) => {
                let eff = if skip {
                    indent
                } else {
                    indent + 1
                };
                let s1 = fill(c, repend(s, eff), ch@, eff, 0, false);
                fill(c, s1, es, indent, i + 1, false)
            },
            IRElement::Comment { text, is_doc } => fill(
                c,
                put_comment(c, s, text@, is_doc, indent),
                es,
                indent,
                i + 1,
                false,
            ),
        }
    }
}

/// Prints `es[i..]` in `mode` at level `indent`: groups that fit go flat,
/// the others are filled greedily.
pub open spec fn run(c: Cfg, s: PState, mode: PrintMode, indent: int, es: Seq<IRElement>, i: int) -> PState
    decreases es, es.len() - i,
{
    if i < 0 || i >= es.len() {
        s
    } else {
        let s1 = match es[i] {
            IRElement::Text(t) => put_text(c, s, t@),
            IRElement::SoftLineBreak => match mode {
                PrintMode::Flat => put_text(c, s, seq![' ']),
                PrintMode::Break => hard_break(c, s, indent),
            },
            IRElement::SoftLineBreakWithContinuation => match mode {
                PrintMode::Flat => put_text(c, s, seq![' ']),
                PrintMode::Break => cont_break(c, s, indent),
            },
            IRElement::SoftestLineBreak => match mode {
                PrintMode::Flat => s,
                PrintMode::Break => hard_break(c, s, indent),
            },
            IRElement::HardLineBreak => hard_break(c, s, indent),
            IRElement::Indent(ch) => run(c, repend(s, indent + 1), mode, indent + 1, ch@, 0),
            IRElement::Group(ch) => if group_fits(c, s, ch@) {
                run(c, s, PrintMode::Flat, indent, ch@, 0)
            } else {
                fill(c, s, ch@, indent, 0, false)
            },
            IRElement::Comment { text, is_doc } => put_comment(c, s, text@, is_doc, indent),
        };
        run(c, s1, mode, indent, es, i + 1)
    }
}

/// The empty printer state.
pub open spec fn start_state() -> PState {
    PState { buf: Seq::empty(), col: 0, pending: None }
}

/// The text that printing `ir` produces with width `max` and indentation
/// step `iw`: the top level in break mode, ending with a newline.
pub open spec fn render(max: int, iw: int, ir: Seq<IRElement>) -> Seq<char> {
    let s = run(Cfg { max, iw }, start_state(), PrintMode::Break, 0, ir, 0);
    if s.buf.len() > 0 && s.buf.last() == '\n' {
        s.buf
    } else {
        s.buf.push('\n')
    }
}


/// Writing `t` from column `col` ends at most `t.len()` further.
pub proof fn lemma_advance(col: int, t: Seq<char>)
    requires
        col >= 0,
    ensures
        0 <= advance(col, t) <= col + t.len(),
    decreases t.len(),
{
    if t.len() > 0 {
        lemma_advance(col, t.drop_last());
    }
}

/// The chunk and up-to-hard-break widths are bounded by the weight.
pub proof fn lemma_chunk_until(es: Seq<IRElement>, i: int)
    requires
        0 <= i,
    ensures
        0 <= chunk_from(es, i) <= weight_from(es, i),
        0 <= until_hard_from(es, i) <= weight_from(es, i),
        0 <= weight_from(es, i + 1) <= weight_from(es, i),
        depth_from(es, i + 1) <= depth_from(es, i),
    decreases es, es.len() - i,
{
    lemma_measures(es, i);
    if 0 <= i < es.len() {
        lemma_chunk_until(es, i + 1);
        lemma_measures(es, i + 1);
        match es[i] {
            IRElement::Group(ch) => {
                lemma_measures(ch@, 0);
                lemma_chunk_until(ch@, 0);
            },
            IRElement::Indent(ch) => {
                lemma_measures(ch@, 0);
                lemma_chunk_until(ch@, 0);
            },
            _ => {},
        }
    }
}

/// `a <= b` implies `a * k <= b * k` for non-negative `k`.
pub proof fn lemma_mul_mono(a: int, b: int, k: int)
    requires
        0 <= a <= b,
        0 <= k,
    ensures
        0 <= a * k <= b * k,
{
    assert(0 <= a * k <= b * k) by (nonlinear_arith)
        requires
            0 <= a <= b,
            0 <= k,
    ;
}

/// `// text` or `/// text` as characters.
fn line_comment_chars(text: &str, is_doc: bool) -> (v: Vec<char>)
    ensures
        v@ == line_comment(text@, is_doc),
{
    let tv = chars_of(text);
    let mut line: Vec<char> = Vec::new();
    line.push('/');
    line.push('/');
    if is_doc {
        line.push('/');
    }
    line.push(' ');
    let ghost l0 = line@;
    let mut k: usize = 0;
    while k < tv.len()
        invariant
            k <= tv@.len(),
            line@ == l0 + tv@.take(k as int),
        decreases tv@.len() - k,
    {
        line.push(tv[k]);
        k = k + 1;
        assert(line@ =~= l0 + tv@.take(k as int));
    }
    assert(tv@.take(tv@.len() as int) =~= tv@);
    assert(line@ =~= line_comment(text@, is_doc));
    line
}

/// Decides `is_terminator`.
fn is_terminator_chars(t: &[char]) -> (b: bool)
    ensures
        b == is_terminator(t@),
{
    let r = (t.len() == 1 && t[0] == ';') || (t.len() == 2 && t[0] == ')' && t[1] == ';') || (
    t.len() == 2 && t[0] == '}' && t[1] == ')');
    proof {
        if t@.len() == 1 && t@[0] == ';' {
            assert(t@ =~= seq![';']);
        }
        if t@.len() == 2 && t@[0] == ')' && t@[1] == ';' {
            assert(t@ =~= seq![')', ';']);
        }
        if t@.len() == 2 && t@[0] == '}' && t@[1] == ')' {
            assert(t@ =~= seq!['}', ')']);
        }
    }
    r
}

/// Depth and weight from an earlier position are at least those from a
/// later one.
proof fn lemma_from_mono(es: Seq<IRElement>, j: int, i: int)
    requires
        0 <= j <= i <= es.len(),
    ensures
        depth_from(es, j) >= depth_from(es, i),
        weight_from(es, j) >= weight_from(es, i),
    decreases i - j,
{
    if j < i {
        lemma_from_mono(es, j + 1, i);
        lemma_measures(es, j);
        lemma_measures(es, j + 1);
        lemma_measures(es, i);
        match es[j] {
            IRElement::Group(ch) => lemma_measures(ch@, 0),
            IRElement::Indent(ch) => lemma_measures(ch@, 0),
            _ => {},
        }
    }
}

/// The nesting depth and the weight of `es` (`depth_from` and
/// `weight_from`), or `None` when one of them does not fit in a `usize`.
pub fn measure(es: &[IRElement]) -> (r: Option<(usize, usize)>)
    ensures
        match r {
            Some((d, w)) => d == depth_from(es@, 0) && w == weight_from(es@, 0),
            None => depth_from(es@, 0) > usize::MAX || weight_from(es@, 0) > usize::MAX,
        },
    decreases es@,
{
    proof {
        lemma_measures(es@, 0);
    }
    let mut d: usize = 0;
    let mut w: usize = 0;
    let mut i: usize = es.len();
    while i > 0
        invariant
            i <= es@.len(),
            d == depth_from(es@, i as int),
            w == weight_from(es@, i as int),
        decreases i,
    {
        i = i - 1;
        proof {
            lemma_measures(es@, i as int);
            lemma_measures(es@, i + 1);
        }
        let (ed, ew): (usize, usize) = match &es[i] {
            IRElement::Text(t) => (0, t.as_str().unicode_len()),
            IRElement::SoftLineBreak => (0, 1),
            IRElement::SoftLineBreakWithContinuation => (0, 2),
            IRElement::SoftestLineBreak => (0, 0),
            IRElement::HardLineBreak => (0, 0),
            IRElement::Group(ch) => {
                proof {
                    lemma_measures(ch@, 0);
                }
                match measure(ch.as_slice()) {
                    Some(m) => m,
                    None => {
                        proof {
                            lemma_from_mono(es@, 0, i as int);
                        }
                        return None;
                    },
                }
            },
            IRElement::Indent(ch) => {
                proof {
                    lemma_measures(ch@, 0);
                }
                match measure(ch.as_slice()) {
                    Some((cd, cw)) => {
                        if cd == usize::MAX {
                            proof {
                                lemma_from_mono(es@, 0, i as int);
                            }
                            return None;
                        }
                        (cd + 1, cw)
                    },
                    None => {
                        proof {
                            lemma_from_mono(es@, 0, i as int);
                        }
                        return None;
                    },
                }
            },
            IRElement::Comment { text, .. } => {
                let n = text.as_str().unicode_len();
                if n > (usize::MAX - 16) / 8 {
                    proof {
                        lemma_from_mono(es@, 0, i as int);
                    }
                    return None;
                }
                (1, 8 * n + 16)
            },
        };
        if ew > usize::MAX - w {
            proof {
                lemma_from_mono(es@, 0, i as int);
            }
            return None;
        }
        d = if ed > d {
            ed
        } else {
            d
        };
        w = ew + w;
    }
    Some((d, w))
}

/// Prints IR with the default printer (width 80, two-space indentation).
pub fn print_ir(ir_elements: &[IRElement]) -> (r: String)
    requires
        depth_from(ir_elements@, 0) < usize::MAX,
        depth_from(ir_elements@, 0) * 2 + weight_from(ir_elements@, 0) + 96 <= usize::MAX,
    ensures
        r@ == render(80, 2, ir_elements@),
{
    let mut printer = Printer::new();
    printer.print(ir_elements)
}

/// Wadler-style printer that makes layout decisions within a line width.
pub struct Printer {
    max_width: usize,
    indent_width: usize,
    buffer: Vec<char>,
    current_col: usize,
    pending_indent: Option<usize>,
}

impl Printer {
    /// The maximum line width.
    pub closed spec fn width(&self) -> int {
        self.max_width as int
    }

    /// The number of spaces per indentation level.
    pub closed spec fn step(&self) -> int {
        self.indent_width as int
    }

    /// The text written so far.
    pub closed spec fn output(&self) -> Seq<char> {
        self.buffer@
    }

    /// Whether nothing is written yet: an empty buffer, column 0 and no
    /// indentation pending.
    pub closed spec fn is_fresh(&self) -> bool {
        self.buffer@.len() == 0 && self.current_col == 0 && self.pending_indent is None
    }

    closed spec fn cfg(&self) -> Cfg {
        Cfg { max: self.max_width as int, iw: self.indent_width as int }
    }

    closed spec fn state(&self) -> PState {
        PState {
            buf: self.buffer@,
            col: self.current_col as int,
            pending: match self.pending_indent {
                Some(n) => Some(n as int),
                None => None,
            },
        }
    }

    /// Room for arithmetic: columns stay below `lim * indent_width + used`,
    /// indentation levels at most `lim`, and `w` more columns may be added.
    closed spec fn room(&self, lim: int, used: int, w: int) -> bool {
        &&& 0 <= lim
        &&& lim < usize::MAX
        &&& 0 <= used
        &&& 0 <= w
        &&& self.current_col <= lim * self.indent_width + used
        &&& (self.pending_indent matches Some(p) ==> p <= lim)
        &&& lim * self.indent_width + used + w + self.max_width + 16 <= usize::MAX
    }

    /// A printer with width 80 and two-space indentation.
    pub fn new() -> (r: Self)
        ensures
            r.width() == 80,
            r.step() == 2,
            r.is_fresh(),
    {
        Printer {
            max_width: 80,
            indent_width: 2,
            buffer: Vec::new(),
            current_col: 0,
            pending_indent: None,
        }
    }

    /// A printer with the given width and indentation step.
    pub fn with_config(max_width: usize, indent_width: usize) -> (r: Self)
        ensures
            r.width() == max_width,
            r.step() == indent_width,
            r.is_fresh(),
    {
        Printer { max_width, indent_width, buffer: Vec::new(), current_col: 0, pending_indent: None }
    }

    /// Writes any pending indentation.
    fn flush_pending_indent(&mut self, Ghost(lim): Ghost<int>, Ghost(used): Ghost<int>, Ghost(w): Ghost<int>)
        requires
            old(self).room(lim, used, w),
        ensures
            final(self).cfg() == old(self).cfg(),
            final(self).state() == flush(old(self).cfg(), old(self).state()),
            final(self).room(lim, used, w),
    {
        if let Some(indent) = self.pending_indent {
            proof {
                lemma_mul_mono(indent as int, lim, self.indent_width as int);
            }
            let n = indent * self.indent_width;
            let ghost b0 = self.buffer@;
            let mut k: usize = 0;
            while k < n
                invariant
                    k <= n,
                    self.buffer@ == b0 + spaces(k as int),
                    self.max_width == old(self).max_width,
                    self.indent_width == old(self).indent_width,
                    self.current_col == old(self).current_col,
                    self.pending_indent == old(self).pending_indent,
                decreases n - k,
            {
                self.buffer.push(' ');
                k = k + 1;
                assert(self.buffer@ =~= b0 + spaces(k as int));
            }
            self.current_col = n;
            self.pending_indent = None;
        }
    }

    /// Writes text after any pending indentation and tracks the column.
    fn print_text(&mut self, text: &[char], Ghost(lim): Ghost<int>, Ghost(used): Ghost<int>, Ghost(w): Ghost<int>)
        requires
            old(self).room(lim, used, w),
            text@.len() <= w,
        ensures
            final(self).cfg() == old(self).cfg(),
            final(self).state() == put_text(old(self).cfg(), old(self).state(), text@),
            final(self).room(lim, used + text@.len(), w - text@.len()),
            final(self).current_col <= flush(old(self).cfg(), old(self).state()).col + text@.len(),
    {
        self.flush_pending_indent(Ghost(lim), Ghost(used), Ghost(w));
        let ghost b0 = self.buffer@;
        let ghost c0 = self.current_col as int;
        let mut i: usize = 0;
        while i < text.len()
            invariant
                i <= text@.len(),
                self.cfg() == old(self).cfg(),
                self.pending_indent is None,
                self.buffer@ == b0 + text@.take(i as int),
                self.current_col == advance(c0, text@.take(i as int)),
                self.current_col <= c0 + i,
                c0 <= lim * self.indent_width + used,
                lim * self.indent_width + used + w + self.max_width + 16 <= usize::MAX,
                text@.len() <= w,
            decreases text@.len() - i,
        {
            let ch = text[i];
            self.buffer.push(ch);
            if ch == '\n' {
                self.current_col = 0;
            } else {
                self.current_col = self.current_col + 1;
            }
            assert(text@.take(i + 1).drop_last() =~= text@.take(i as int));
            i = i + 1;
            assert(self.buffer@ =~= b0 + text@.take(i as int));
        }
        assert(text@.take(text@.len() as int) =~= text@);
    }

    /// Ends the line, dropping its trailing spaces; the next content is
    /// indented `indent` levels.
    fn print_hard_line_break(&mut self, indent: usize, Ghost(lim): Ghost<int>, Ghost(used): Ghost<int>, Ghost(w): Ghost<int>)
        requires
            old(self).room(lim, used, w),
            indent <= lim,
        ensures
            final(self).cfg() == old(self).cfg(),
            final(self).state() == hard_break(old(self).cfg(), old(self).state(), indent as int),
            final(self).room(lim, used, w),
    {
        let ghost b0 = self.buffer@;
        while self.buffer.len() > 0 && self.buffer[self.buffer.len() - 1] == ' '
            invariant
                strip_spaces(self.buffer@) == strip_spaces(b0),
                self.max_width == old(self).max_width,
                self.indent_width == old(self).indent_width,
                self.current_col == old(self).current_col,
                self.pending_indent == old(self).pending_indent,
            decreases self.buffer@.len(),
        {
            self.buffer.pop();
        }
        self.buffer.push('\n');
        self.pending_indent = Some(indent);
        proof {
            lemma_mul_mono(indent as int, lim, self.indent_width as int);
        }
        self.current_col = indent * self.indent_width;
    }

    /// Whether a group fits flat on the current line, strictly within the width.
    fn group_fits(&self, elements: &[IRElement], _indent: usize) -> (b: bool)
        ensures
            b == group_fits(self.cfg(), self.state(), elements@),
    {
        proof {
            lemma_flat_nonneg(elements@, 0);
        }
        match check_flat_layout_fits(elements, self.current_col, self.max_width) {
            Some(end_col) => end_col < self.max_width,
            None => false,
        }
    }

    /// Flat width of `elements[start..]` up to the next break point, if not zero.
    fn measure_next_chunk(&self, elements: &[IRElement], start: usize) -> (r: Option<usize>)
        requires
            weight_from(elements@, start as int) <= usize::MAX,
        ensures
            r == (if chunk_from(elements@, start as int) > 0 {
                Some(chunk_from(elements@, start as int) as usize)
            } else {
                None::<usize>
            }),
    {
        proof {
            lemma_chunk_until(elements@, start as int);
        }
        let mut width: usize = 0;
        let mut i = start;
        while i < elements.len()
            invariant
                start <= i,
                chunk_from(elements@, start as int) == width + chunk_from(elements@, i as int),
                width + weight_from(elements@, i as int) <= weight_from(elements@, start as int),
                weight_from(elements@, start as int) <= usize::MAX,
            decreases elements@.len() - i,
        {
            proof {
                lemma_chunk_until(elements@, i as int);
                lemma_chunk_until(elements@, i + 1);
            }
            match &elements[i] {
                IRElement::Text(text) => {
                    width = width + text.as_str().unicode_len();
                },
                IRElement::SoftLineBreak | IRElement::SoftLineBreakWithContinuation => {
                    return if width > 0 {
                        Some(width)
                    } else {
                        None
                    };
                },
                IRElement::SoftestLineBreak => {},
                IRElement::HardLineBreak => {
                    return if width > 0 {
                        Some(width)
                    } else {
                        None
                    };
                },
                IRElement::Group(children) | IRElement::Indent(children) => {
                    proof {
                        lemma_measures(children@, 0);
                    }
                    if let Some(end_col) = check_flat_layout_fits(children.as_slice(), 0, usize::MAX) {
                        width = width + end_col;
                    } else {
                        return if width > 0 {
                            Some(width)
                        } else {
                            None
                        };
                    }
                },
                IRElement::Comment { text, is_doc } => {
                    let prefix_len: usize = if *is_doc { 4 } else { 3 };
                    width = width + prefix_len + text.as_str().unicode_len();
                },
            }
            i = i + 1;
        }
        if width > 0 {
            Some(width)
        } else {
            None
        }
    }

    /// Flat width of `elements[start..]` up to the first hard break at any depth.
    fn measure_until_hard_break(&self, elements: &[IRElement], start: usize) -> (r: usize)
        requires
            weight_from(elements@, start as int) <= usize::MAX,
        ensures
            r == until_hard_from(elements@, start as int),
        decreases elements@,
    {
        proof {
            lemma_chunk_until(elements@, start as int);
        }
        let mut width: usize = 0;
        let mut i = start;
        while i < elements.len()
            invariant
                start <= i,
                until_hard_from(elements@, start as int) == width + until_hard_from(elements@, i as int),
                width + weight_from(elements@, i as int) <= weight_from(elements@, start as int),
                weight_from(elements@, start as int) <= usize::MAX,
            decreases elements@.len() - i,
        {
            proof {
                lemma_chunk_until(elements@, i as int);
                lemma_chunk_until(elements@, i + 1);
            }
            match &elements[i] {
                IRElement::Text(text) => {
                    width = width + text.as_str().unicode_len();
                },
                IRElement::SoftLineBreak | IRElement::SoftLineBreakWithContinuation => {
                    width = width + 1;
                },
                IRElement::SoftestLineBreak => {},
                IRElement::HardLineBreak => {
                    return width;
                },
                IRElement::Group(children) | IRElement::Indent(children) => {
                    proof {
                        lemma_chunk_until(children@, 0);
                    }
                    width = width + self.measure_until_hard_break(children.as_slice(), 0);
                    if Self::has_hard_break(children.as_slice(), 0) {
                        return width;
                    }
                },
                IRElement::Comment { text, is_doc } => {
                    let prefix_len: usize = if *is_doc { 4 } else { 3 };
                    width = width + prefix_len + text.as_str().unicode_len();
                },
            }
            i = i + 1;
        }
        width
    }

    /// Whether `elements[start..]` holds a hard line break at any depth.
    fn has_hard_break(elements: &[IRElement], start: usize) -> (r: bool)
        ensures
            r == hard_from(elements@, start as int),
        decreases elements@,
    {
        let mut i = start;
        while i < elements.len()
            invariant
                start <= i,
                hard_from(elements@, start as int) == hard_from(elements@, i as int),
            decreases elements@.len() - i,
        {
            match &elements[i] {
                IRElement::HardLineBreak => {
                    return true;
                },
                IRElement::Group(children) | IRElement::Indent(children) => {
                    if Self::has_hard_break(children.as_slice(), 0) {
                        return true;
                    }
                },
                _ => {},
            }
            i = i + 1;
        }
        false
    }

    /// Writes a comment: `// text` when it fits on the line and has no line
    /// breaks; otherwise a block comment that keeps the comment's own lines,
    /// or wraps its words within the width.
    fn print_comment(
        &mut self,
        text: &String,
        is_doc: bool,
        indent: usize,
        Ghost(lim): Ghost<int>,
        Ghost(used): Ghost<int>,
        Ghost(w): Ghost<int>,
    )
        requires
            old(self).room(lim, used, w),
            indent + 1 <= lim,
            8 * text@.len() + 16 <= w,
        ensures
            final(self).cfg() == old(self).cfg(),
            final(self).state() == put_comment(
                old(self).cfg(),
                old(self).state(),
                text@,
                is_doc,
                indent as int,
            ),
            final(self).room(lim, used + 8 * text@.len() + 16, w - 8 * text@.len() - 16),
    {
        let ghost c = self.cfg();
        let ghost len = text@.len() as int;
        let tv = chars_of(text.as_str());
        let mut line: Vec<char> = Vec::new();
        line.push('/');
        line.push('/');
        if is_doc {
            line.push('/');
        }
        line.push(' ');
        let mut k: usize = 0;
        let ghost l0 = line@;
        while k < tv.len()
            invariant
                k <= tv@.len(),
                line@ == l0 + tv@.take(k as int),
            decreases tv@.len() - k,
        {
            line.push(tv[k]);
            k = k + 1;
            assert(line@ =~= l0 + tv@.take(k as int));
        }
        assert(tv@.take(tv@.len() as int) =~= tv@);
        assert(line@ =~= line_comment(text@, is_doc));
        let mut has_newlines = false;
        let mut j: usize = 0;
        while j < tv.len()
            invariant
                j <= tv@.len(),
                has_newlines == exists|q: int| 0 <= q < j && tv@[q] == '\n',
            decreases tv@.len() - j,
        {
            if tv[j] == '\n' {
                has_newlines = true;
            }
            j = j + 1;
        }
        assert(has_newlines == text@.contains('\n'));
        proof {
            lemma_utf8_len(line@);
            lemma_mul_mono(indent as int, lim, self.indent_width as int);
            lemma_mul_mono(indent + 1, lim, self.indent_width as int);
            assert((indent + 1) * self.indent_width == indent * self.indent_width + self.indent_width)
                by (nonlinear_arith);
        }
        let indent_width = indent * self.indent_width;
        let n = utf8_length(line.as_slice());
        if !has_newlines && indent_width + n <= self.max_width {
            self.print_text(line.as_slice(), Ghost(lim), Ghost(used), Ghost(w));
            return;
        }
        let mut open: Vec<char> = Vec::new();
        open.push('/');
        open.push('*');
        if is_doc {
            open.push('*');
        }
        assert(open@ =~= block_open(is_doc));
        self.print_text(open.as_slice(), Ghost(lim), Ghost(used), Ghost(w));
        self.print_hard_line_break(indent + 1, Ghost(lim), Ghost(used + 3), Ghost(w - 3));
        let ghost s1 = self.state();
        if has_newlines {
            let ls = split_lines(tv.as_slice());
            proof {
                lemma_lines_len(tv@);
            }
            let mut i: usize = 0;
            while i < ls.len()
                invariant
                    i <= ls@.len(),
                    views(ls@) == lines(text@),
                    forall|q: int| 0 <= q < lines(text@).len() ==> #[trigger] lines(text@)[q].len() <= len,
                    self.cfg() == c,
                    comment_lines(c, s1, views(ls@), indent + 1, 0) == comment_lines(
                        c,
                        self.state(),
                        views(ls@),
                        indent + 1,
                        i as int,
                    ),
                    self.room(lim, used + 3 + len, w - 3 - len),
                    i == 0 ==> self.current_col <= lim * self.indent_width,
                    (indent + 1) * self.indent_width <= lim * self.indent_width,
                    indent + 1 <= lim,
                    8 * len + 16 <= w,
                    len == text@.len(),
                    0 <= used,
                decreases ls@.len() - i,
            {
                if i > 0 {
                    self.print_hard_line_break(indent + 1, Ghost(lim), Ghost(used + 3 + len), Ghost(w - 3 - len));
                }
                let trimmed = trim_chars(ls[i].as_slice());
                proof {
                    lemma_trim_len(ls@[i as int]@);
                    assert(views(ls@)[i as int] == ls@[i as int]@);
                    assert(lines(text@)[i as int].len() <= len);
                    assert(self.current_col <= lim * self.indent_width + used + 3);
                }
                if trimmed.len() > 0 {
                    self.print_text(trimmed.as_slice(), Ghost(lim), Ghost(used + 3), Ghost(w - 3));
                }
                i = i + 1;
            }
        } else {
            let ws = split_words(tv.as_slice());
            proof {
                lemma_words_total(tv@);
            }
            let base = indent_width + self.indent_width;
            assert(self.current_col == base);
            let mut current_line_len = base;
            let mut i: usize = 0;
            proof {
                lemma_words_total_mono(views(ws@), 0, ws@.len() as int);
            }
            while i < ws.len()
                invariant
                    i <= ws@.len(),
                    views(ws@) == words(text@),
                    words_total(words(text@), words(text@).len() as int) <= 2 * len,
                    forall|q: int| 0 <= q < words(text@).len() ==> #[trigger] words(text@)[q].len() <= len,
                    self.cfg() == c,
                    comment_words(c, s1, views(ws@), indent + 1, base as int, base as int, 0)
                        == comment_words(
                        c,
                        self.state(),
                        views(ws@),
                        indent + 1,
                        base as int,
                        current_line_len as int,
                        i as int,
                    ),
                    base == (indent + 1) * self.indent_width,
                    base <= lim * self.indent_width,
                    base <= current_line_len <= base + words_total(views(ws@), i as int),
                    words_total(views(ws@), i as int) <= words_total(views(ws@), ws@.len() as int),
                    self.current_col <= current_line_len,
                    self.pending_indent matches Some(p) ==> p == indent + 1,
                    self.room(lim, used + 3 + 3 * len, w - 3 - 3 * len),
                    indent + 1 <= lim,
                    8 * len + 16 <= w,
                    len == text@.len(),
                    0 <= used,
                decreases ws@.len() - i,
            {
                assert(views(ws@)[i as int] == ws@[i as int]@);
                let word = &ws[i];
                let word_len = word.len();
                proof {
                    lemma_words_total_mono(views(ws@), i + 1, ws@.len() as int);
                    assert(words(text@)[i as int].len() <= len);
                    assert(self.current_col <= lim * self.indent_width + used + 3 + 2 * len);
                }
                if i == 0 {
                    self.print_text(word.as_slice(), Ghost(lim), Ghost(used + 3 + 2 * len), Ghost(w - 3 - 2 * len));
                    current_line_len = current_line_len + word_len;
                } else if current_line_len + 1 + word_len <= self.max_width {
                    let mut sp: Vec<char> = Vec::new();
                    sp.push(' ');
                    assert(sp@ =~= seq![' ']);
                    self.print_text(sp.as_slice(), Ghost(lim), Ghost(used + 3 + 2 * len), Ghost(w - 3 - 2 * len));
                    self.print_text(word.as_slice(), Ghost(lim), Ghost(used + 4 + 2 * len), Ghost(w - 4 - 2 * len));
                    current_line_len = current_line_len + 1 + word_len;
                } else {
                    self.print_hard_line_break(indent + 1, Ghost(lim), Ghost(used + 3 + 3 * len), Ghost(w - 3 - 3 * len));
                    self.print_text(word.as_slice(), Ghost(lim), Ghost(used + 3), Ghost(w - 3));
                    current_line_len = base + word_len;
                }
                i = i + 1;
            }
        }
        self.print_hard_line_break(indent, Ghost(lim), Ghost(used + 3 + 4 * len), Ghost(w - 3 - 4 * len));
        let mut close: Vec<char> = Vec::new();
        close.push('*');
        close.push('/');
        assert(close@ =~= seq!['*', '/']);
        self.print_text(close.as_slice(), Ghost(lim), Ghost(used + 8 * len + 14), Ghost(w - 8 * len - 14));
    }

    /// Writes a single space after any pending indentation.
    fn print_space(&mut self, Ghost(lim): Ghost<int>, Ghost(used): Ghost<int>, Ghost(w): Ghost<int>)
        requires
            old(self).room(lim, used, w),
            1 <= w,
        ensures
            final(self).cfg() == old(self).cfg(),
            final(self).state() == put_text(old(self).cfg(), old(self).state(), seq![' ']),
            final(self).room(lim, used + 1, w - 1),
    {
        let mut sp: Vec<char> = Vec::new();
        sp.push(' ');
        assert(sp@ =~= seq![' ']);
        self.print_text(sp.as_slice(), Ghost(lim), Ghost(used), Ghost(w));
    }

    /// A line break followed by two spaces of continuation indentation.
    fn print_continuation_break(
        &mut self,
        indent: usize,
        Ghost(lim): Ghost<int>,
        Ghost(used): Ghost<int>,
        Ghost(w): Ghost<int>,
    )
        requires
            old(self).room(lim, used, w),
            indent <= lim,
            2 <= w,
        ensures
            final(self).cfg() == old(self).cfg(),
            final(self).state() == cont_break(old(self).cfg(), old(self).state(), indent as int),
            final(self).room(lim, used + 2, w - 2),
    {
        self.print_hard_line_break(indent, Ghost(lim), Ghost(used), Ghost(w));
        let mut sp: Vec<char> = Vec::new();
        sp.push(' ');
        sp.push(' ');
        assert(sp@ =~= seq![' ', ' ']);
        self.print_text(sp.as_slice(), Ghost(lim), Ghost(used), Ghost(w));
    }

    /// Prints elements on one line: soft breaks become spaces, softest breaks
    /// disappear, hard breaks still break.
    fn print_flat(&mut self, elements: &[IRElement], Ghost(lim): Ghost<int>, Ghost(used): Ghost<int>, Ghost(w): Ghost<int>)
        requires
            old(self).room(lim, used, w),
            weight_from(elements@, 0) <= w,
        ensures
            final(self).cfg() == old(self).cfg(),
            final(self).state() == flat_run(old(self).cfg(), old(self).state(), elements@, 0),
            final(self).room(lim, used + weight_from(elements@, 0), w - weight_from(elements@, 0)),
        decreases elements@,
    {
        let ghost c = self.cfg();
        let ghost s0 = self.state();
        let ghost es = elements@;
        let ghost wf = weight_from(elements@, 0);
        proof {
            lemma_measures(es, 0);
        }
        let mut i: usize = 0;
        while i < elements.len()
            invariant
                i <= es.len(),
                es == elements@,
                self.cfg() == c,
                flat_run(c, s0, es, 0) == flat_run(c, self.state(), es, i as int),
                0 <= weight_from(es, i as int) <= wf,
                wf <= w,
                self.room(lim, used + wf - weight_from(es, i as int), w - wf + weight_from(es, i as int)),
            decreases es.len() - i,
        {
            proof {
                lemma_chunk_until(es, i as int);
            }
            let ghost u = used + wf - weight_from(es, i as int);
            let ghost ww = w - wf + weight_from(es, i as int);
            match &elements[i] {
                IRElement::Text(text) => {
                    let tv = chars_of(text.as_str());
                    self.print_text(tv.as_slice(), Ghost(lim), Ghost(u), Ghost(ww));
                },
                IRElement::SoftLineBreak | IRElement::SoftLineBreakWithContinuation => {
                    self.print_space(Ghost(lim), Ghost(u), Ghost(ww));
                },
                IRElement::SoftestLineBreak => {},
                IRElement::HardLineBreak => {
                    self.buffer.push('\n');
                    self.current_col = 0;
                },
                IRElement::Group(children) | IRElement::Indent(children) => {
                    self.print_flat(children.as_slice(), Ghost(lim), Ghost(u), Ghost(ww));
                },
                IRElement::Comment { text, is_doc } => {
                    let line = line_comment_chars(text.as_str(), *is_doc);
                    self.print_text(line.as_slice(), Ghost(lim), Ghost(u), Ghost(ww));
                },
            }
            i = i + 1;
        }
    }

    /// Fills a group that does not fit: as many elements per line as fit.
    fn print_fill(
        &mut self,
        elements: &[IRElement],
        indent: usize,
        Ghost(lim): Ghost<int>,
        Ghost(used): Ghost<int>,
        Ghost(w): Ghost<int>,
    )
        requires
            old(self).room(lim, used, w),
            weight_from(elements@, 0) <= w,
            indent + depth_from(elements@, 0) <= lim,
        ensures
            final(self).cfg() == old(self).cfg(),
            final(self).state() == fill(
                old(self).cfg(),
                old(self).state(),
                elements@,
                indent as int,
                0,
                false,
            ),
            final(self).room(lim, used + weight_from(elements@, 0), w - weight_from(elements@, 0)),
        decreases elements@,
    {
        let ghost c = self.cfg();
        let ghost s0 = self.state();
        let ghost es = elements@;
        let ghost wf = weight_from(elements@, 0);
        proof {
            lemma_measures(es, 0);
        }
        let mut i: usize = 0;
        let mut skip_next_indent = false;
        while i < elements.len()
            invariant
                i <= es.len(),
                es == elements@,
                self.cfg() == c,
                fill(c, s0, es, indent as int, 0, false) == fill(
                    c,
                    self.state(),
                    es,
                    indent as int,
                    i as int,
                    skip_next_indent,
                ),
                0 <= weight_from(es, i as int) <= wf,
                wf <= w,
                indent + depth_from(es, i as int) <= lim,
                self.room(lim, used + wf - weight_from(es, i as int), w - wf + weight_from(es, i as int)),
            decreases es.len() - i,
        {
            proof {
                lemma_chunk_until(es, i as int);
                lemma_chunk_until(es, i + 1);
                lemma_measures(es, i + 1);
            }
            let ghost u = used + wf - weight_from(es, i as int);
            let ghost ww = w - wf + weight_from(es, i as int);
            match &elements[i] {
                IRElement::Text(text) => {
                    let tv = chars_of(text.as_str());
                    let text_len = tv.len();
                    let is_terminator = is_terminator_chars(tv.as_slice());
                    if is_terminator || self.current_col + text_len <= self.max_width {
                        self.print_text(tv.as_slice(), Ghost(lim), Ghost(u), Ghost(ww));
                    } else {
                        self.print_hard_line_break(indent, Ghost(lim), Ghost(u), Ghost(ww));
                        self.print_text(tv.as_slice(), Ghost(lim), Ghost(u), Ghost(ww));
                    }
                    skip_next_indent = false;
                },
                IRElement::SoftLineBreak => {
                    if let Some(chunk_len) = self.measure_next_chunk(elements, i + 1) {
                        if self.current_col + 1 + chunk_len <= self.max_width {
                            self.print_space(Ghost(lim), Ghost(u), Ghost(ww));
                        } else {
                            self.print_hard_line_break(indent, Ghost(lim), Ghost(u), Ghost(ww));
                        }
                    } else {
                        self.print_space(Ghost(lim), Ghost(u), Ghost(ww));
                    }
                    skip_next_indent = false;
                },
                IRElement::SoftLineBreakWithContinuation => {
                    if let Some(chunk_len) = self.measure_next_chunk(elements, i + 1) {
                        if self.current_col + 1 + chunk_len <= self.max_width {
                            self.print_space(Ghost(lim), Ghost(u), Ghost(ww));
                        } else {
                            self.print_continuation_break(indent, Ghost(lim), Ghost(u), Ghost(ww));
                        }
                    } else {
                        self.print_space(Ghost(lim), Ghost(u), Ghost(ww));
                    }
                    skip_next_indent = false;
                },
                IRElement::SoftestLineBreak => {
                    if Self::has_hard_break(elements, i + 1) {
                        let first_line_width = self.measure_until_hard_break(elements, i + 1);
                        if first_line_width > 0 && self.current_col + first_line_width <= self.max_width {
                            skip_next_indent = true;
                        } else {
                            self.print_hard_line_break(indent, Ghost(lim), Ghost(u), Ghost(ww));
                            skip_next_indent = false;
                        }
                    } else {
                        self.print_hard_line_break(indent, Ghost(lim), Ghost(u), Ghost(ww));
                        skip_next_indent = false;
                    }
                },
                IRElement::HardLineBreak => {
                    self.print_hard_line_break(indent, Ghost(lim), Ghost(u), Ghost(ww));
                    skip_next_indent = false;
                },
                IRElement::Group(children) => {
                    if self.group_fits(children.as_slice(), indent) {
                        self.print_flat(children.as_slice(), Ghost(lim), Ghost(u), Ghost(ww));
                    } else {
                        self.print_fill(children.as_slice(), indent, Ghost(lim), Ghost(u), Ghost(ww));
                    }
                    skip_next_indent = false;
                },
                IRElement::Indent(children) => {
                    proof {
                        lemma_measures(children@, 0);
                    }
                    let effective_indent = if skip_next_indent {
                        indent
                    } else {
                        indent + 1
                    };
                    if self.pending_indent.is_some() {
                        self.pending_indent = Some(effective_indent);
                    }
                    self.print_fill(children.as_slice(), effective_indent, Ghost(lim), Ghost(u), Ghost(ww));
                    skip_next_indent = false;
                },
                IRElement::Comment { text, is_doc } => {
                    self.print_comment(text, *is_doc, indent, Ghost(lim), Ghost(u), Ghost(ww));
                    skip_next_indent = false;
                },
            }
            i = i + 1;
        }
    }

    /// Prints elements in `mode` at level `indent`; a group is printed flat
    /// when it fits on the current line, else filled.
    fn print_elems(
        &mut self,
        elements: &[IRElement],
        mode: PrintMode,
        indent: usize,
        Ghost(lim): Ghost<int>,
        Ghost(used): Ghost<int>,
        Ghost(w): Ghost<int>,
    )
        requires
            old(self).room(lim, used, w),
            weight_from(elements@, 0) <= w,
            indent + depth_from(elements@, 0) <= lim,
        ensures
            final(self).cfg() == old(self).cfg(),
            final(self).state() == run(
                old(self).cfg(),
                old(self).state(),
                mode,
                indent as int,
                elements@,
                0,
            ),
            final(self).room(lim, used + weight_from(elements@, 0), w - weight_from(elements@, 0)),
        decreases elements@,
    {
        let ghost c = self.cfg();
        let ghost s0 = self.state();
        let ghost es = elements@;
        let ghost wf = weight_from(elements@, 0);
        proof {
            lemma_measures(es, 0);
        }
        let mut i: usize = 0;
        while i < elements.len()
            invariant
                i <= es.len(),
                es == elements@,
                self.cfg() == c,
                run(c, s0, mode, indent as int, es, 0) == run(c, self.state(), mode, indent as int, es, i as int),
                0 <= weight_from(es, i as int) <= wf,
                wf <= w,
                indent + depth_from(es, i as int) <= lim,
                self.room(lim, used + wf - weight_from(es, i as int), w - wf + weight_from(es, i as int)),
            decreases es.len() - i,
        {
            proof {
                lemma_chunk_until(es, i as int);
            }
            let ghost u = used + wf - weight_from(es, i as int);
            let ghost ww = w - wf + weight_from(es, i as int);
            match &elements[i] {
                IRElement::Text(text) => {
                    let tv = chars_of(text.as_str());
                    self.print_text(tv.as_slice(), Ghost(lim), Ghost(u), Ghost(ww));
                },
                IRElement::SoftLineBreak => match mode {
                    PrintMode::Flat => self.print_space(Ghost(lim), Ghost(u), Ghost(ww)),
                    PrintMode::Break => self.print_hard_line_break(indent, Ghost(lim), Ghost(u), Ghost(ww)),
                },
                IRElement::SoftLineBreakWithContinuation => match mode {
                    PrintMode::Flat => self.print_space(Ghost(lim), Ghost(u), Ghost(ww)),
                    PrintMode::Break => self.print_continuation_break(indent, Ghost(lim), Ghost(u), Ghost(ww)),
                },
                IRElement::SoftestLineBreak => match mode {
                    PrintMode::Flat => {},
                    PrintMode::Break => self.print_hard_line_break(indent, Ghost(lim), Ghost(u), Ghost(ww)),
                },
                IRElement::HardLineBreak => {
                    self.print_hard_line_break(indent, Ghost(lim), Ghost(u), Ghost(ww));
                },
                IRElement::Indent(children) => {
                    proof {
                        lemma_measures(children@, 0);
                    }
                    if self.pending_indent.is_some() {
                        self.pending_indent = Some(indent + 1);
                    }
                    self.print_elems(children.as_slice(), mode, indent + 1, Ghost(lim), Ghost(u), Ghost(ww));
                },
                IRElement::Group(children) => {
                    if self.group_fits(children.as_slice(), indent) {
                        self.print_elems(children.as_slice(), PrintMode::Flat, indent, Ghost(lim), Ghost(u), Ghost(ww));
                    } else {
                        self.print_fill(children.as_slice(), indent, Ghost(lim), Ghost(u), Ghost(ww));
                    }
                },
                IRElement::Comment { text, is_doc } => {
                    self.print_comment(text, *is_doc, indent, Ghost(lim), Ghost(u), Ghost(ww));
                },
            }
            i = i + 1;
        }
    }

    /// Prints IR elements to a formatted string that ends with a newline.
    pub fn print(&mut self, ir: &[IRElement]) -> (r: String)
        requires
            depth_from(ir@, 0) < usize::MAX,
            depth_from(ir@, 0) * old(self).step() + weight_from(ir@, 0) + old(self).width() + 16
                <= usize::MAX,
        ensures
            r@ == render(old(self).width(), old(self).step(), ir@),
            final(self).output() == r@,
            final(self).width() == old(self).width(),
            final(self).step() == old(self).step(),
    {
        self.buffer = Vec::new();
        self.current_col = 0;
        self.pending_indent = None;
        proof {
            lemma_measures(ir@, 0);
        }
        assert(self.state() == start_state());
        self.print_elems(
            ir,
            PrintMode::Break,
            0,
            Ghost(depth_from(ir@, 0)),
            Ghost(0),
            Ghost(weight_from(ir@, 0)),
        );
        if !(self.buffer.len() > 0 && self.buffer[self.buffer.len() - 1] == '\n') {
            self.buffer.push('\n');
        }
        string_from(self.buffer.as_slice())
    }
}

} // verus!
