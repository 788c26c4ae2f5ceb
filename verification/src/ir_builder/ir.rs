//! The intermediate representation that the printer lays out.
use vstd::prelude::*;

verus! {

/// Layout elements: text with break opportunities, groups and indentation.
#[derive(Debug, PartialEq)]
pub enum IRElement {
    /// Raw text content, written as-is.
    Text(String),
    /// Unconditional line break.
    HardLineBreak,
    /// A space when its group stays on one line, else a line break.
    SoftLineBreak,
    /// Nothing when its group stays on one line, else a line break.
    SoftestLineBreak,
    /// A space when its group stays on one line, else a line break followed
    /// by two extra spaces of continuation indentation.
    SoftLineBreakWithContinuation,
    /// Elements kept on one line if they fit, else filled greedily.
    Group(Vec<IRElement>),
    /// Elements whose line breaks are indented one more level.
    Indent(Vec<IRElement>),
    /// A comment whose form (line or block) the printer chooses.
    Comment { text: String, is_doc: bool },
}

impl IRElement {
    /// A text element.
    pub fn text(s: &str) -> (r: Self)
        ensures
            r matches IRElement::Text(t) && t@ == s@,
    {
        IRElement::Text(s.to_owned())
    }

    /// A group of elements.
    pub fn group(elements: Vec<IRElement>) -> (r: Self)
        ensures
            r == IRElement::Group(elements),
    {
        IRElement::Group(elements)
    }

    /// An indentation block.
    pub fn indent(elements: Vec<IRElement>) -> (r: Self)
        ensures
            r == IRElement::Indent(elements),
    {
        IRElement::Indent(elements)
    }

    /// A soft line break (a space when its group stays on one line).
    pub fn soft_break() -> (r: Self)
        ensures
            r == IRElement::SoftLineBreak,
    {
        IRElement::SoftLineBreak
    }

    /// A softest line break (nothing when its group stays on one line).
    pub fn softest_break() -> (r: Self)
        ensures
            r == IRElement::SoftestLineBreak,
    {
        IRElement::SoftestLineBreak
    }

    /// A hard line break.
    pub fn hard_break() -> (r: Self)
        ensures
            r == IRElement::HardLineBreak,
    {
        IRElement::HardLineBreak
    }

    /// A comment element.
    pub fn comment(text: &str, is_doc: bool) -> (r: Self)
        ensures
            r matches IRElement::Comment { text: t, is_doc: d } && t@ == text@ && d == is_doc,
    {
        IRElement::Comment { text: text.to_owned(), is_doc }
    }
}

/// The mathematical model of IR: elements with their text as character
/// sequences.
pub enum Doc {
    Text(Seq<char>),
    Hard,
    Soft,
    Softest,
    SoftCont,
    Group(Seq<Doc>),
    Indent(Seq<Doc>),
    Comment(Seq<char>, bool),
}

/// Whether the element `e` is modelled by `d`.
pub open spec fn doc_match(e: IRElement, d: Doc) -> bool
    decreases e, 0int,
{
    match (e, d) {
        (IRElement::Text(t), Doc::Text(x)) => t@ == x,
        (IRElement::HardLineBreak, Doc::Hard) => true,
        (IRElement::SoftLineBreak, Doc::Soft) => true,
        (IRElement::SoftestLineBreak, Doc::Softest) => true,
        (IRElement::SoftLineBreakWithContinuation, Doc::SoftCont) => true,
        (IRElement::Group(ch), Doc::Group(x)) => docs_from(ch@, x, 0),
        (IRElement::Indent(ch), Doc::Indent(x)) => docs_from(ch@, x, 0),
        (IRElement::Comment { text, is_doc }, Doc::Comment(x, b)) => text@ == x && is_doc == b,
        _ => false,
    }
}

/// Whether `es[i..]` is modelled by `ds[i..]`, element by element.
pub open spec fn docs_from(es: Seq<IRElement>, ds: Seq<Doc>, i: int) -> bool
    decreases es, es.len() - i,
{
    if i < 0 || es.len() != ds.len() {
        false
    } else if i >= es.len() {
        true
    } else {
        doc_match(es[i], ds[i]) && docs_from(es, ds, i + 1)
    }
}

/// Whether the elements `es` are modelled by `ds`.
pub open spec fn docs(es: Seq<IRElement>, ds: Seq<Doc>) -> bool {
    docs_from(es, ds, 0)
}

/// `docs` holds exactly when the lengths agree and each element matches.
pub proof fn lemma_docs(es: Seq<IRElement>, ds: Seq<Doc>)
    ensures
        docs(es, ds) <==> (es.len() == ds.len() && forall|j: int|
            0 <= j < es.len() ==> #[trigger] doc_match(es[j], ds[j])),
{
    lemma_docs_from(es, ds, 0);
}

proof fn lemma_docs_from(es: Seq<IRElement>, ds: Seq<Doc>, i: int)
    requires
        0 <= i,
    ensures
        docs_from(es, ds, i) <==> (es.len() == ds.len() && forall|j: int|
            i <= j < es.len() ==> #[trigger] doc_match(es[j], ds[j])),
    decreases es.len() - i,
{
    if i < es.len() {
        lemma_docs_from(es, ds, i + 1);
        if es.len() == ds.len() {
            if docs_from(es, ds, i) {
                assert forall|j: int| i <= j < es.len() implies #[trigger] doc_match(es[j], ds[j]) by {
                    if j > i {
                        assert(i + 1 <= j < es.len());
                    }
                }
            }
            if forall|j: int| i <= j < es.len() ==> #[trigger] doc_match(es[j], ds[j]) {
                assert(doc_match(es[i], ds[i]));
            }
        }
    }
}

/// The model of an element.
pub open spec fn doc_of(e: IRElement) -> Doc
    decreases e, 0int,
{
    match e {
        IRElement::Text(t) => Doc::Text(t@),
        IRElement::HardLineBreak => Doc::Hard,
        IRElement::SoftLineBreak => Doc::Soft,
        IRElement::SoftestLineBreak => Doc::Softest,
        IRElement::SoftLineBreakWithContinuation => Doc::SoftCont,
        IRElement::Group(ch) => Doc::Group(docs_of_from(ch@, 0)),
        IRElement::Indent(ch) => Doc::Indent(docs_of_from(ch@, 0)),
        IRElement::Comment { text, is_doc } => Doc::Comment(text@, is_doc),
    }
}

/// The models of `es[i..]`.
pub open spec fn docs_of_from(es: Seq<IRElement>, i: int) -> Seq<Doc>
    decreases es, es.len() - i,
{
    if i < 0 || i >= es.len() {
        Seq::empty()
    } else {
        seq![doc_of(es[i])] + docs_of_from(es, i + 1)
    }
}

/// The models of the elements.
pub open spec fn docs_of(es: Seq<IRElement>) -> Seq<Doc> {
    docs_of_from(es, 0)
}

proof fn lemma_docs_of_from(es: Seq<IRElement>, i: int)
    requires
        0 <= i <= es.len(),
    ensures
        docs_of_from(es, i).len() == es.len() - i,
        forall|j: int| i <= j < es.len() ==> #[trigger] docs_of_from(es, i)[j - i] == doc_of(es[j]),
    decreases es.len() - i,
{
    if i < es.len() {
        lemma_docs_of_from(es, i + 1);
        assert forall|j: int| i <= j < es.len() implies #[trigger] docs_of_from(es, i)[j - i] == doc_of(
            es[j],
        ) by {
            if j > i {
                assert(docs_of_from(es, i)[j - i] == docs_of_from(es, i + 1)[j - (i + 1)]);
            }
        }
    }
}

/// Every element list is modelled by its models.
pub proof fn lemma_docs_of(es: Seq<IRElement>)
    ensures
        docs(es, docs_of(es)),
    decreases es, 1int,
{
    lemma_docs_of_from(es, 0);
    assert forall|j: int| 0 <= j < es.len() implies #[trigger] doc_match(es[j], docs_of(es)[j]) by {
        assert(docs_of(es)[j] == docs_of_from(es, 0)[j - 0]);
        lemma_doc_of(es[j]);
    }
    lemma_docs(es, docs_of(es));
}

/// Every element is modelled by its model.
pub proof fn lemma_doc_of(e: IRElement)
    ensures
        doc_match(e, doc_of(e)),
    decreases e, 0int,
{
    match e {
        IRElement::Group(ch) => lemma_docs_of(ch@),
        IRElement::Indent(ch) => lemma_docs_of(ch@),
        _ => {},
    }
}

/// Width of the `//` or `///` prefix of a line comment.
pub open spec fn comment_prefix_len(is_doc: bool) -> int {
    if is_doc {
        3
    } else {
        2
    }
}

/// Width of `es[i..]` laid out on one line (soft breaks as one space,
/// softest and hard breaks as nothing, comments as `// text`).
pub open spec fn flat_from(es: Seq<IRElement>, i: int) -> int
    decreases es, es.len() - i,
{
    if i < 0 || i >= es.len() {
        0
    } else {
        let w = match es[i] {
            IRElement::Text(t) => t@.len() as int,
            IRElement::SoftLineBreak => 1,
            IRElement::SoftLineBreakWithContinuation => 1,
            IRElement::SoftestLineBreak => 0,
            IRElement::HardLineBreak => 0,
            IRElement::Group(ch) => flat_from(ch@, 0),
            IRElement::Indent(ch) => flat_from(ch@, 0),
            IRElement::Comment { text, is_doc } => comment_prefix_len(is_doc) + 1 + text@.len(),
        };
        w + flat_from(es, i + 1)
    }
}

/// Whether `es[i..]` holds a hard line break, at any depth.
pub open spec fn hard_from(es: Seq<IRElement>, i: int) -> bool
    decreases es, es.len() - i,
{
    if i < 0 || i >= es.len() {
        false
    } else {
        let h = match es[i] {
            IRElement::HardLineBreak => true,
            IRElement::Group(ch) => hard_from(ch@, 0),
            IRElement::Indent(ch) => hard_from(ch@, 0),
            _ => false,
        };
        h || hard_from(es, i + 1)
    }
}


/// How far `es[i..]` can raise the indentation level: one per `Indent`,
/// one for a comment's block body.
pub open spec fn depth_from(es: Seq<IRElement>, i: int) -> int
    decreases es, es.len() - i,
{
    if i < 0 || i >= es.len() {
        0
    } else {
        let d = match es[i] {
            IRElement::Group(ch) => depth_from(ch@, 0),
            IRElement::Indent(ch) => 1 + depth_from(ch@, 0),
            IRElement::Comment { .. } => 1,
            _ => 0,
        };
        let r = depth_from(es, i + 1);
        if d > r {
            d
        } else {
            r
        }
    }
}

/// An upper bound on how many columns `es[i..]` can add to a line.
pub open spec fn weight_from(es: Seq<IRElement>, i: int) -> int
    decreases es, es.len() - i,
{
    if i < 0 || i >= es.len() {
        0
    } else {
        let w = match es[i] {
            IRElement::Text(t) => t@.len() as int,
            IRElement::SoftLineBreak => 1,
            IRElement::SoftLineBreakWithContinuation => 2,
            IRElement::SoftestLineBreak => 0,
            IRElement::HardLineBreak => 0,
            IRElement::Group(ch) => weight_from(ch@, 0),
            IRElement::Indent(ch) => weight_from(ch@, 0),
            IRElement::Comment { text, .. } => 8 * (text@.len() as int) + 16,
        };
        w + weight_from(es, i + 1)
    }
}

/// Depth and weight are never negative; a flat width never exceeds the weight.
pub proof fn lemma_measures(es: Seq<IRElement>, i: int)
    ensures
        0 <= depth_from(es, i),
        0 <= flat_from(es, i) <= weight_from(es, i),
    decreases es, es.len() - i,
{
    if 0 <= i < es.len() {
        lemma_measures(es, i + 1);
        match es[i] {
            IRElement::Group(ch) => lemma_measures(ch@, 0),
            IRElement::Indent(ch) => lemma_measures(ch@, 0),
            _ => {},
        }
    }
}

} // verus!
