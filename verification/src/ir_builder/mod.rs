//! Building IR: layout elements, comments and document structure.
use vstd::prelude::*;
use crate::ir_builder::comments::{
    build_comment, comment_doc, comments_ok, import_section, is_import_section_comment,
    is_spdx_comment, spdx, with_comments_docs_ns,
};
use crate::ir_builder::ir::{doc_match, docs, docs_of, lemma_docs, lemma_docs_of, Doc, IRElement};
use crate::ir_builder::licensing::{generate_spdx_header, LICENSE};
use crate::ir_builder::ordering::{
    get_import_group, group_of, import_text, law_order_contracts, order_collected_elements, ordered_contracts,
    ordered_imports, ordered_pragmas, ImportGroup,
};
use crate::ir_builder::toplevel::{
    build_import_ir, build_pragma_ir, build_type_definition_ir, build_using_directive_ir, import_inner_docs,
    pragma_body_docs, type_definition_docs, using_docs,
};
use crate::ir_builder::comments::with_comments_docs;
use crate::ast::CollectedFunction;
use crate::FormatConfig;
use crate::printer::{measure, render, Printer};
use crate::ir_builder::ir::{depth_from, weight_from};
use crate::ir_builder::function_ir::{build_function_ir, function_item_docs, fns_ok};
use crate::ir_builder::function_definition::fn_ok;
use crate::ir_builder::contracts::{build_contract_ir, contents_ok, contract_ir_docs, vars_ok};
use crate::ir_builder::types::{
    build_enum_ir, build_error_ir, build_struct_ir, enum_ir_docs, error_ir_docs, struct_ir_docs,
};
use crate::ir_builder::variables::{build_variable_definition_ir, var_comments_ok, var_decl_docs, var_doc_docs};
use crate::model::{
    comment_text, CollectedContract, CollectedElements, CollectedEnum, CollectedError, CollectedStruct, Comment,
    CommentedElement, Import, PragmaDirective, TypeDefinition, Using, VariableDefinition,
};
use crate::text::{chars_of, split_words, string_from, views, words};

pub mod comments;
pub mod constants;
pub mod contracts;
pub mod expressions;
pub mod function_definition;
pub mod function_ir;
pub mod functions;
pub mod ir;
pub mod licensing;
pub mod ordering;
pub mod toplevel;
pub mod statements;
pub mod types;
pub mod usages;
pub mod variables;
pub mod yul;

verus! {

/// Appending matching elements keeps the model.
pub proof fn lemma_docs_push(es: Seq<IRElement>, ds: Seq<Doc>, e: IRElement, d: Doc)
    requires
        docs(es, ds),
        doc_match(e, d),
    ensures
        docs(es.push(e), ds.push(d)),
{
    lemma_docs(es, ds);
    lemma_docs(es.push(e), ds.push(d));
    assert forall|j: int| 0 <= j < es.push(e).len() implies #[trigger] doc_match(
        es.push(e)[j],
        ds.push(d)[j],
    ) by {
        if j < es.len() {
            assert(es.push(e)[j] == es[j]);
            assert(ds.push(d)[j] == ds[j]);
        }
    }
}

/// Concatenations of modelled elements are modelled by the concatenation.
pub proof fn lemma_docs_append(a: Seq<IRElement>, da: Seq<Doc>, b: Seq<IRElement>, db: Seq<Doc>)
    requires
        docs(a, da),
        docs(b, db),
    ensures
        docs(a + b, da + db),
{
    lemma_docs(a, da);
    lemma_docs(b, db);
    lemma_docs(a + b, da + db);
    assert forall|j: int| 0 <= j < (a + b).len() implies #[trigger] doc_match((a + b)[j], (da + db)[j]) by {
        if j < a.len() {
            assert((a + b)[j] == a[j]);
            assert((da + db)[j] == da[j]);
        } else {
            assert((a + b)[j] == b[j - a.len()]);
            assert((da + db)[j] == db[j - a.len()]);
        }
    }
}

/// Dropping the last element keeps the model.
pub proof fn lemma_docs_drop_last(a: Seq<IRElement>, da: Seq<Doc>)
    requires
        docs(a, da),
        a.len() > 0,
    ensures
        docs(a.drop_last(), da.drop_last()),
{
    lemma_docs(a, da);
    lemma_docs(a.drop_last(), da.drop_last());
    assert forall|j: int| 0 <= j < a.drop_last().len() implies #[trigger] doc_match(
        a.drop_last()[j],
        da.drop_last()[j],
    ) by {
        assert(a.drop_last()[j] == a[j]);
        assert(da.drop_last()[j] == da[j]);
    }
}

/// Words separated by soft line breaks.
pub open spec fn word_break_docs(ws: Seq<Seq<char>>) -> Seq<Doc>
    decreases ws.len(),
{
    if ws.len() == 0 {
        Seq::empty()
    } else if ws.len() == 1 {
        seq![Doc::Text(ws[0])]
    } else {
        word_break_docs(ws.drop_last()).push(Doc::Soft).push(Doc::Text(ws.last()))
    }
}

/// Text elements for the words of `s`, with a soft line break between
/// each pair of words.
pub fn text_with_word_breaks(s: &str) -> (r: Vec<IRElement>)
    ensures
        docs(r@, word_break_docs(words(s@))),
{
    let sv = chars_of(s);
    let ws = split_words(sv.as_slice());
    let mut result: Vec<IRElement> = Vec::new();
    let mut i: usize = 0;
    proof {
        lemma_docs(result@, Seq::empty());
        assert(views(ws@).take(0) =~= Seq::<Seq<char>>::empty());
    }
    while i < ws.len()
        invariant
            i <= ws@.len(),
            views(ws@) == words(s@),
            docs(result@, word_break_docs(views(ws@).take(i as int))),
        decreases ws@.len() - i,
    {
        let ghost before = result@;
        let ghost wv = views(ws@).take(i as int);
        assert(views(ws@).take(i + 1).drop_last() =~= wv);
        assert(views(ws@)[i as int] == ws@[i as int]@);
        if i > 0 {
            result.push(IRElement::SoftLineBreak);
            proof {
                lemma_docs_push(before, word_break_docs(wv), IRElement::SoftLineBreak, Doc::Soft);
            }
        }
        let ghost mid = result@;
        let w = string_from(ws[i].as_slice());
        let e = IRElement::Text(w);
        proof {
            if i > 0 {
                lemma_docs_push(mid, word_break_docs(wv).push(Doc::Soft), e, Doc::Text(ws@[i as int]@));
            } else {
                assert(wv =~= Seq::<Seq<char>>::empty());
                lemma_docs_push(mid, word_break_docs(wv), e, Doc::Text(ws@[i as int]@));
                assert(word_break_docs(wv).push(Doc::Text(ws@[i as int]@)) =~= word_break_docs(
                    views(ws@).take(1),
                ));
            }
        }
        result.push(e);
        i = i + 1;
    }
    assert(views(ws@).take(ws@.len() as int) =~= views(ws@));
    result
}

/// Which kinds of top-level elements a source unit has.
#[derive(Debug, Clone, Copy, PartialEq, Eq, Structural)]
pub struct Presence {
    /// Pragma directives.
    pub pragmas: bool,
    /// Imports.
    pub imports: bool,
    /// `using` directives.
    pub using_directives: bool,
    /// User-defined value types.
    pub types: bool,
    /// Enums.
    pub enums: bool,
    /// Structs.
    pub structs: bool,
    /// Errors.
    pub errors: bool,
    /// Constants.
    pub variables: bool,
    /// Free functions.
    pub functions: bool,
    /// Contracts.
    pub contracts: bool,
}

/// The kinds of top-level elements that follow pragmas, imports and `using`
/// directives, in printing order.
#[derive(Debug, Clone, Copy, PartialEq, Eq, Structural)]
pub enum ElementType {
    /// User-defined value types.
    Type,
    /// Enums.
    Enum,
    /// Structs.
    Struct,
    /// Errors.
    Error,
    /// Constants.
    Variable,
    /// Free functions.
    Function,
    /// Contracts.
    Contract,
}

/// Which kinds of elements are present, from the lists that will be printed.
pub open spec fn presence_of(
    ps: Seq<CommentedElement<PragmaDirective>>,
    is: Seq<CommentedElement<Import>>,
    cs: Seq<CollectedContract>,
    e: CollectedElements,
) -> Presence {
    Presence {
        pragmas: ps.len() > 0,
        imports: is.len() > 0,
        using_directives: e.using_directives@.len() > 0,
        types: e.types@.len() > 0,
        enums: e.enums@.len() > 0,
        structs: e.structs@.len() > 0,
        errors: e.errors@.len() > 0,
        variables: e.variables@.len() > 0,
        functions: e.functions@.len() > 0,
        contracts: cs.len() > 0,
    }
}

/// Some element other than a pragma is present.
pub open spec fn other_elements(p: Presence) -> bool {
    p.imports || p.using_directives || p.types || p.enums || p.structs || p.errors || p.variables
        || p.functions || p.contracts
}

/// Some element printed after the imports is present.
pub open spec fn after_imports(p: Presence) -> bool {
    p.using_directives || p.types || p.enums || p.structs || p.errors || p.variables || p.functions
        || p.contracts
}

/// Some element printed after the `using` directives is present.
pub open spec fn after_using(p: Presence) -> bool {
    p.types || p.enums || p.structs || p.errors || p.variables || p.functions || p.contracts
}

/// Whether the `i`-th element of its kind is preceded by a blank line: every
/// element but the first of its kind is; the first is when an element of an
/// earlier kind (types and later) was printed, and the first type also after
/// pragmas, imports or `using` directives.
pub open spec fn blank_before(p: Presence, ty: ElementType, i: int) -> bool {
    if i == 0 {
        match ty {
            ElementType::Type => p.pragmas || p.imports || p.using_directives,
            ElementType::Enum => p.types,
            ElementType::Struct => p.types || p.enums,
            ElementType::Error => p.types || p.enums || p.structs,
            ElementType::Variable => p.types || p.enums || p.structs || p.errors,
            ElementType::Function => p.types || p.enums || p.structs || p.errors || p.variables,
            ElementType::Contract => p.types || p.enums || p.structs || p.errors || p.variables
                || p.functions,
        }
    } else {
        true
    }
}

/// Whether something that counts for spacing precedes the `i`-th element of
/// its kind.
pub open spec fn any_before(p: Presence, ty: ElementType, i: int) -> bool {
    i > 0 || match ty {
        ElementType::Type => p.pragmas || p.imports || p.using_directives,
        ElementType::Enum => p.types,
        ElementType::Struct => p.types || p.enums,
        ElementType::Error => p.types || p.enums || p.structs,
        ElementType::Variable => p.types || p.enums || p.structs || p.errors,
        ElementType::Function => p.types || p.enums || p.structs || p.errors || p.variables,
        ElementType::Contract => p.types || p.enums || p.structs || p.errors || p.variables
            || p.functions,
    }
}

/// Whether the `i`-th element of its kind starts on a new line without a
/// blank line before it.
pub open spec fn newline_before(p: Presence, ty: ElementType, i: int) -> bool {
    !blank_before(p, ty, i) && any_before(p, ty, i)
}

/// The kinds of elements present.
pub fn presence(e: &CollectedElements) -> (p: Presence)
    ensures
        p == presence_of(e.pragmas@, e.imports@, e.contracts@, *e),
{
    Presence {
        pragmas: e.pragmas.len() > 0,
        imports: e.imports.len() > 0,
        using_directives: e.using_directives.len() > 0,
        types: e.types.len() > 0,
        enums: e.enums.len() > 0,
        structs: e.structs.len() > 0,
        errors: e.errors.len() > 0,
        variables: e.variables.len() > 0,
        functions: e.functions.len() > 0,
        contracts: e.contracts.len() > 0,
    }
}

/// Whether an element other than a pragma is present.
pub fn has_other_elements(p: &Presence) -> (b: bool)
    ensures
        b == other_elements(*p),
{
    p.imports || p.using_directives || p.types || p.enums || p.structs || p.errors || p.variables
        || p.functions || p.contracts
}

/// Whether an element printed after the imports is present.
pub fn has_elements_after_imports(p: &Presence) -> (b: bool)
    ensures
        b == after_imports(*p),
{
    p.using_directives || p.types || p.enums || p.structs || p.errors || p.variables || p.functions
        || p.contracts
}

/// Whether an element printed after the `using` directives is present.
pub fn has_elements_after_using(p: &Presence) -> (b: bool)
    ensures
        b == after_using(*p),
{
    p.types || p.enums || p.structs || p.errors || p.variables || p.functions || p.contracts
}

/// Whether anything is printed before the structs.
pub fn has_preceding_elements_struct(p: &Presence) -> (b: bool)
    ensures
        b == (p.pragmas || p.imports || p.using_directives || p.types || p.enums),
{
    p.pragmas || p.imports || p.using_directives || p.types || p.enums
}

/// Whether anything is printed before the errors.
pub fn has_preceding_elements_error(p: &Presence) -> (b: bool)
    ensures
        b == (p.pragmas || p.imports || p.using_directives || p.types || p.enums || p.structs),
{
    p.pragmas || p.imports || p.using_directives || p.types || p.enums || p.structs
}

/// Whether anything is printed before the constants.
pub fn has_preceding_elements_variable(p: &Presence) -> (b: bool)
    ensures
        b == (p.pragmas || p.imports || p.using_directives || p.types || p.enums || p.structs
            || p.errors),
{
    p.pragmas || p.imports || p.using_directives || p.types || p.enums || p.structs || p.errors
}

/// Whether anything is printed before the free functions.
pub fn has_preceding_elements_function(p: &Presence) -> (b: bool)
    ensures
        b == (p.pragmas || p.imports || p.using_directives || p.types || p.enums || p.structs
            || p.errors || p.variables),
{
    p.pragmas || p.imports || p.using_directives || p.types || p.enums || p.structs || p.errors
        || p.variables
}

/// Whether the `index`-th element of its kind needs a blank line before it.
pub fn needs_preceding_blank_line(p: &Presence, element_type: ElementType, index: usize) -> (b:
    bool)
    ensures
        b == blank_before(*p, element_type, index as int),
{
    if index == 0 {
        match element_type {
            ElementType::Type => p.pragmas || p.imports || p.using_directives,
            ElementType::Enum => p.types,
            ElementType::Struct => p.types || p.enums,
            ElementType::Error => p.types || p.enums || p.structs,
            ElementType::Variable => p.types || p.enums || p.structs || p.errors,
            ElementType::Function => p.types || p.enums || p.structs || p.errors || p.variables,
            ElementType::Contract => p.types || p.enums || p.structs || p.errors || p.variables
                || p.functions,
        }
    } else {
        true
    }
}

/// Whether something that counts for spacing precedes the `index`-th element
/// of its kind.
pub fn has_any_preceding_element(p: &Presence, element_type: ElementType, index: usize) -> (b:
    bool)
    ensures
        b == any_before(*p, element_type, index as int),
{
    index > 0 || match element_type {
        ElementType::Type => p.pragmas || p.imports || p.using_directives,
        ElementType::Enum => p.types,
        ElementType::Struct => p.types || p.enums,
        ElementType::Error => p.types || p.enums || p.structs,
        ElementType::Variable => p.types || p.enums || p.structs || p.errors,
        ElementType::Function => p.types || p.enums || p.structs || p.errors || p.variables,
        ElementType::Contract => p.types || p.enums || p.structs || p.errors || p.variables
            || p.functions,
    }
}

/// Whether the `index`-th element of its kind needs a line break (and no
/// blank line) before it.
pub fn needs_preceding_newline(p: &Presence, element_type: ElementType, index: usize) -> (b: bool)
    ensures
        b == newline_before(*p, element_type, index as int),
{
    !needs_preceding_blank_line(p, element_type, index) && has_any_preceding_element(
        p,
        element_type,
        index,
    )
}

/// The line breaks before the `i`-th element of its kind.
pub open spec fn gap_docs(p: Presence, ty: ElementType, i: int) -> Seq<Doc> {
    if blank_before(p, ty, i) {
        seq![Doc::Hard, Doc::Hard]
    } else if newline_before(p, ty, i) {
        seq![Doc::Hard]
    } else {
        Seq::empty()
    }
}

/// The elements of one kind, given by their IR models, each after its line
/// breaks.
pub open spec fn section_docs(p: Presence, ty: ElementType, items: Seq<Seq<Doc>>) -> Seq<Doc>
    decreases items.len(),
{
    if items.len() == 0 {
        Seq::empty()
    } else {
        section_docs(p, ty, items.drop_last()) + gap_docs(p, ty, items.len() - 1) + items.last()
    }
}

/// The contracts, each after its line breaks.
pub open spec fn contract_section_docs(p: Presence, cs: Seq<CollectedContract>) -> Seq<Doc>
    decreases cs.len(),
{
    if cs.len() == 0 {
        Seq::empty()
    } else {
        contract_section_docs(p, cs.drop_last()) + gap_docs(p, ElementType::Contract, cs.len() - 1)
            + contract_ir_docs(cs.last())
    }
}

/// The pragmas, one per line, each with its comments.
pub open spec fn pragma_section_docs(ps: Seq<CommentedElement<PragmaDirective>>) -> Seq<Doc>
    decreases ps.len(),
{
    if ps.len() == 0 {
        Seq::empty()
    } else {
        pragma_section_docs(ps.drop_last()) + (if ps.len() > 1 {
            seq![Doc::Hard]
        } else {
            Seq::empty()
        }) + with_comments_docs_ns(ps.last().leading_comments@, ps.last().trailing_comments@)
            + pragma_body_docs(ps.last().element)
    }
}

/// The imports, one per line, with a blank line where the group changes.
pub open spec fn import_section_docs(is: Seq<CommentedElement<Import>>) -> Seq<Doc>
    decreases is.len(),
{
    if is.len() == 0 {
        Seq::empty()
    } else {
        let n = is.len() as int;
        import_section_docs(is.drop_last()) + (if n > 1 {
            if group_of(import_text(is[n - 2].element)) != group_of(import_text(is[n - 1].element)) {
                seq![Doc::Hard, Doc::Hard]
            } else {
                seq![Doc::Hard]
            }
        } else {
            Seq::empty()
        }) + seq![Doc::Group(import_inner_docs(is.last().element))]
    }
}

/// The `using` directives, given by their IR models, each on a new line
/// unless it is the very first element after the header.
pub open spec fn using_section_docs(p: Presence, us: Seq<Seq<Doc>>) -> Seq<Doc>
    decreases us.len(),
{
    if us.len() == 0 {
        Seq::empty()
    } else {
        using_section_docs(p, us.drop_last()) + (if us.len() > 1 || p.pragmas || p.imports {
            seq![Doc::Hard]
        } else {
            Seq::empty()
        }) + us.last()
    }
}

/// The IR model of a `using` directive with its comments.
pub open spec fn using_item_docs(u: CommentedElement<Using>) -> Seq<Doc> {
    with_comments_docs(u.leading_comments@, u.trailing_comments@) + using_docs(u.element)
}

/// The IR model of a user-defined value type with its comments.
pub open spec fn type_item_docs(t: CommentedElement<TypeDefinition>) -> Seq<Doc> {
    with_comments_docs(t.leading_comments@, t.trailing_comments@) + type_definition_docs(t.element)
}

/// The IR model of a state variable or constant with its comments.
pub open spec fn var_item_docs(v: CommentedElement<VariableDefinition>) -> Seq<Doc> {
    var_doc_docs(v) + var_decl_docs(v.element)
}

/// Every contract's state variables can be laid out.
pub open spec fn contracts_ok(cs: Seq<CollectedContract>) -> bool {
    forall|i: int| 0 <= i < cs.len() ==> contents_ok(#[trigger] cs[i].contents)
}

/// The standalone comments at the end, each on its own line; SPDX and import
/// section comments are left out.
pub open spec fn standalone_docs(cs: Seq<Comment>) -> Seq<Doc>
    decreases cs.len(),
{
    if cs.len() == 0 {
        Seq::empty()
    } else {
        standalone_docs(cs.drop_last()) + (if !spdx(cs.last()) && !import_section(cs.last()) {
            seq![Doc::Hard, comment_doc(cs.last(), false)]
        } else {
            Seq::empty()
        })
    }
}

/// The SPDX header line.
pub open spec fn spdx_header_text() -> Seq<char> {
    "// SPDX-License-Identifier: "@ + LICENSE@
}

/// Two line breaks when `b` holds.
pub open spec fn blank_if(b: bool) -> Seq<Doc> {
    if b {
        seq![Doc::Hard, Doc::Hard]
    } else {
        Seq::empty()
    }
}

/// The IR of a whole source unit whose pragmas, imports and contracts are
/// `ps`, `is` and `cs` (in printing order) and whose other elements are those
/// of `e`: the SPDX header, pragmas, imports, `using` directives, types,
/// enums, structs, errors, constants, functions and contracts, then the
/// standalone comments.
pub open spec fn layout_docs(
    ps: Seq<CommentedElement<PragmaDirective>>,
    is: Seq<CommentedElement<Import>>,
    cs: Seq<CollectedContract>,
    e: CollectedElements,
) -> Seq<Doc> {
    let p = presence_of(ps, is, cs, e);
    seq![Doc::Text(spdx_header_text())] + (if other_elements(p) || p.pragmas {
        seq![Doc::Hard]
    } else {
        Seq::empty()
    }) + pragma_section_docs(ps) + blank_if(p.pragmas && other_elements(p)) + import_section_docs(
        is,
    ) + blank_if(p.imports && after_imports(p)) + using_section_docs(
        p,
        e.using_directives@.map_values(|u: CommentedElement<Using>| using_item_docs(u)),
    ) + blank_if(p.using_directives && after_using(p)) + section_docs(
        p,
        ElementType::Type,
        e.types@.map_values(|t: CommentedElement<TypeDefinition>| type_item_docs(t)),
    ) + section_docs(p, ElementType::Enum, e.enums@.map_values(|x: CollectedEnum| enum_ir_docs(x)))
        + section_docs(p, ElementType::Struct, e.structs@.map_values(|x: CollectedStruct| struct_ir_docs(x)))
        + section_docs(p, ElementType::Error, e.errors@.map_values(|x: CollectedError| error_ir_docs(x)))
        + section_docs(
        p,
        ElementType::Variable,
        e.variables@.map_values(|v: CommentedElement<VariableDefinition>| var_item_docs(v)),
    ) + section_docs(p, ElementType::Function, e.functions@.map_values(|f: CollectedFunction| function_item_docs(f)))
        + contract_section_docs(p, cs) + standalone_docs(e.standalone_comments@)
}

/// The comments that the layout reads have removable delimiters.
pub open spec fn layout_ok(ps: Seq<CommentedElement<PragmaDirective>>, standalone: Seq<Comment>) -> bool {
    pragmas_ok(ps) && comments_ok(standalone)
}

/// The comments of every pragma have removable delimiters.
pub open spec fn pragmas_ok(ps: Seq<CommentedElement<PragmaDirective>>) -> bool {
    forall|i: int|
        0 <= i < ps.len() ==> comments_ok(#[trigger] ps[i].leading_comments@) && comments_ok(
            ps[i].trailing_comments@,
        )
}

/// Appends a hard line break.
fn push_hard(ir: &mut Vec<IRElement>, Ghost(ds): Ghost<Seq<Doc>>)
    requires
        docs(old(ir)@, ds),
    ensures
        docs(final(ir)@, ds.push(Doc::Hard)),
{
    proof {
        lemma_docs_push(ir@, ds, IRElement::HardLineBreak, Doc::Hard);
    }
    ir.push(IRElement::HardLineBreak);
}

/// Appends two hard line breaks when `b` holds.
fn push_blank_if(ir: &mut Vec<IRElement>, b: bool, Ghost(ds): Ghost<Seq<Doc>>)
    requires
        docs(old(ir)@, ds),
    ensures
        docs(final(ir)@, ds + blank_if(b)),
{
    if b {
        push_hard(ir, Ghost(ds));
        push_hard(ir, Ghost(ds.push(Doc::Hard)));
        assert(ds.push(Doc::Hard).push(Doc::Hard) =~= ds + blank_if(b));
    } else {
        assert(ds =~= ds + blank_if(b));
    }
}

/// Appends elements whose model is their own.
fn push_all_elements(ir: &mut Vec<IRElement>, item: Vec<IRElement>, Ghost(ds): Ghost<Seq<Doc>>)
    requires
        docs(old(ir)@, ds),
    ensures
        docs(final(ir)@, ds + docs_of(item@)),
{
    let mut item = item;
    proof {
        lemma_docs_of(item@);
        lemma_docs_append(ir@, ds, item@, docs_of(item@));
    }
    ir.append(&mut item);
}

/// Appends the line breaks before the `i`-th element of its kind.
fn push_gap(ir: &mut Vec<IRElement>, p: &Presence, ty: ElementType, i: usize, Ghost(ds): Ghost<
    Seq<Doc>,
>)
    requires
        docs(old(ir)@, ds),
    ensures
        docs(final(ir)@, ds + gap_docs(*p, ty, i as int)),
{
    if needs_preceding_blank_line(p, ty, i) {
        push_hard(ir, Ghost(ds));
        push_hard(ir, Ghost(ds.push(Doc::Hard)));
        assert(ds.push(Doc::Hard).push(Doc::Hard) =~= ds + gap_docs(*p, ty, i as int));
    } else if needs_preceding_newline(p, ty, i) {
        push_hard(ir, Ghost(ds));
        assert(ds.push(Doc::Hard) =~= ds + gap_docs(*p, ty, i as int));
    } else {
        assert(ds =~= ds + gap_docs(*p, ty, i as int));
    }
}

/// Appends the elements of one kind, given as IR with their models.
fn push_items(
    ir: &mut Vec<IRElement>,
    items: Vec<Vec<IRElement>>,
    p: &Presence,
    ty: ElementType,
    Ghost(ids): Ghost<Seq<Seq<Doc>>>,
    Ghost(ds): Ghost<Seq<Doc>>,
)
    requires
        docs(old(ir)@, ds),
        items@.len() == ids.len(),
        forall|i: int| 0 <= i < ids.len() ==> docs(#[trigger] items@[i]@, ids[i]),
    ensures
        docs(final(ir)@, ds + section_docs(*p, ty, ids)),
{
    let ghost orig = items@;
    let n = items.len();
    let mut rest = items;
    let mut i: usize = 0;
    assert(ids.take(0) =~= Seq::<Seq<Doc>>::empty());
    assert(ds =~= ds + section_docs(*p, ty, ids.take(0)));
    while rest.len() > 0
        invariant
            i <= orig.len(),
            orig.len() == n,
            n == ids.len(),
            forall|k: int| 0 <= k < ids.len() ==> docs(#[trigger] orig[k]@, ids[k]),
            rest@ == orig.subrange(i as int, orig.len() as int),
            docs(ir@, ds + section_docs(*p, ty, ids.take(i as int))),
        decreases rest@.len(),
    {
        let ghost pre = ds + section_docs(*p, ty, ids.take(i as int));
        assert(ids.take(i + 1).drop_last() =~= ids.take(i as int));
        assert(ids.take(i + 1).last() == ids[i as int]);
        assert(orig[i as int] == rest@[0]);
        let item = rest.remove(0);
        assert(rest@ =~= orig.subrange(i + 1, orig.len() as int));
        push_gap(ir, p, ty, i, Ghost(pre));
        let ghost g = pre + gap_docs(*p, ty, i as int);
        let mut item = item;
        proof {
            lemma_docs_append(ir@, g, item@, ids[i as int]);
        }
        ir.append(&mut item);
        assert(g + ids[i as int] =~= ds + section_docs(*p, ty, ids.take(i + 1)));
        i = i + 1;
    }
    assert(ids.take(i as int) =~= ids);
}

/// Appends the contracts.
fn push_contracts(
    ir: &mut Vec<IRElement>,
    contracts: Vec<CollectedContract>,
    p: &Presence,
    Ghost(ds): Ghost<Seq<Doc>>,
)
    requires
        docs(old(ir)@, ds),
        contracts_ok(contracts@),
    ensures
        docs(final(ir)@, ds + contract_section_docs(*p, contracts@)),
{
    let ghost orig = contracts@;
    let n = contracts.len();
    let mut rest = contracts;
    let mut i: usize = 0;
    assert(orig.take(0) =~= Seq::<CollectedContract>::empty());
    assert(ds =~= ds + contract_section_docs(*p, orig.take(0)));
    while rest.len() > 0
        invariant
            i <= orig.len(),
            orig.len() == n,
            contracts_ok(orig),
            rest@ == orig.subrange(i as int, orig.len() as int),
            docs(ir@, ds + contract_section_docs(*p, orig.take(i as int))),
        decreases rest@.len(),
    {
        let ghost pre = ds + contract_section_docs(*p, orig.take(i as int));
        assert(orig.take(i + 1).drop_last() =~= orig.take(i as int));
        assert(orig.take(i + 1).last() == rest@[0]);
        assert(orig[i as int] == rest@[0]);
        let c = rest.remove(0);
        assert(rest@ =~= orig.subrange(i + 1, orig.len() as int));
        push_gap(ir, p, ElementType::Contract, i, Ghost(pre));
        let ghost g = pre + gap_docs(*p, ElementType::Contract, i as int);
        let ghost cd = contract_ir_docs(c);
        assert(vars_ok(orig[i as int].contents.variables@));
        let mut built = build_contract_ir(c);
        proof {
            lemma_docs_append(ir@, g, built@, cd);
        }
        ir.append(&mut built);
        assert(g + cd =~= ds + contract_section_docs(*p, orig.take(i + 1)));
        i = i + 1;
    }
    assert(orig.take(i as int) =~= orig);
}

/// Appends the `using` directives, given as IR with their models.
fn push_usings(
    ir: &mut Vec<IRElement>,
    usings: Vec<Vec<IRElement>>,
    p: &Presence,
    Ghost(ids): Ghost<Seq<Seq<Doc>>>,
    Ghost(ds): Ghost<Seq<Doc>>,
)
    requires
        docs(old(ir)@, ds),
        usings@.len() == ids.len(),
        forall|i: int| 0 <= i < ids.len() ==> docs(#[trigger] usings@[i]@, ids[i]),
    ensures
        docs(final(ir)@, ds + using_section_docs(*p, ids)),
{
    let ghost orig = usings@;
    let n = usings.len();
    let mut rest = usings;
    let mut i: usize = 0;
    assert(ids.take(0) =~= Seq::<Seq<Doc>>::empty());
    assert(ds =~= ds + using_section_docs(*p, ids.take(0)));
    while rest.len() > 0
        invariant
            i <= orig.len(),
            orig.len() == n,
            n == ids.len(),
            forall|k: int| 0 <= k < ids.len() ==> docs(#[trigger] orig[k]@, ids[k]),
            rest@ == orig.subrange(i as int, orig.len() as int),
            docs(ir@, ds + using_section_docs(*p, ids.take(i as int))),
        decreases rest@.len(),
    {
        let ghost pre = ds + using_section_docs(*p, ids.take(i as int));
        assert(ids.take(i + 1).drop_last() =~= ids.take(i as int));
        assert(ids.take(i + 1).last() == ids[i as int]);
        assert(orig[i as int] == rest@[0]);
        let item = rest.remove(0);
        assert(rest@ =~= orig.subrange(i + 1, orig.len() as int));
        let ghost mut cur = pre;
        if i > 0 || p.pragmas || p.imports {
            push_hard(ir, Ghost(pre));
            proof {
                cur = pre.push(Doc::Hard);
            }
        }
        let mut item = item;
        proof {
            lemma_docs_append(ir@, cur, item@, ids[i as int]);
        }
        ir.append(&mut item);
        assert(cur + ids[i as int] =~= ds + using_section_docs(*p, ids.take(i + 1)));
        i = i + 1;
    }
    assert(ids.take(i as int) =~= ids);
}

/// The IR of each `using` directive.
fn build_usings(xs: Vec<CommentedElement<Using>>) -> (r: Vec<Vec<IRElement>>)
    ensures
        r@.len() == xs@.len(),
        forall|i: int| 0 <= i < xs@.len() ==> docs(#[trigger] r@[i]@, using_item_docs(xs@[i])),
{
    let ghost orig = xs@;
    let n = xs.len();
    let mut rest = xs;
    let mut r: Vec<Vec<IRElement>> = Vec::new();
    let mut i: usize = 0;
    while rest.len() > 0
        invariant
            i <= orig.len(),
            orig.len() == n,
            rest@ == orig.subrange(i as int, orig.len() as int),
            r@.len() == i,
            forall|k: int| 0 <= k < i ==> docs(#[trigger] r@[k]@, using_item_docs(orig[k])),
        decreases rest@.len(),
    {
        assert(orig[i as int] == rest@[0]);
        let x = rest.remove(0);
        assert(rest@ =~= orig.subrange(i + 1, orig.len() as int));
        let built = build_using_directive_ir(x);
        r.push(built);
        i = i + 1;
    }
    r
}

/// The IR of each user-defined value type.
fn build_types(xs: Vec<CommentedElement<TypeDefinition>>) -> (r: Vec<Vec<IRElement>>)
    ensures
        r@.len() == xs@.len(),
        forall|i: int| 0 <= i < xs@.len() ==> docs(#[trigger] r@[i]@, type_item_docs(xs@[i])),
{
    let ghost orig = xs@;
    let n = xs.len();
    let mut rest = xs;
    let mut r: Vec<Vec<IRElement>> = Vec::new();
    let mut i: usize = 0;
    while rest.len() > 0
        invariant
            i <= orig.len(),
            orig.len() == n,
            rest@ == orig.subrange(i as int, orig.len() as int),
            r@.len() == i,
            forall|k: int| 0 <= k < i ==> docs(#[trigger] r@[k]@, type_item_docs(orig[k])),
        decreases rest@.len(),
    {
        assert(orig[i as int] == rest@[0]);
        let x = rest.remove(0);
        assert(rest@ =~= orig.subrange(i + 1, orig.len() as int));
        let built = build_type_definition_ir(x);
        r.push(built);
        i = i + 1;
    }
    r
}

/// The IR of each enum.
fn build_enums(xs: Vec<CollectedEnum>) -> (r: Vec<Vec<IRElement>>)
    ensures
        r@.len() == xs@.len(),
        forall|i: int| 0 <= i < xs@.len() ==> docs(#[trigger] r@[i]@, enum_ir_docs(xs@[i])),
{
    let ghost orig = xs@;
    let n = xs.len();
    let mut rest = xs;
    let mut r: Vec<Vec<IRElement>> = Vec::new();
    let mut i: usize = 0;
    while rest.len() > 0
        invariant
            i <= orig.len(),
            orig.len() == n,
            rest@ == orig.subrange(i as int, orig.len() as int),
            r@.len() == i,
            forall|k: int| 0 <= k < i ==> docs(#[trigger] r@[k]@, enum_ir_docs(orig[k])),
        decreases rest@.len(),
    {
        assert(orig[i as int] == rest@[0]);
        let x = rest.remove(0);
        assert(rest@ =~= orig.subrange(i + 1, orig.len() as int));
        let built = build_enum_ir(&x);
        r.push(built);
        i = i + 1;
    }
    r
}

/// The IR of each struct.
fn build_structs(xs: Vec<CollectedStruct>) -> (r: Vec<Vec<IRElement>>)
    ensures
        r@.len() == xs@.len(),
        forall|i: int| 0 <= i < xs@.len() ==> docs(#[trigger] r@[i]@, struct_ir_docs(xs@[i])),
{
    let ghost orig = xs@;
    let n = xs.len();
    let mut rest = xs;
    let mut r: Vec<Vec<IRElement>> = Vec::new();
    let mut i: usize = 0;
    while rest.len() > 0
        invariant
            i <= orig.len(),
            orig.len() == n,
            rest@ == orig.subrange(i as int, orig.len() as int),
            r@.len() == i,
            forall|k: int| 0 <= k < i ==> docs(#[trigger] r@[k]@, struct_ir_docs(orig[k])),
        decreases rest@.len(),
    {
        assert(orig[i as int] == rest@[0]);
        let x = rest.remove(0);
        assert(rest@ =~= orig.subrange(i + 1, orig.len() as int));
        let built = build_struct_ir(x);
        r.push(built);
        i = i + 1;
    }
    r
}

/// The IR of each error.
fn build_errors(xs: Vec<CollectedError>) -> (r: Vec<Vec<IRElement>>)
    ensures
        r@.len() == xs@.len(),
        forall|i: int| 0 <= i < xs@.len() ==> docs(#[trigger] r@[i]@, error_ir_docs(xs@[i])),
{
    let ghost orig = xs@;
    let n = xs.len();
    let mut rest = xs;
    let mut r: Vec<Vec<IRElement>> = Vec::new();
    let mut i: usize = 0;
    while rest.len() > 0
        invariant
            i <= orig.len(),
            orig.len() == n,
            rest@ == orig.subrange(i as int, orig.len() as int),
            r@.len() == i,
            forall|k: int| 0 <= k < i ==> docs(#[trigger] r@[k]@, error_ir_docs(orig[k])),
        decreases rest@.len(),
    {
        assert(orig[i as int] == rest@[0]);
        let x = rest.remove(0);
        assert(rest@ =~= orig.subrange(i + 1, orig.len() as int));
        let built = build_error_ir(x);
        r.push(built);
        i = i + 1;
    }
    r
}

/// The IR of each constant.
fn build_variables(xs: Vec<CommentedElement<VariableDefinition>>) -> (r: Vec<Vec<IRElement>>)
    requires
        vars_ok(xs@),
    ensures
        r@.len() == xs@.len(),
        forall|i: int| 0 <= i < xs@.len() ==> docs(#[trigger] r@[i]@, var_item_docs(xs@[i])),
{
    let ghost orig = xs@;
    let n = xs.len();
    let mut rest = xs;
    let mut r: Vec<Vec<IRElement>> = Vec::new();
    let mut i: usize = 0;
    while rest.len() > 0
        invariant
            i <= orig.len(),
            orig.len() == n,
            vars_ok(orig),
            rest@ == orig.subrange(i as int, orig.len() as int),
            r@.len() == i,
            forall|k: int| 0 <= k < i ==> docs(#[trigger] r@[k]@, var_item_docs(orig[k])),
        decreases rest@.len(),
    {
        assert(orig[i as int] == rest@[0]);
        let x = rest.remove(0);
        assert(rest@ =~= orig.subrange(i + 1, orig.len() as int));
        assert(var_comments_ok(orig[i as int].leading_comments@));
        let built = build_variable_definition_ir(x);
        r.push(built);
        i = i + 1;
    }
    r
}

/// The IR of each function, laid out by `build_function_ir`.
fn build_functions(xs: &Vec<CollectedFunction>) -> (r: Vec<Vec<IRElement>>)
    requires
        fns_ok(xs@),
    ensures
        r@.len() == xs@.len(),
        forall|i: int| 0 <= i < xs@.len() ==> docs(#[trigger] r@[i]@, function_item_docs(xs@[i])),
{
    let mut r: Vec<Vec<IRElement>> = Vec::new();
    let mut i: usize = 0;
    while i < xs.len()
        invariant
            i <= xs@.len(),
            fns_ok(xs@),
            r@.len() == i,
            forall|k: int| 0 <= k < i ==> docs(#[trigger] r@[k]@, function_item_docs(xs@[k])),
        decreases xs@.len() - i,
    {
        assert(fn_ok(xs@[i as int]));
        let built = build_function_ir(&xs[i]);
        proof {
            reveal(function_item_docs);
        }
        r.push(built);
        i = i + 1;
    }
    r
}

/// Appends the pragmas.
#[verifier::spinoff_prover]
fn push_pragmas(
    ir: &mut Vec<IRElement>,
    pragmas: &Vec<CommentedElement<PragmaDirective>>,
    Ghost(ds): Ghost<Seq<Doc>>,
)
    requires
        docs(old(ir)@, ds),
        pragmas_ok(pragmas@),
    ensures
        docs(final(ir)@, ds + pragma_section_docs(pragmas@)),
{
    let mut i: usize = 0;
    assert(pragmas@.take(0) =~= Seq::<CommentedElement<PragmaDirective>>::empty());
    assert(ds =~= ds + pragma_section_docs(pragmas@.take(0)));
    while i < pragmas.len()
        invariant
            i <= pragmas@.len(),
            docs(ir@, ds + pragma_section_docs(pragmas@.take(i as int))),
            pragmas_ok(pragmas@),
        decreases pragmas@.len() - i,
    {
        let ghost pre = ds + pragma_section_docs(pragmas@.take(i as int));
        assert(pragmas@.take(i + 1).drop_last() =~= pragmas@.take(i as int));
        assert(pragmas@.take(i + 1).last() == pragmas@[i as int]);
        let ghost mut cur = pre;
        if i > 0 {
            push_hard(ir, Ghost(pre));
            proof {
                cur = pre.push(Doc::Hard);
            }
        }
        assert(comments_ok(pragmas@[i as int].leading_comments@) && comments_ok(
            pragmas@[i as int].trailing_comments@,
        ));
        let built = build_pragma_ir(&pragmas[i]);
        let ghost bd = with_comments_docs_ns(
            pragmas@[i as int].leading_comments@,
            pragmas@[i as int].trailing_comments@,
        ) + pragma_body_docs(pragmas@[i as int].element);
        let mut built = built;
        proof {
            lemma_docs_append(ir@, cur, built@, bd);
        }
        ir.append(&mut built);
        assert(cur + bd =~= ds + pragma_section_docs(pragmas@.take(i + 1)));
        i = i + 1;
    }
    assert(pragmas@.take(i as int) =~= pragmas@);
}

/// Appends the imports.
fn push_imports(
    ir: &mut Vec<IRElement>,
    imports: &Vec<CommentedElement<Import>>,
    Ghost(ds): Ghost<Seq<Doc>>,
)
    requires
        docs(old(ir)@, ds),
    ensures
        docs(final(ir)@, ds + import_section_docs(imports@)),
{
    let mut i: usize = 0;
    let mut prev: Option<ImportGroup> = None;
    assert(imports@.take(0) =~= Seq::<CommentedElement<Import>>::empty());
    assert(ds =~= ds + import_section_docs(imports@.take(0)));
    while i < imports.len()
        invariant
            i <= imports@.len(),
            docs(ir@, ds + import_section_docs(imports@.take(i as int))),
            i == 0 ==> prev is None,
            i > 0 ==> prev == Some(group_of(import_text(imports@[i - 1].element))),
        decreases imports@.len() - i,
    {
        let ghost pre = ds + import_section_docs(imports@.take(i as int));
        let ghost t = imports@.take(i + 1);
        assert(t.drop_last() =~= imports@.take(i as int));
        assert(t.last() == imports@[i as int]);
        if i > 0 {
            assert(t[i - 1] == imports@[i - 1]);
        }
        let current = get_import_group(&imports[i].element);
        let ghost mut cur = pre;
        match prev {
            Some(g) => {
                if g != current {
                    push_hard(ir, Ghost(pre));
                    push_hard(ir, Ghost(pre.push(Doc::Hard)));
                    proof {
                        cur = pre.push(Doc::Hard).push(Doc::Hard);
                    }
                } else {
                    push_hard(ir, Ghost(pre));
                    proof {
                        cur = pre.push(Doc::Hard);
                    }
                }
            },
            None => {},
        }
        let mut built = build_import_ir(&imports[i]);
        let ghost bd = seq![Doc::Group(import_inner_docs(imports@[i as int].element))];
        proof {
            lemma_docs_append(ir@, cur, built@, bd);
        }
        ir.append(&mut built);
        assert(cur + bd =~= ds + import_section_docs(imports@.take(i + 1)));
        prev = Some(current);
        i = i + 1;
    }
    assert(imports@.take(i as int) =~= imports@);
}

/// Appends the standalone comments that are kept.
fn push_standalone(ir: &mut Vec<IRElement>, comments: &Vec<Comment>, Ghost(ds): Ghost<Seq<Doc>>)
    requires
        docs(old(ir)@, ds),
        comments_ok(comments@),
    ensures
        docs(final(ir)@, ds + standalone_docs(comments@)),
{
    let mut i: usize = 0;
    assert(comments@.take(0) =~= Seq::<Comment>::empty());
    assert(ds =~= ds + standalone_docs(comments@.take(0)));
    while i < comments.len()
        invariant
            i <= comments@.len(),
            comments_ok(comments@),
            docs(ir@, ds + standalone_docs(comments@.take(i as int))),
        decreases comments@.len() - i,
    {
        let ghost pre = ds + standalone_docs(comments@.take(i as int));
        assert(comments@.take(i + 1).drop_last() =~= comments@.take(i as int));
        assert(comments@.take(i + 1).last() == comments@[i as int]);
        let c = &comments[i];
        assert(crate::ir_builder::comments::marker_ok(comment_text(comments@[i as int])));
        if !is_spdx_comment(c) && !is_import_section_comment(c) {
            push_hard(ir, Ghost(pre));
            let e = build_comment(c);
            proof {
                lemma_docs_push(ir@, pre.push(Doc::Hard), e, comment_doc(*c, false));
            }
            ir.push(e);
            assert(pre.push(Doc::Hard).push(comment_doc(*c, false)) =~= ds + standalone_docs(
                comments@.take(i + 1),
            ));
        } else {
            assert(pre =~= ds + standalone_docs(comments@.take(i + 1)));
        }
        i = i + 1;
    }
    assert(comments@.take(i as int) =~= comments@);
}

/// Builds the IR of a source unit: the elements are put in printing order,
/// the canonical SPDX header comes first, then each kind of element with the
/// blank lines between kinds, then the standalone comments that are neither
/// license nor import section comments.
#[verifier::spinoff_prover]
#[verifier::rlimit(60)]
pub fn build_ir(collected: CollectedElements) -> (r: Vec<IRElement>)
    requires
        layout_ok(ordered_pragmas(collected.pragmas@), collected.standalone_comments@),
        vars_ok(collected.variables@),
        fns_ok(collected.functions@),
        contracts_ok(collected.contracts@),
    ensures
        docs(
            r@,
            layout_docs(
                ordered_pragmas(collected.pragmas@),
                ordered_imports(collected.imports@),
                ordered_contracts(collected.contracts@),
                collected,
            ),
        ),
{
    let ghost c0 = collected;
    proof {
        lemma_ordered_contracts_ok(c0.contracts@);
    }
    let ordered = order_collected_elements(collected);
    let p = presence(&ordered);
    assert(p == presence_of(
        ordered_pragmas(c0.pragmas@),
        ordered_imports(c0.imports@),
        ordered_contracts(c0.contracts@),
        c0,
    ));
    let CollectedElements {
        pragmas,
        imports,
        using_directives,
        errors,
        types,
        enums,
        structs,
        functions,
        variables,
        contracts,
        standalone_comments,
    } = ordered;
    let mut ir: Vec<IRElement> = Vec::new();
    proof {
        lemma_docs(ir@, Seq::empty());
    }
    let header = generate_spdx_header();
    let ghost d0: Seq<Doc> = Seq::empty();
    proof {
        lemma_docs_push(ir@, d0, IRElement::Text(header), Doc::Text(spdx_header_text()));
    }
    ir.push(IRElement::Text(header));
    let ghost ds = seq![Doc::Text(spdx_header_text())];
    assert(d0.push(Doc::Text(spdx_header_text())) =~= ds);
    let other = has_other_elements(&p);
    let ghost s1 = seq![Doc::Text(spdx_header_text())] + (if other || p.pragmas {
        seq![Doc::Hard]
    } else {
        Seq::empty()
    });
    if other || p.pragmas {
        push_hard(&mut ir, Ghost(ds));
        assert(ds.push(Doc::Hard) =~= s1);
    } else {
        assert(ds =~= s1);
    }
    push_pragmas(&mut ir, &pragmas, Ghost(s1));
    let ghost s2 = s1 + pragma_section_docs(pragmas@);
    push_blank_if(&mut ir, p.pragmas && other, Ghost(s2));
    let ghost s3 = s2 + blank_if(p.pragmas && other);
    push_imports(&mut ir, &imports, Ghost(s3));
    let ghost s4 = s3 + import_section_docs(imports@);
    let after_imp = has_elements_after_imports(&p);
    push_blank_if(&mut ir, p.imports && after_imp, Ghost(s4));
    let ghost s5 = s4 + blank_if(p.imports && after_imp);
    let ghost uv = using_directives@.map_values(|u: CommentedElement<Using>| using_item_docs(u));
    let uir = build_usings(using_directives);
    push_usings(&mut ir, uir, &p, Ghost(uv), Ghost(s5));
    let ghost s6 = s5 + using_section_docs(p, uv);
    let after_use = has_elements_after_using(&p);
    push_blank_if(&mut ir, p.using_directives && after_use, Ghost(s6));
    let ghost s7 = s6 + blank_if(p.using_directives && after_use);
    let ghost tv = types@.map_values(|t: CommentedElement<TypeDefinition>| type_item_docs(t));
    let tir = build_types(types);
    push_items(&mut ir, tir, &p, ElementType::Type, Ghost(tv), Ghost(s7));
    let ghost s8 = s7 + section_docs(p, ElementType::Type, tv);
    let ghost ev = enums@.map_values(|x: CollectedEnum| enum_ir_docs(x));
    let eir = build_enums(enums);
    push_items(&mut ir, eir, &p, ElementType::Enum, Ghost(ev), Ghost(s8));
    let ghost s9 = s8 + section_docs(p, ElementType::Enum, ev);
    let ghost sv = structs@.map_values(|x: CollectedStruct| struct_ir_docs(x));
    let sir = build_structs(structs);
    push_items(&mut ir, sir, &p, ElementType::Struct, Ghost(sv), Ghost(s9));
    let ghost s10 = s9 + section_docs(p, ElementType::Struct, sv);
    let ghost rv = errors@.map_values(|x: CollectedError| error_ir_docs(x));
    let rir = build_errors(errors);
    push_items(&mut ir, rir, &p, ElementType::Error, Ghost(rv), Ghost(s10));
    let ghost s11 = s10 + section_docs(p, ElementType::Error, rv);
    let ghost vv = variables@.map_values(|v: CommentedElement<VariableDefinition>| var_item_docs(v));
    let vir = build_variables(variables);
    push_items(&mut ir, vir, &p, ElementType::Variable, Ghost(vv), Ghost(s11));
    let ghost s12 = s11 + section_docs(p, ElementType::Variable, vv);
    let ghost fv = functions@.map_values(|f: CollectedFunction| function_item_docs(f));
    let fir = build_functions(&functions);
    push_items(&mut ir, fir, &p, ElementType::Function, Ghost(fv), Ghost(s12));
    let ghost s13 = s12 + section_docs(p, ElementType::Function, fv);
    let ghost cv = contracts@;
    push_contracts(&mut ir, contracts, &p, Ghost(s13));
    let ghost s14 = s13 + contract_section_docs(p, cv);
    push_standalone(&mut ir, &standalone_comments, Ghost(s14));
    assert(s14 + standalone_docs(standalone_comments@) == layout_docs(
        ordered_pragmas(c0.pragmas@),
        ordered_imports(c0.imports@),
        ordered_contracts(c0.contracts@),
        c0,
    ));
    ir
}

/// Putting the contracts in order keeps every contract's variables fit to
/// lay out.
proof fn lemma_ordered_contracts_ok(cs: Seq<CollectedContract>)
    requires
        contracts_ok(cs),
    ensures
        contracts_ok(ordered_contracts(cs)),
{
    broadcast use vstd::seq_lib::group_to_multiset_ensures;

    let o = ordered_contracts(cs);
    law_order_contracts(cs);
    assert forall|i: int| 0 <= i < o.len() implies contents_ok(#[trigger] o[i].contents) by {
        assert(o.contains(o[i]));
        assert(o.to_multiset().count(o[i]) > 0);
        assert(cs.to_multiset().count(o[i]) > 0);
        assert(cs.contains(o[i]));
        let k = choose|k: int| 0 <= k < cs.len() && cs[k] == o[i];
        assert(contents_ok(cs[k].contents));
    }
}

/// The layout of a source unit, in the order `build_ir` lays it out.
pub open spec fn unit_docs(collected: CollectedElements) -> Seq<Doc> {
    layout_docs(
        ordered_pragmas(collected.pragmas@),
        ordered_imports(collected.imports@),
        ordered_contracts(collected.contracts@),
        collected,
    )
}

/// Whether a printer of width `w` and indentation step `k` has room for
/// the nesting and the text of `ir`.
pub open spec fn printable(w: int, k: int, ir: Seq<IRElement>) -> bool {
    depth_from(ir, 0) < usize::MAX && depth_from(ir, 0) * k + weight_from(ir, 0) + w + 16 <= usize::MAX
}

/// Formats a source unit: builds its IR (`build_ir`) and prints it with the
/// configured width and indentation. `None` when the IR nests too deeply or
/// holds too much text for the printer's arithmetic.
pub fn format_collected(collected: CollectedElements, config: FormatConfig) -> (r: Option<String>)
    requires
        layout_ok(ordered_pragmas(collected.pragmas@), collected.standalone_comments@),
        vars_ok(collected.variables@),
        fns_ok(collected.functions@),
        contracts_ok(collected.contracts@),
    ensures
        match r {
            Some(s) => exists|ir: Seq<IRElement>|
                #[trigger] docs(ir, unit_docs(collected)) && printable(
                    config.max_line_width as int,
                    config.indent_size as int,
                    ir,
                ) && s@ == render(config.max_line_width as int, config.indent_size as int, ir),
            None => exists|ir: Seq<IRElement>|
                #[trigger] docs(ir, unit_docs(collected)) && !printable(
                    config.max_line_width as int,
                    config.indent_size as int,
                    ir,
                ),
        },
{
    let ghost c0 = collected;
    let ir = build_ir(collected);
    assert(docs(ir@, unit_docs(c0)));
    let wid = config.max_line_width;
    let k = config.indent_size;
    let ghost wi = ir@;
    proof {
        crate::ir_builder::ir::lemma_measures(wi, 0);
        let dd = depth_from(wi, 0);
        assert(dd * (k as int) >= 0) by (nonlinear_arith)
            requires
                dd >= 0,
                k >= 0,
        ;
    }
    assert(docs(wi, unit_docs(c0)));
    match measure(ir.as_slice()) {
        Some((d, w)) => {
            if d == usize::MAX {
                return None;
            }
            match d.checked_mul(k) {
                Some(dk) => {
                    if w > usize::MAX - dk || wid > usize::MAX - dk - w || 16 > usize::MAX - dk - w - wid {
                        return None;
                    }
                    let mut printer = Printer::with_config(wid, k);
                    assert(printable(wid as int, k as int, ir@));
                    let out = printer.print(ir.as_slice());
                    assert(out@ == render(wid as int, k as int, ir@));
                    assert(exists|x: Seq<IRElement>|
                        #[trigger] docs(x, unit_docs(c0)) && printable(wid as int, k as int, x) && out@ == render(
                            wid as int,
                            k as int,
                            x,
                        )) by {
                        assert(docs(wi, unit_docs(c0)) && printable(wid as int, k as int, wi) && out@ == render(
                            wid as int,
                            k as int,
                            wi,
                        ));
                    }
                    Some(out)
                },
                None => None,
            }
        },
        None => None,
    }
}

} // verus!
