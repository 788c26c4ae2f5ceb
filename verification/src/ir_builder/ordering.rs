//! The order in which top-level elements are printed: pragmas by kind and
//! version, imports by group and path, contracts by kind.
use vstd::prelude::*;
use crate::model::{
    CollectedContract, CollectedElements, CommentedElement, ContractTy, GroupedCommentedImports,
    IdentifierPath, Import, ImportPath, PragmaDirective, VersionComparator,
};
use crate::text::{
    chars_of, has_prefix, join, join_strings, lemma_text_less_irreflexive,
    lemma_text_less_transitive, lowercase, starts_with, str_views, string_from, text_less,
    text_lt, to_lowercase,
};

verus! {

/// The `i`-th component of a version, zero past its end.
pub open spec fn ver_at(v: Seq<u32>, i: int) -> int {
    if 0 <= i < v.len() {
        v[i] as int
    } else {
        0
    }
}

/// The larger of the two lengths.
pub open spec fn max_len(a: Seq<u32>, b: Seq<u32>) -> int {
    if a.len() >= b.len() {
        a.len() as int
    } else {
        b.len() as int
    }
}

/// Compares `a` and `b` from component `i` up to component `n`, missing
/// components counting as zero: 1, -1 or 0.
pub open spec fn version_order_from(a: Seq<u32>, b: Seq<u32>, i: int, n: int) -> int
    decreases n - i,
{
    if i >= n {
        0
    } else if ver_at(a, i) > ver_at(b, i) {
        1
    } else if ver_at(a, i) < ver_at(b, i) {
        -1
    } else {
        version_order_from(a, b, i + 1, n)
    }
}

/// Semantic-version comparison of two component lists: positive when `a` is
/// the higher version, negative when it is the lower, zero when equal.
pub open spec fn version_order(a: Seq<u32>, b: Seq<u32>) -> int {
    version_order_from(a, b, 0, max_len(a, b))
}

/// Past both lengths every component is zero, so nothing differs.
proof fn lemma_order_tail(a: Seq<u32>, b: Seq<u32>, i: int, n: int)
    requires
        i >= max_len(a, b),
    ensures
        version_order_from(a, b, i, n) == 0,
    decreases n - i,
{
    if i < n {
        lemma_order_tail(a, b, i + 1, n);
    }
}

/// Comparing further than both lengths changes nothing.
proof fn lemma_order_extend(a: Seq<u32>, b: Seq<u32>, i: int, n: int)
    requires
        n >= max_len(a, b),
    ensures
        version_order_from(a, b, i, n) == version_order_from(a, b, i, max_len(a, b)),
    decreases n - i,
{
    if i >= max_len(a, b) {
        lemma_order_tail(a, b, i, n);
        lemma_order_tail(a, b, i, max_len(a, b));
    } else {
        lemma_order_extend(a, b, i + 1, n);
    }
}

proof fn lemma_order_antisym_from(a: Seq<u32>, b: Seq<u32>, i: int, n: int)
    ensures
        version_order_from(a, b, i, n) == -version_order_from(b, a, i, n),
    decreases n - i,
{
    if i < n {
        lemma_order_antisym_from(a, b, i + 1, n);
    }
}

proof fn lemma_order_trans_from(a: Seq<u32>, b: Seq<u32>, c: Seq<u32>, i: int, n: int)
    requires
        version_order_from(a, b, i, n) <= 0,
        version_order_from(b, c, i, n) <= 0,
    ensures
        version_order_from(a, c, i, n) <= 0,
        version_order_from(a, b, i, n) < 0 || version_order_from(b, c, i, n) < 0
            ==> version_order_from(a, c, i, n) < 0,
    decreases n - i,
{
    if i < n && ver_at(a, i) == ver_at(b, i) && ver_at(b, i) == ver_at(c, i) {
        lemma_order_trans_from(a, b, c, i + 1, n);
    }
}

/// Brings three comparisons to one common bound.
proof fn lemma_order_common(a: Seq<u32>, b: Seq<u32>, n: int)
    requires
        n >= max_len(a, b),
    ensures
        version_order(a, b) == version_order_from(a, b, 0, n),
{
    lemma_order_extend(a, b, 0, n);
}

/// Swapping the arguments negates the comparison.
pub proof fn law_version_order_antisymmetric(a: Seq<u32>, b: Seq<u32>)
    ensures
        version_order(a, b) == -version_order(b, a),
{
    lemma_order_common(b, a, max_len(a, b));
    lemma_order_antisym_from(a, b, 0, max_len(a, b));
}

/// The version order is transitive, strictly so where one step is strict.
pub proof fn law_version_order_transitive(a: Seq<u32>, b: Seq<u32>, c: Seq<u32>)
    requires
        version_order(a, b) <= 0,
        version_order(b, c) <= 0,
    ensures
        version_order(a, c) <= 0,
        version_order(a, b) < 0 || version_order(b, c) < 0 ==> version_order(a, c) < 0,
{
    let n = max_len(a, b) + max_len(b, c) + max_len(a, c);
    lemma_order_common(a, b, n);
    lemma_order_common(b, c, n);
    lemma_order_common(a, c, n);
    lemma_order_trans_from(a, b, c, 0, n);
}

/// Compares two versions component by component, missing components
/// counting as zero: 1 if `a` is higher, -1 if lower, 0 if equal.
pub fn compare_versions(a: &[u32], b: &[u32]) -> (r: i32)
    ensures
        r == version_order(a@, b@),
{
    let n: usize = if a.len() >= b.len() {
        a.len()
    } else {
        b.len()
    };
    let mut i: usize = 0;
    while i < n
        invariant
            n == max_len(a@, b@),
            i <= n,
            version_order(a@, b@) == version_order_from(a@, b@, i as int, n as int),
        decreases n - i,
    {
        let x: u32 = if i < a.len() {
            a[i]
        } else {
            0
        };
        let y: u32 = if i < b.len() {
            b[i]
        } else {
            0
        };
        if x > y {
            return 1;
        } else if x < y {
            return -1;
        }
        i = i + 1;
    }
    0
}

/// The value of a decimal digit.
pub open spec fn digit_value(c: char) -> int {
    (c as u32) - ('0' as u32)
}

/// Whether `c` is an ASCII decimal digit.
pub open spec fn is_digit(c: char) -> bool {
    '0' <= c && c <= '9'
}

/// The number that a string of decimal digits writes.
pub open spec fn digits_value(d: Seq<char>) -> int
    decreases d.len(),
{
    if d.len() == 0 {
        0
    } else {
        digits_value(d.drop_last()) * 10 + digit_value(d.last())
    }
}

/// The digits of an unsigned number: the text without one leading `+`.
pub open spec fn unsigned_digits(s: Seq<char>) -> Seq<char> {
    if s.len() > 0 && s[0] == '+' {
        s.subrange(1, s.len() as int)
    } else {
        s
    }
}

/// What `str::parse::<u32>` gives, as an option: an optional `+` and at least
/// one decimal digit, of a value that fits in `u32`.
pub open spec fn parsed_u32(s: Seq<char>) -> Option<u32> {
    let d = unsigned_digits(s);
    if d.len() > 0 && (forall|i: int| 0 <= i < d.len() ==> #[trigger] is_digit(d[i]))
        && digits_value(d) <= u32::MAX {
        Some(digits_value(d) as u32)
    } else {
        None
    }
}

/// A longer string of digits writes at least the value of its prefix.
proof fn lemma_digits_mono(d: Seq<char>, k: int)
    requires
        0 <= k <= d.len(),
        forall|i: int| 0 <= i < d.len() ==> #[trigger] is_digit(d[i]),
    ensures
        digits_value(d.take(k)) <= digits_value(d),
        0 <= digits_value(d.take(k)),
    decreases d.len() - k,
{
    if k < d.len() {
        lemma_digits_mono(d, k + 1);
        assert(d.take(k + 1).drop_last() =~= d.take(k));
        assert(is_digit(d[k]));
    } else {
        assert(d.take(k) =~= d);
        lemma_digits_nonneg(d);
    }
}

proof fn lemma_digits_nonneg(d: Seq<char>)
    requires
        forall|i: int| 0 <= i < d.len() ==> #[trigger] is_digit(d[i]),
    ensures
        0 <= digits_value(d),
    decreases d.len(),
{
    if d.len() > 0 {
        assert forall|i: int| 0 <= i < d.drop_last().len() implies #[trigger] is_digit(
            d.drop_last()[i],
        ) by {
            assert(is_digit(d[i]));
        }
        lemma_digits_nonneg(d.drop_last());
        assert(is_digit(d[d.len() - 1]));
    }
}

/// Parses an unsigned 32-bit decimal number as `str::parse::<u32>` does,
/// giving `None` where that gives an error.
pub fn parse_u32(s: &str) -> (r: Option<u32>)
    ensures
        r == parsed_u32(s@),
{
    let cs = chars_of(s);
    let start: usize = if cs.len() > 0 && cs[0] == '+' {
        1
    } else {
        0
    };
    let ghost d = unsigned_digits(s@);
    assert(d =~= cs@.subrange(start as int, cs@.len() as int));
    if start >= cs.len() {
        return None;
    }
    let mut acc: u32 = 0;
    let mut i: usize = start;
    while i < cs.len()
        invariant
            start <= i <= cs@.len(),
            start < cs@.len(),
            cs@ == s@,
            d == cs@.subrange(start as int, cs@.len() as int),
            d == unsigned_digits(s@),
            forall|j: int| 0 <= j < i - start ==> #[trigger] is_digit(d[j]),
            acc == digits_value(d.take(i - start)),
        decreases cs@.len() - i,
    {
        let c = cs[i];
        if !('0' <= c && c <= '9') {
            assert(!is_digit(d[i - start]));
            assert(!(forall|j: int| 0 <= j < d.len() ==> #[trigger] is_digit(d[j])));
            assert(parsed_u32(s@) is None);
            return None;
        }
        let v: u32 = (c as u32) - ('0' as u32);
        assert(d.take(i - start + 1).drop_last() =~= d.take(i - start));
        assert(d.take(i - start + 1).last() == c);
        if acc > (u32::MAX - v) / 10 {
            proof {
                assert(acc * 10 + v > u32::MAX) by (nonlinear_arith)
                    requires
                        acc > (u32::MAX - v) / 10,
                        v <= 9,
                ;
                let k = i - start + 1;
                if forall|j: int| 0 <= j < d.len() ==> #[trigger] is_digit(d[j]) {
                    lemma_digits_mono(d, k);
                    assert(digits_value(d.take(k)) == acc * 10 + v);
                    assert(digits_value(d) > u32::MAX);
                }
                assert(parsed_u32(s@) is None);
            }
            return None;
        }
        assert(acc * 10 + v <= u32::MAX) by (nonlinear_arith)
            requires
                acc <= (u32::MAX - v) / 10,
                v <= 9,
        ;
        acc = acc * 10 + v;
        i = i + 1;
    }
    assert(d.take(i - start) =~= d);
    Some(acc)
}

/// The numbers among the parts of a version, in order; parts that are not
/// numbers are left out.
pub open spec fn parsed_parts(vs: Seq<String>) -> Seq<u32>
    decreases vs.len(),
{
    if vs.len() == 0 {
        Seq::empty()
    } else {
        let r = parsed_parts(vs.drop_last());
        match parsed_u32(vs.last()@) {
            Some(n) => r.push(n),
            None => r,
        }
    }
}

/// The version that a pragma is ordered by: the numeric parts of its first
/// requirement where that is a plain or operator version, else `0.0.0`.
pub open spec fn version_numbers(p: PragmaDirective) -> Seq<u32> {
    match p {
        PragmaDirective::Version(reqs) => {
            if reqs@.len() > 0 {
                match reqs@[0] {
                    VersionComparator::Plain { version } => parsed_parts(version@),
                    VersionComparator::Operator { op, version } => parsed_parts(version@),
                    _ => seq![0u32, 0u32, 0u32],
                }
            } else {
                seq![0u32, 0u32, 0u32]
            }
        },
        _ => seq![0u32, 0u32, 0u32],
    }
}

fn parse_parts(vs: &Vec<String>) -> (r: Vec<u32>)
    ensures
        r@ == parsed_parts(vs@),
{
    let mut r: Vec<u32> = Vec::new();
    let mut i: usize = 0;
    while i < vs.len()
        invariant
            i <= vs@.len(),
            r@ == parsed_parts(vs@.take(i as int)),
        decreases vs@.len() - i,
    {
        assert(vs@.take(i + 1).drop_last() =~= vs@.take(i as int));
        match parse_u32(vs[i].as_str()) {
            Some(n) => r.push(n),
            None => {},
        }
        i = i + 1;
    }
    assert(vs@.take(vs@.len() as int) =~= vs@);
    r
}

/// The semantic version numbers of a pragma, for comparison.
pub fn extract_version_numbers(pragma: &PragmaDirective) -> (r: Vec<u32>)
    ensures
        r@ == version_numbers(*pragma),
{
    match pragma {
        PragmaDirective::Version(reqs) => {
            if reqs.len() > 0 {
                match &reqs[0] {
                    VersionComparator::Plain { version } => parse_parts(version),
                    VersionComparator::Operator { op, version } => parse_parts(version),
                    _ => vec![0, 0, 0],
                }
            } else {
                vec![0, 0, 0]
            }
        },
        _ => vec![0, 0, 0],
    }
}

/// The versions of a list of pragmas.
pub open spec fn pragma_versions(ps: Seq<CommentedElement<PragmaDirective>>) -> Seq<Seq<u32>> {
    ps.map_values(|p: CommentedElement<PragmaDirective>| version_numbers(p.element))
}

/// The index of the first highest version among the first `n`.
pub open spec fn highest_index(vs: Seq<Seq<u32>>, n: int) -> int
    decreases n,
{
    if n <= 1 {
        0
    } else {
        let b = highest_index(vs, n - 1);
        if version_order(vs[n - 1], vs[b]) > 0 {
            n - 1
        } else {
            b
        }
    }
}

/// The chosen version is the highest, and no earlier one equals it.
pub proof fn law_highest_is_maximal(vs: Seq<Seq<u32>>, n: int)
    requires
        1 <= n <= vs.len(),
    ensures
        0 <= highest_index(vs, n) < n,
        forall|j: int| 0 <= j < n ==> version_order(#[trigger] vs[j], vs[highest_index(vs, n)]) <= 0,
        forall|j: int|
            0 <= j < highest_index(vs, n) ==> version_order(#[trigger] vs[j], vs[highest_index(vs, n)])
                < 0,
    decreases n,
{
    let h = highest_index(vs, n);
    if n == 1 {
        lemma_order_self(vs[0]);
    } else {
        law_highest_is_maximal(vs, n - 1);
        let b = highest_index(vs, n - 1);
        if version_order(vs[n - 1], vs[b]) > 0 {
            law_version_order_antisymmetric(vs[n - 1], vs[b]);
            assert forall|j: int| 0 <= j < n implies version_order(#[trigger] vs[j], vs[h]) <= 0 by {
                if j < n - 1 {
                    law_version_order_transitive(vs[j], vs[b], vs[n - 1]);
                } else {
                    lemma_order_self(vs[j]);
                }
            }
            assert forall|j: int| 0 <= j < h implies version_order(#[trigger] vs[j], vs[h]) < 0 by {
                law_version_order_transitive(vs[j], vs[b], vs[n - 1]);
            }
        } else {
            law_version_order_antisymmetric(vs[n - 1], vs[b]);
            assert forall|j: int| 0 <= j < n implies version_order(#[trigger] vs[j], vs[h]) <= 0 by {
                if j == n - 1 {
                    law_version_order_antisymmetric(vs[j], vs[b]);
                }
            }
        }
    }
}

/// A version equals itself.
proof fn lemma_order_self(a: Seq<u32>)
    ensures
        version_order(a, a) == 0,
{
    law_version_order_antisymmetric(a, a);
}

/// The pragma with the highest semantic version, the first of them where
/// several share it; `None` for no pragmas.
pub fn find_highest_version_pragma(version_pragmas: Vec<CommentedElement<PragmaDirective>>) -> (r:
    Option<CommentedElement<PragmaDirective>>)
    ensures
        version_pragmas@.len() == 0 ==> r is None,
        version_pragmas@.len() > 0 ==> r == Some(
            version_pragmas@[highest_index(
                pragma_versions(version_pragmas@),
                version_pragmas@.len() as int,
            )],
        ),
{
    if version_pragmas.len() == 0 {
        return None;
    }
    let ghost vs = pragma_versions(version_pragmas@);
    let mut best: usize = 0;
    let mut best_version = extract_version_numbers(&version_pragmas[0].element);
    let mut i: usize = 1;
    while i < version_pragmas.len()
        invariant
            1 <= i <= version_pragmas@.len(),
            vs == pragma_versions(version_pragmas@),
            best == highest_index(vs, i as int),
            best < i,
            best_version@ == vs[best as int],
        decreases version_pragmas@.len() - i,
    {
        let current = extract_version_numbers(&version_pragmas[i].element);
        if compare_versions(&current, &best_version) > 0 {
            best = i;
            best_version = current;
        }
        i = i + 1;
    }
    let mut v = version_pragmas;
    Some(v.remove(best))
}

/// The first identifier of an identifier pragma; empty otherwise.
pub open spec fn identifier_first_name(p: PragmaDirective) -> Seq<char> {
    match p {
        PragmaDirective::Identifier(Some(n), _) => n@,
        _ => Seq::empty(),
    }
}

/// The first identifier of an identifier pragma, or the empty string.
pub fn get_identifier_pragma_first_name(pragma: &PragmaDirective) -> (r: String)
    ensures
        r@ == identifier_first_name(*pragma),
{
    match pragma {
        PragmaDirective::Identifier(Some(n), _) => n.clone(),
        _ => String::new(),
    }
}

/// The identifier of a string-literal pragma; empty otherwise.
pub open spec fn string_literal_name(p: PragmaDirective) -> Seq<char> {
    match p {
        PragmaDirective::StringLiteral(n, _) => n@,
        _ => Seq::empty(),
    }
}

/// The identifier of a string-literal pragma, or the empty string.
pub fn get_string_literal_pragma_name(pragma: &PragmaDirective) -> (r: String)
    ensures
        r@ == string_literal_name(*pragma),
{
    match pragma {
        PragmaDirective::StringLiteral(n, _) => n.clone(),
        _ => String::new(),
    }
}

/// The identifiers of a path joined by dots.
pub open spec fn identifier_path_text(p: IdentifierPath) -> Seq<char> {
    join(str_views(p.identifiers@), "."@)
}

/// The identifiers of a path joined by dots.
pub fn format_identifier_path(path: &IdentifierPath) -> (r: String)
    ensures
        r@ == identifier_path_text(*path),
{
    let dot: Vec<char> = vec!['.'];
    proof {
        reveal_strlit(".");
        assert(dot@ =~= "."@);
    }
    let joined = join_strings(&path.identifiers, dot.as_slice());
    string_from(joined.as_slice())
}

/// The text of an import path: the file name, or the dotted identifiers.
pub open spec fn import_path_text(p: ImportPath) -> Seq<char> {
    match p {
        ImportPath::Filename(s) => s@,
        ImportPath::Path(ip) => identifier_path_text(ip),
    }
}

/// The text of an import path.
pub fn format_import_path(path: &ImportPath) -> (r: String)
    ensures
        r@ == import_path_text(*path),
{
    match path {
        ImportPath::Filename(s) => s.clone(),
        ImportPath::Path(p) => format_identifier_path(p),
    }
}

/// The path text of an import, whatever its form.
pub open spec fn import_text(i: Import) -> Seq<char> {
    match i {
        Import::Plain(p) => import_path_text(p),
        Import::GlobalSymbol(p, _) => import_path_text(p),
        Import::Rename(p, _) => import_path_text(p),
    }
}

/// The path text of an import, whatever its form.
pub fn get_import_path_string(import: &Import) -> (r: String)
    ensures
        r@ == import_text(*import),
{
    match import {
        Import::Plain(p) => format_import_path(p),
        Import::GlobalSymbol(p, _) => format_import_path(p),
        Import::Rename(p, _) => format_import_path(p),
    }
}

/// Where a key goes in a sorted sequence: before the first entry from `j` on
/// whose key is greater, so after all equal ones.
pub open spec fn insert_pos<T>(s: Seq<(Seq<char>, T)>, k: Seq<char>, j: int) -> int
    decreases s.len() - j,
{
    if j >= s.len() {
        s.len() as int
    } else if text_less(k, s[j].0) {
        j
    } else {
        insert_pos(s, k, j + 1)
    }
}

/// Stable sort of keyed entries by key, each entry inserted in turn.
pub open spec fn sort_by_text<T>(s: Seq<(Seq<char>, T)>) -> Seq<(Seq<char>, T)>
    decreases s.len(),
{
    if s.len() == 0 {
        s
    } else {
        let r = sort_by_text(s.drop_last());
        r.insert(insert_pos(r, s.last().0, 0), s.last())
    }
}

/// The keys of keyed entries taken by their views.
pub open spec fn keyed_views<T>(v: Seq<(Vec<char>, T)>) -> Seq<(Seq<char>, T)> {
    v.map_values(|p: (Vec<char>, T)| (p.0@, p.1))
}

/// The entries without their keys.
pub open spec fn unkeyed<T>(s: Seq<(Seq<char>, T)>) -> Seq<T> {
    s.map_values(|p: (Seq<char>, T)| p.1)
}

proof fn lemma_insert_pos_bounds<T>(s: Seq<(Seq<char>, T)>, k: Seq<char>, j: int)
    requires
        0 <= j <= s.len(),
    ensures
        j <= insert_pos(s, k, j) <= s.len(),
    decreases s.len() - j,
{
    if j < s.len() && !text_less(k, s[j].0) {
        lemma_insert_pos_bounds(s, k, j + 1);
    }
}

proof fn lemma_sort_len<T>(s: Seq<(Seq<char>, T)>)
    ensures
        sort_by_text(s).len() == s.len(),
    decreases s.len(),
{
    if s.len() > 0 {
        let r = sort_by_text(s.drop_last());
        lemma_sort_len(s.drop_last());
        lemma_insert_pos_bounds(r, s.last().0, 0);
    }
}

/// Sorts keyed entries by key, keeping the order of equal keys.
fn sort_keyed<T>(items: Vec<(Vec<char>, T)>) -> (r: Vec<T>)
    ensures
        r@ == unkeyed(sort_by_text(keyed_views(items@))),
{
    let ghost orig = keyed_views(items@);
    let mut rest = items;
    let mut out: Vec<(Vec<char>, T)> = Vec::new();
    let ghost mut k: int = 0;
    while rest.len() > 0
        invariant
            0 <= k <= orig.len(),
            keyed_views(rest@) == orig.subrange(k, orig.len() as int),
            keyed_views(out@) == sort_by_text(orig.take(k)),
        decreases rest@.len(),
    {
        let ghost before = keyed_views(out@);
        assert(keyed_views(rest@).len() == rest@.len());
        assert(k < orig.len());
        assert(orig.take(k + 1).drop_last() =~= orig.take(k));
        assert(keyed_views(rest@)[0] == orig[k]);
        let ghost old_rest = rest@;
        let x = rest.remove(0);
        assert forall|i: int| 0 <= i < rest@.len() implies keyed_views(rest@)[i] == orig[k + 1 + i] by {
            assert(rest@[i] == old_rest[i + 1]);
            assert(keyed_views(old_rest)[i + 1] == orig[k + 1 + i]);
        }
        assert(keyed_views(rest@) =~= orig.subrange(k + 1, orig.len() as int));
        let mut j: usize = 0;
        while j < out.len() && !text_lt(x.0.as_slice(), out[j].0.as_slice())
            invariant
                j <= out@.len(),
                keyed_views(out@) == before,
                insert_pos(before, x.0@, 0) == insert_pos(before, x.0@, j as int),
            decreases out@.len() - j,
        {
            assert(before[j as int] == (out@[j as int].0@, out@[j as int].1));
            j = j + 1;
        }
        proof {
            if j < out@.len() {
                assert(before[j as int] == (out@[j as int].0@, out@[j as int].1));
            }
            assert(insert_pos(before, x.0@, j as int) == j);
        }
        let ghost xv = (x.0@, x.1);
        out.insert(j, x);
        assert(keyed_views(out@) =~= before.insert(j as int, xv));
        proof {
            k = k + 1;
        }
    }
    assert(orig.take(k) =~= orig);
    let ghost sorted = keyed_views(out@);
    let mut r: Vec<T> = Vec::new();
    let mut src = out;
    let ghost mut m: int = 0;
    while src.len() > 0
        invariant
            0 <= m <= sorted.len(),
            keyed_views(src@) == sorted.subrange(m, sorted.len() as int),
            r@ == unkeyed(sorted).take(m),
        decreases src@.len(),
    {
        assert(keyed_views(src@).len() == src@.len());
        assert(m < sorted.len());
        assert(keyed_views(src@)[0] == sorted[m]);
        let ghost old_src = src@;
        let (_key, v) = src.remove(0);
        assert forall|i: int| 0 <= i < src@.len() implies keyed_views(src@)[i] == sorted[m + 1 + i] by {
            assert(src@[i] == old_src[i + 1]);
            assert(keyed_views(old_src)[i + 1] == sorted[m + 1 + i]);
        }
        assert(keyed_views(src@) =~= sorted.subrange(m + 1, sorted.len() as int));
        r.push(v);
        proof {
            m = m + 1;
        }
        assert(r@ =~= unkeyed(sorted).take(m));
    }
    assert(unkeyed(sorted).take(m) =~= unkeyed(sorted));
    r
}

/// The kind of a pragma, in printing order: version, identifier, string.
pub open spec fn pragma_kind(p: PragmaDirective) -> int {
    match p {
        PragmaDirective::Version(_) => 0,
        PragmaDirective::Identifier(_, _) => 1,
        PragmaDirective::StringLiteral(_, _) => 2,
    }
}

/// The pragmas of kind `k`, in their order.
pub open spec fn of_kind(s: Seq<CommentedElement<PragmaDirective>>, k: int) -> Seq<
    CommentedElement<PragmaDirective>,
>
    decreases s.len(),
{
    if s.len() == 0 {
        s
    } else {
        let r = of_kind(s.drop_last(), k);
        if pragma_kind(s.last().element) == k {
            r.push(s.last())
        } else {
            r
        }
    }
}

/// Pragmas keyed by their first identifier.
pub open spec fn by_first_name(s: Seq<CommentedElement<PragmaDirective>>) -> Seq<
    (Seq<char>, CommentedElement<PragmaDirective>),
> {
    s.map_values(
        |e: CommentedElement<PragmaDirective>| (identifier_first_name(e.element), e),
    )
}

/// Pragmas keyed by their string-literal identifier.
pub open spec fn by_literal_name(s: Seq<CommentedElement<PragmaDirective>>) -> Seq<
    (Seq<char>, CommentedElement<PragmaDirective>),
> {
    s.map_values(|e: CommentedElement<PragmaDirective>| (string_literal_name(e.element), e))
}

/// The version pragma with the highest version, if there is one.
pub open spec fn highest_of(vs: Seq<CommentedElement<PragmaDirective>>) -> Seq<
    CommentedElement<PragmaDirective>,
> {
    if vs.len() == 0 {
        Seq::empty()
    } else {
        seq![vs[highest_index(pragma_versions(vs), vs.len() as int)]]
    }
}

/// Pragmas in printing order: the one highest version pragma, then identifier
/// pragmas by first identifier, then string-literal pragmas by identifier;
/// the two sorts keep the order of equal names.
pub open spec fn ordered_pragmas(ps: Seq<CommentedElement<PragmaDirective>>) -> Seq<
    CommentedElement<PragmaDirective>,
> {
    highest_of(of_kind(ps, 0)) + unkeyed(sort_by_text(by_first_name(of_kind(ps, 1)))) + unkeyed(
        sort_by_text(by_literal_name(of_kind(ps, 2))),
    )
}

/// Orders pragma directives: only the highest version pragma is kept, then
/// identifier pragmas sorted by first identifier, then string-literal pragmas
/// sorted by identifier.
pub fn order_pragmas(pragmas: Vec<CommentedElement<PragmaDirective>>) -> (r: Vec<
    CommentedElement<PragmaDirective>,
>)
    ensures
        r@ == ordered_pragmas(pragmas@),
{
    let ghost orig = pragmas@;
    let mut rest = pragmas;
    let mut versions: Vec<CommentedElement<PragmaDirective>> = Vec::new();
    let mut idents: Vec<(Vec<char>, CommentedElement<PragmaDirective>)> = Vec::new();
    let mut strs: Vec<(Vec<char>, CommentedElement<PragmaDirective>)> = Vec::new();
    let ghost mut k: int = 0;
    while rest.len() > 0
        invariant
            0 <= k <= orig.len(),
            rest@ == orig.subrange(k, orig.len() as int),
            versions@ == of_kind(orig.take(k), 0),
            keyed_views(idents@) == by_first_name(of_kind(orig.take(k), 1)),
            keyed_views(strs@) == by_literal_name(of_kind(orig.take(k), 2)),
        decreases rest@.len(),
    {
        let ghost t = orig.take(k + 1);
        assert(t.drop_last() =~= orig.take(k));
        assert(t.last() == rest@[0]);
        let x = rest.remove(0);
        assert(rest@ =~= orig.subrange(k + 1, orig.len() as int));
        match &x.element {
            PragmaDirective::Version(_) => {
                versions.push(x);
            },
            PragmaDirective::Identifier(_, _) => {
                let name = get_identifier_pragma_first_name(&x.element);
                let key = chars_of(name.as_str());
                let ghost before = keyed_views(idents@);
                let ghost kv = (key@, x);
                idents.push((key, x));
                assert(keyed_views(idents@) =~= before.push(kv));
                assert(by_first_name(of_kind(t, 1)) =~= by_first_name(of_kind(orig.take(k), 1)).push(
                    kv,
                ));
            },
            PragmaDirective::StringLiteral(_, _) => {
                let name = get_string_literal_pragma_name(&x.element);
                let key = chars_of(name.as_str());
                let ghost before = keyed_views(strs@);
                let ghost kv = (key@, x);
                strs.push((key, x));
                assert(keyed_views(strs@) =~= before.push(kv));
                assert(by_literal_name(of_kind(t, 2)) =~= by_literal_name(
                    of_kind(orig.take(k), 2),
                ).push(kv));
            },
        }
        proof {
            k = k + 1;
        }
    }
    assert(orig.take(k) =~= orig);
    let ghost vs = versions@;
    let mut r: Vec<CommentedElement<PragmaDirective>> = Vec::new();
    match find_highest_version_pragma(versions) {
        Some(h) => r.push(h),
        None => {},
    }
    assert(r@ =~= highest_of(vs));
    let mut sorted_idents = sort_keyed(idents);
    let mut sorted_strs = sort_keyed(strs);
    r.append(&mut sorted_idents);
    r.append(&mut sorted_strs);
    r
}

/// The group of an import, which decides its place and the blank lines
/// around it.
#[derive(Debug, Clone, Copy, PartialEq, Eq, Structural)]
pub enum ImportGroup {
    /// Paths that start with `@`.
    External,
    /// Paths that start with `interfaces`.
    Interfaces,
    /// Every other path.
    Local,
}

/// The group of an import path.
pub open spec fn group_of(path: Seq<char>) -> ImportGroup {
    if has_prefix(path, "@"@) {
        ImportGroup::External
    } else if has_prefix(path, "interfaces"@) {
        ImportGroup::Interfaces
    } else {
        ImportGroup::Local
    }
}

/// The group of an import.
pub fn get_import_group(import: &Import) -> (g: ImportGroup)
    ensures
        g == group_of(import_text(*import)),
{
    let path = get_import_path_string(import);
    let cs = chars_of(path.as_str());
    let at: Vec<char> = vec!['@'];
    let interfaces = chars_of("interfaces");
    proof {
        reveal_strlit("@");
        assert(at@ =~= "@"@);
    }
    if starts_with(cs.as_slice(), at.as_slice()) {
        ImportGroup::External
    } else if starts_with(cs.as_slice(), interfaces.as_slice()) {
        ImportGroup::Interfaces
    } else {
        ImportGroup::Local
    }
}

/// The imports of group `g`, in their order.
pub open spec fn imports_in_group(s: Seq<CommentedElement<Import>>, g: ImportGroup) -> Seq<
    CommentedElement<Import>,
>
    decreases s.len(),
{
    if s.len() == 0 {
        s
    } else {
        let r = imports_in_group(s.drop_last(), g);
        if group_of(import_text(s.last().element)) == g {
            r.push(s.last())
        } else {
            r
        }
    }
}

/// Imports keyed by their lowercased path.
pub open spec fn by_lowercase_path(s: Seq<CommentedElement<Import>>) -> Seq<
    (Seq<char>, CommentedElement<Import>),
> {
    s.map_values(|e: CommentedElement<Import>| (lowercase(import_text(e.element)), e))
}

/// The imports of group `g` sorted by lowercased path, equal paths in their
/// order.
pub open spec fn sorted_group(s: Seq<CommentedElement<Import>>, g: ImportGroup) -> Seq<
    CommentedElement<Import>,
> {
    unkeyed(sort_by_text(by_lowercase_path(imports_in_group(s, g))))
}

/// Splits imports into their groups and sorts each group by path, ignoring
/// case.
pub fn order_commented_imports(imports: Vec<CommentedElement<Import>>) -> (r:
    GroupedCommentedImports)
    ensures
        r.external@ == sorted_group(imports@, ImportGroup::External),
        r.interfaces@ == sorted_group(imports@, ImportGroup::Interfaces),
        r.local@ == sorted_group(imports@, ImportGroup::Local),
{
    let ghost orig = imports@;
    let mut rest = imports;
    let mut external: Vec<(Vec<char>, CommentedElement<Import>)> = Vec::new();
    let mut interfaces: Vec<(Vec<char>, CommentedElement<Import>)> = Vec::new();
    let mut local: Vec<(Vec<char>, CommentedElement<Import>)> = Vec::new();
    let ghost mut k: int = 0;
    while rest.len() > 0
        invariant
            0 <= k <= orig.len(),
            rest@ == orig.subrange(k, orig.len() as int),
            keyed_views(external@) == by_lowercase_path(
                imports_in_group(orig.take(k), ImportGroup::External),
            ),
            keyed_views(interfaces@) == by_lowercase_path(
                imports_in_group(orig.take(k), ImportGroup::Interfaces),
            ),
            keyed_views(local@) == by_lowercase_path(
                imports_in_group(orig.take(k), ImportGroup::Local),
            ),
        decreases rest@.len(),
    {
        let ghost t = orig.take(k + 1);
        assert(t.drop_last() =~= orig.take(k));
        assert(t.last() == rest@[0]);
        let x = rest.remove(0);
        assert(rest@ =~= orig.subrange(k + 1, orig.len() as int));
        let g = get_import_group(&x.element);
        let path = get_import_path_string(&x.element);
        let lower = to_lowercase(path.as_str());
        let key = chars_of(lower.as_str());
        let ghost kv = (key@, x);
        let ghost e0 = keyed_views(external@);
        let ghost i0 = keyed_views(interfaces@);
        let ghost l0 = keyed_views(local@);
        match g {
            ImportGroup::External => {
                external.push((key, x));
                assert(keyed_views(external@) =~= e0.push(kv));
            },
            ImportGroup::Interfaces => {
                interfaces.push((key, x));
                assert(keyed_views(interfaces@) =~= i0.push(kv));
            },
            ImportGroup::Local => {
                local.push((key, x));
                assert(keyed_views(local@) =~= l0.push(kv));
            },
        }
        assert(by_lowercase_path(imports_in_group(t, g)) =~= by_lowercase_path(
            imports_in_group(orig.take(k), g),
        ).push(kv));
        proof {
            k = k + 1;
        }
    }
    assert(orig.take(k) =~= orig);
    GroupedCommentedImports {
        external: sort_keyed(external),
        interfaces: sort_keyed(interfaces),
        local: sort_keyed(local),
    }
}

/// Imports in printing order: external, then interfaces, then local, each
/// group sorted by path ignoring case.
pub open spec fn ordered_imports(s: Seq<CommentedElement<Import>>) -> Seq<CommentedElement<Import>> {
    sorted_group(s, ImportGroup::External) + sorted_group(s, ImportGroup::Interfaces)
        + sorted_group(s, ImportGroup::Local)
}

/// Orders imports: the groups one after the other, each sorted.
pub fn order_imports_commented(imports: Vec<CommentedElement<Import>>) -> (r: Vec<
    CommentedElement<Import>,
>)
    ensures
        r@ == ordered_imports(imports@),
{
    let grouped = order_commented_imports(imports);
    let GroupedCommentedImports { external, interfaces, local } = grouped;
    let mut r = external;
    let mut i = interfaces;
    let mut l = local;
    r.append(&mut i);
    r.append(&mut l);
    r
}

/// The place of a contract kind: libraries, interfaces, abstract contracts,
/// contracts.
pub open spec fn contract_rank(t: ContractTy) -> int {
    match t {
        ContractTy::Library => 0,
        ContractTy::Interface => 1,
        ContractTy::Abstract => 2,
        ContractTy::Contract => 3,
    }
}

/// The contracts of rank `k`, in their order.
pub open spec fn contracts_of_rank(s: Seq<CollectedContract>, k: int) -> Seq<CollectedContract>
    decreases s.len(),
{
    if s.len() == 0 {
        s
    } else {
        let r = contracts_of_rank(s.drop_last(), k);
        if contract_rank(s.last().definition.element.ty) == k {
            r.push(s.last())
        } else {
            r
        }
    }
}

/// Contracts in printing order: libraries, interfaces, abstract contracts,
/// then contracts, each kind in its original order.
pub open spec fn ordered_contracts(s: Seq<CollectedContract>) -> Seq<CollectedContract> {
    contracts_of_rank(s, 0) + contracts_of_rank(s, 1) + contracts_of_rank(s, 2)
        + contracts_of_rank(s, 3)
}

/// Orders contracts by kind, keeping the original order within each kind.
pub fn order_contracts(contracts: Vec<CollectedContract>) -> (r: Vec<CollectedContract>)
    ensures
        r@ == ordered_contracts(contracts@),
{
    let ghost orig = contracts@;
    let mut rest = contracts;
    let mut libraries: Vec<CollectedContract> = Vec::new();
    let mut interfaces: Vec<CollectedContract> = Vec::new();
    let mut abstracts: Vec<CollectedContract> = Vec::new();
    let mut concretes: Vec<CollectedContract> = Vec::new();
    let ghost mut k: int = 0;
    while rest.len() > 0
        invariant
            0 <= k <= orig.len(),
            rest@ == orig.subrange(k, orig.len() as int),
            libraries@ == contracts_of_rank(orig.take(k), 0),
            interfaces@ == contracts_of_rank(orig.take(k), 1),
            abstracts@ == contracts_of_rank(orig.take(k), 2),
            concretes@ == contracts_of_rank(orig.take(k), 3),
        decreases rest@.len(),
    {
        let ghost t = orig.take(k + 1);
        assert(t.drop_last() =~= orig.take(k));
        assert(t.last() == rest@[0]);
        let x = rest.remove(0);
        assert(rest@ =~= orig.subrange(k + 1, orig.len() as int));
        match x.definition.element.ty {
            ContractTy::Library => libraries.push(x),
            ContractTy::Interface => interfaces.push(x),
            ContractTy::Abstract => abstracts.push(x),
            ContractTy::Contract => concretes.push(x),
        }
        proof {
            k = k + 1;
        }
    }
    assert(orig.take(k) =~= orig);
    let mut r = libraries;
    r.append(&mut interfaces);
    r.append(&mut abstracts);
    r.append(&mut concretes);
    r
}

/// Puts the elements in printing order: pragmas, imports and contracts are
/// ordered; every other list is kept as it is.
pub fn order_collected_elements(elements: CollectedElements) -> (r: CollectedElements)
    ensures
        r.pragmas@ == ordered_pragmas(elements.pragmas@),
        r.imports@ == ordered_imports(elements.imports@),
        r.contracts@ == ordered_contracts(elements.contracts@),
        r.using_directives == elements.using_directives,
        r.errors == elements.errors,
        r.types == elements.types,
        r.enums == elements.enums,
        r.structs == elements.structs,
        r.functions == elements.functions,
        r.variables == elements.variables,
        r.standalone_comments == elements.standalone_comments,
{
    let CollectedElements {
        pragmas,
        imports,
        using_directives,
        errors,
        types,
        enums,
        structs,
        functions,
        variables,
        contracts,
        standalone_comments,
    } = elements;
    CollectedElements {
        pragmas: order_pragmas(pragmas),
        imports: order_imports_commented(imports),
        using_directives,
        errors,
        types,
        enums,
        structs,
        functions,
        variables,
        contracts: order_contracts(contracts),
        standalone_comments,
    }
}

/// Keyed entries in order of their keys.
pub open spec fn sorted_by_text<T>(s: Seq<(Seq<char>, T)>) -> bool {
    forall|i: int, j: int| 0 <= i < j < s.len() ==> !text_less(#[trigger] s[j].0, #[trigger] s[i].0)
}

proof fn lemma_insert_pos<T>(s: Seq<(Seq<char>, T)>, k: Seq<char>, j: int)
    requires
        0 <= j <= s.len(),
    ensures
        j <= insert_pos(s, k, j) <= s.len(),
        forall|i: int| j <= i < insert_pos(s, k, j) ==> !text_less(k, #[trigger] s[i].0),
        insert_pos(s, k, j) < s.len() ==> text_less(k, s[insert_pos(s, k, j)].0),
    decreases s.len() - j,
{
    if j < s.len() && !text_less(k, s[j].0) {
        lemma_insert_pos(s, k, j + 1);
    }
}

/// The sort puts the entries in order of their keys.
pub proof fn law_sort_sorted<T>(s: Seq<(Seq<char>, T)>)
    ensures
        sorted_by_text(sort_by_text(s)),
    decreases s.len(),
{
    if s.len() > 0 {
        let r = sort_by_text(s.drop_last());
        let x = s.last();
        law_sort_sorted(s.drop_last());
        lemma_sort_len(s.drop_last());
        lemma_insert_pos(r, x.0, 0);
        let p = insert_pos(r, x.0, 0);
        let q = r.insert(p, x);
        assert forall|a: int, b: int| 0 <= a < b < q.len() implies !text_less(
            #[trigger] q[b].0,
            #[trigger] q[a].0,
        ) by {
            if a < p && b < p {
                assert(q[a] == r[a] && q[b] == r[b]);
            } else if a < p && b == p {
                assert(q[a] == r[a]);
            } else if a < p {
                assert(q[a] == r[a] && q[b] == r[b - 1]);
            } else if a == p {
                assert(q[b] == r[b - 1]);
                if text_less(r[b - 1].0, x.0) {
                    lemma_text_less_transitive(r[b - 1].0, x.0, r[p].0);
                    if b - 1 == p {
                        lemma_text_less_irreflexive(r[p].0);
                    }
                }
            } else {
                assert(q[a] == r[a - 1] && q[b] == r[b - 1]);
            }
        }
    }
}

/// The sort keeps every entry, each as often as it was there.
pub proof fn law_sort_permutes<T>(s: Seq<(Seq<char>, T)>)
    ensures
        sort_by_text(s).to_multiset() == s.to_multiset(),
    decreases s.len(),
{
    broadcast use vstd::seq_lib::group_to_multiset_ensures;

    if s.len() > 0 {
        let r = sort_by_text(s.drop_last());
        law_sort_permutes(s.drop_last());
        lemma_sort_len(s.drop_last());
        lemma_insert_pos(r, s.last().0, 0);
        vstd::seq_lib::to_multiset_insert(r, insert_pos(r, s.last().0, 0), s.last());
        assert(s =~= s.drop_last().push(s.last()));
    }
}

proof fn lemma_rank_members(s: Seq<CollectedContract>, k: int)
    ensures
        forall|i: int|
            0 <= i < contracts_of_rank(s, k).len() ==> contract_rank(
                #[trigger] contracts_of_rank(s, k)[i].definition.element.ty,
            ) == k,
    decreases s.len(),
{
    if s.len() > 0 {
        lemma_rank_members(s.drop_last(), k);
    }
}

proof fn lemma_rank_multiset(s: Seq<CollectedContract>)
    ensures
        contracts_of_rank(s, 0).to_multiset().add(contracts_of_rank(s, 1).to_multiset()).add(
            contracts_of_rank(s, 2).to_multiset(),
        ).add(contracts_of_rank(s, 3).to_multiset()) == s.to_multiset(),
    decreases s.len(),
{
    broadcast use vstd::seq_lib::group_to_multiset_ensures;
    broadcast use vstd::multiset::group_multiset_axioms;

    if s.len() == 0 {
        assert(s.to_multiset() =~= vstd::multiset::Multiset::empty());
        assert(contracts_of_rank(s, 0).to_multiset().add(contracts_of_rank(s, 1).to_multiset()).add(
            contracts_of_rank(s, 2).to_multiset(),
        ).add(contracts_of_rank(s, 3).to_multiset()) =~= s.to_multiset());
    } else {
        lemma_rank_multiset(s.drop_last());
        assert(s =~= s.drop_last().push(s.last()));
        assert(contracts_of_rank(s, 0).to_multiset().add(contracts_of_rank(s, 1).to_multiset()).add(
            contracts_of_rank(s, 2).to_multiset(),
        ).add(contracts_of_rank(s, 3).to_multiset()) =~= s.to_multiset());
    }
}

/// Ordering contracts keeps every contract and puts libraries first, then
/// interfaces, then abstract contracts, then contracts.
pub proof fn law_order_contracts(s: Seq<CollectedContract>)
    ensures
        ordered_contracts(s).to_multiset() == s.to_multiset(),
        forall|i: int, j: int|
            0 <= i < j < ordered_contracts(s).len() ==> contract_rank(
                #[trigger] ordered_contracts(s)[i].definition.element.ty,
            ) <= contract_rank(#[trigger] ordered_contracts(s)[j].definition.element.ty),
{
    broadcast use vstd::seq_lib::lemma_multiset_commutative;

    let r0 = contracts_of_rank(s, 0);
    let r1 = contracts_of_rank(s, 1);
    let r2 = contracts_of_rank(s, 2);
    let r3 = contracts_of_rank(s, 3);
    lemma_rank_multiset(s);
    vstd::seq_lib::lemma_multiset_commutative(r0, r1);
    vstd::seq_lib::lemma_multiset_commutative(r0 + r1, r2);
    vstd::seq_lib::lemma_multiset_commutative(r0 + r1 + r2, r3);
    lemma_rank_members(s, 0);
    lemma_rank_members(s, 1);
    lemma_rank_members(s, 2);
    lemma_rank_members(s, 3);
    let o = ordered_contracts(s);
    let a = r0.len() as int;
    let b = a + r1.len();
    let c = b + r2.len();
    assert forall|i: int| 0 <= i < o.len() implies #[trigger] contract_rank(o[i].definition.element.ty) == (if i < a {
        0int
    } else if i < b {
        1
    } else if i < c {
        2
    } else {
        3
    }) by {
        if i < r0.len() {
            assert(o[i] == r0[i]);
        } else if i < r0.len() + r1.len() {
            assert(o[i] == r1[i - r0.len()]);
        } else if i < r0.len() + r1.len() + r2.len() {
            assert(o[i] == r2[i - r0.len() - r1.len()]);
        } else {
            assert(o[i] == r3[i - r0.len() - r1.len() - r2.len()]);
        }
    }
}

} // verus!
