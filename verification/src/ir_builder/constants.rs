//! The order in which constants are placed before the structs whose array
//! sizes use them: each constant after the constants its value refers to.
use vstd::prelude::*;
use crate::model::{CollectedStruct, CommentedElement, StructMember};
use crate::text::{chars_equal, chars_of, slice_chars, str_views, string_from, text_less, text_lt, views};

verus! {

/// A table of constants: each name with the names its value refers to.
pub type ConstTable = Seq<(Seq<char>, Seq<Seq<char>>)>;

/// The names that the first constant called `name` refers to, if there is
/// such a constant.
pub open spec fn refs_of(t: ConstTable, name: Seq<char>) -> Option<Seq<Seq<char>>>
    decreases t.len(),
{
    if t.len() == 0 {
        None
    } else if t[0].0 == name {
        Some(t[0].1)
    } else {
        refs_of(t.drop_first(), name)
    }
}

/// Whether `name` is a constant of the table.
pub open spec fn is_constant(t: ConstTable, name: Seq<char>) -> bool {
    refs_of(t, name) is Some
}

/// Where `x` goes in the increasing `r`: after every name not greater.
pub open spec fn text_insert_pos(r: Seq<Seq<char>>, x: Seq<char>) -> int
    decreases r.len(),
{
    if r.len() == 0 {
        0
    } else if text_less(x, r[0]) {
        0
    } else {
        1 + text_insert_pos(r.drop_first(), x)
    }
}

/// The distinct names of `s` in increasing order, each inserted in turn.
pub open spec fn sorted_unique(s: Seq<Seq<char>>) -> Seq<Seq<char>>
    decreases s.len(),
{
    if s.len() == 0 {
        Seq::empty()
    } else {
        let r = sorted_unique(s.drop_last());
        if r.contains(s.last()) {
            r
        } else {
            r.insert(text_insert_pos(r, s.last()), s.last())
        }
    }
}

/// How many constants of the table are not among `p`.
pub open spec fn pending(t: ConstTable, p: Seq<Seq<char>>) -> nat
    decreases t.len(),
{
    if t.len() == 0 {
        0
    } else {
        pending(t.drop_first(), p) + if p.contains(t[0].0) {
            0nat
        } else {
            1nat
        }
    }
}

/// Adding a constant that was not yet among `p` leaves fewer pending.
pub proof fn lemma_pending_push(t: ConstTable, p: Seq<Seq<char>>, n: Seq<char>)
    ensures
        pending(t, p.push(n)) <= pending(t, p),
        is_constant(t, n) && !p.contains(n) ==> pending(t, p.push(n)) < pending(t, p),
    decreases t.len(),
{
    if t.len() > 0 {
        lemma_pending_push(t.drop_first(), p, n);
        if t[0].0 == n {
            assert(p.push(n).contains(n)) by {
                assert(p.push(n)[p.len() as int] == n);
            }
        }
        assert forall|x: Seq<char>| p.contains(x) implies p.push(n).contains(x) by {
            let k = choose|k: int| 0 <= k < p.len() && p[k] == x;
            assert(p.push(n)[k] == x);
        }
    }
}

/// Depth-first visit of `name` with the names in progress `p` and the
/// result so far `r`: unless it is done or in progress, the constants it
/// refers to are visited in increasing order, then it is appended.
pub open spec fn dfs_visit(t: ConstTable, name: Seq<char>, p: Seq<Seq<char>>, r: Seq<Seq<char>>) -> Seq<
    Seq<char>,
>
    decreases pending(t, p), 0int, 0int,
{
    if r.contains(name) || p.contains(name) {
        r
    } else {
        match refs_of(t, name) {
            Some(refs) => {
                proof {
                    lemma_pending_push(t, p, name);
                }
                dfs_visit_all(t, sorted_unique(refs), p.push(name), r).push(name)
            },
            None => r.push(name),
        }
    }
}

/// Visits, in order, those of `ds` that are constants.
pub open spec fn dfs_visit_all(t: ConstTable, ds: Seq<Seq<char>>, p: Seq<Seq<char>>, r: Seq<Seq<char>>) -> Seq<
    Seq<char>,
>
    decreases pending(t, p), 1int, ds.len(),
{
    if ds.len() == 0 {
        r
    } else {
        let r1 = if is_constant(t, ds[0]) {
            dfs_visit(t, ds[0], p, r)
        } else {
            r
        };
        dfs_visit_all(t, ds.drop_first(), p, r1)
    }
}

/// The result after visiting each of `req` in turn, starting from `r`.
pub open spec fn resolve_from(t: ConstTable, req: Seq<Seq<char>>, r: Seq<Seq<char>>) -> Seq<Seq<char>>
    decreases req.len(),
{
    if req.len() == 0 {
        r
    } else {
        resolve_from(t, req.drop_first(), dfs_visit(t, req[0], Seq::empty(), r))
    }
}

/// The required names with the constants they need, dependencies first.
pub open spec fn resolved_order(t: ConstTable, req: Seq<Seq<char>>) -> Seq<Seq<char>> {
    resolve_from(t, req, Seq::empty())
}

/// The views of a table held as character vectors.
pub open spec fn const_views(t: Seq<(Vec<char>, Vec<Vec<char>>)>) -> ConstTable {
    t.map_values(|e: (Vec<char>, Vec<Vec<char>>)| (e.0@, views(e.1@)))
}

/// Whether `x` is among `v`.
pub(crate) fn has_name(v: &Vec<Vec<char>>, x: &[char]) -> (b: bool)
    ensures
        b == views(v@).contains(x@),
{
    let mut i: usize = 0;
    while i < v.len()
        invariant
            i <= v@.len(),
            forall|k: int| 0 <= k < i ==> views(v@)[k] != x@,
        decreases v@.len() - i,
    {
        if chars_equal(v[i].as_slice(), x) {
            assert(views(v@)[i as int] == x@);
            return true;
        }
        i = i + 1;
    }
    false
}

/// The index of the first constant called `name`, if any.
fn find_constant(t: &Vec<(Vec<char>, Vec<Vec<char>>)>, name: &[char]) -> (r: Option<usize>)
    ensures
        match r {
            Some(i) => i < t@.len() && refs_of(const_views(t@), name@) == Some(views(t@[i as int].1@)),
            None => refs_of(const_views(t@), name@) is None,
        },
{
    let ghost tv = const_views(t@);
    let mut i: usize = 0;
    assert(tv.subrange(0, tv.len() as int) =~= tv);
    while i < t.len()
        invariant
            i <= t@.len(),
            tv == const_views(t@),
            refs_of(tv, name@) == refs_of(tv.subrange(i as int, tv.len() as int), name@),
        decreases t@.len() - i,
    {
        let ghost rest = tv.subrange(i as int, tv.len() as int);
        assert(rest[0] == (t@[i as int].0@, views(t@[i as int].1@)));
        if chars_equal(t[i].0.as_slice(), name) {
            return Some(i);
        }
        assert(rest.drop_first() =~= tv.subrange(i + 1, tv.len() as int));
        i = i + 1;
    }
    None
}

/// A copy of the characters.
fn copy_chars(x: &[char]) -> (r: Vec<char>)
    ensures
        r@ == x@,
{
    let n = x.len();
    let r = slice_chars(x, 0, n);
    assert(r@ =~= x@);
    r
}

/// `text_insert_pos` computed from the front.
proof fn lemma_text_insert_pos(r: Seq<Seq<char>>, x: Seq<char>, j: int)
    requires
        0 <= j <= r.len(),
        forall|k: int| 0 <= k < j ==> !text_less(x, #[trigger] r[k]),
    ensures
        text_insert_pos(r, x) == j + text_insert_pos(r.subrange(j, r.len() as int), x),
    decreases j,
{
    if j == 0 {
        assert(r.subrange(0, r.len() as int) =~= r);
    } else {
        lemma_text_insert_pos(r.drop_first(), x, j - 1);
        assert(r.drop_first().subrange(j - 1, r.len() - 1) =~= r.subrange(j, r.len() as int));
    }
}

/// The distinct names of `s` in increasing order.
fn sorted_unique_of(s: &Vec<Vec<char>>) -> (r: Vec<Vec<char>>)
    ensures
        views(r@) == sorted_unique(views(s@)),
{
    let mut r: Vec<Vec<char>> = Vec::new();
    let mut i: usize = 0;
    assert(views(s@).take(0) =~= Seq::<Seq<char>>::empty());
    assert(views(r@) =~= Seq::<Seq<char>>::empty());
    while i < s.len()
        invariant
            i <= s@.len(),
            views(r@) == sorted_unique(views(s@).take(i as int)),
        decreases s@.len() - i,
    {
        let ghost sv = views(s@);
        assert(sv.take(i + 1).drop_last() =~= sv.take(i as int));
        assert(sv.take(i + 1).last() == s@[i as int]@);
        let x = s[i].as_slice();
        if !has_name(&r, x) {
            let mut j: usize = 0;
            while j < r.len() && !text_lt(x, r[j].as_slice())
                invariant
                    j <= r@.len(),
                    forall|k: int| 0 <= k < j ==> !text_less(x@, #[trigger] views(r@)[k]),
                decreases r@.len() - j,
            {
                j = j + 1;
            }
            proof {
                let rv = views(r@);
                lemma_text_insert_pos(rv, x@, j as int);
                if j < r@.len() {
                    assert(rv.subrange(j as int, rv.len() as int)[0] == rv[j as int]);
                } else {
                    assert(rv.subrange(j as int, rv.len() as int) =~= Seq::<Seq<char>>::empty());
                }
            }
            let ghost before = views(r@);
            r.insert(j, copy_chars(x));
            assert(views(r@) =~= before.insert(j as int, x@));
        }
        i = i + 1;
    }
    assert(views(s@).take(i as int) =~= views(s@));
    r
}

/// Visits `name`: returns the names in progress (unchanged) and the result.
fn visit(
    t: &Vec<(Vec<char>, Vec<Vec<char>>)>,
    name: &[char],
    p: Vec<Vec<char>>,
    r: Vec<Vec<char>>,
) -> (out: (Vec<Vec<char>>, Vec<Vec<char>>))
    ensures
        views(out.0@) == views(p@),
        views(out.1@) == dfs_visit(const_views(t@), name@, views(p@), views(r@)),
    decreases pending(const_views(t@), views(p@)), 0int, 0int,
{
    let ghost tv = const_views(t@);
    if has_name(&r, name) || has_name(&p, name) {
        return (p, r);
    }
    match find_constant(t, name) {
        Some(i) => {
            let deps = sorted_unique_of(&t[i].1);
            let ghost pv = views(p@);
            let mut p = p;
            p.push(copy_chars(name));
            assert(views(p@) =~= pv.push(name@));
            proof {
                lemma_pending_push(tv, pv, name@);
            }
            let (mut p2, mut r2) = visit_all(t, &deps, p, r);
            let ghost pb = views(p2@);
            assert(pb == pv.push(name@));
            p2.pop();
            assert(views(p2@) =~= pb.drop_last());
            assert(pb.drop_last() =~= pv);
            let ghost rv = views(r2@);
            r2.push(copy_chars(name));
            assert(views(r2@) =~= rv.push(name@));
            (p2, r2)
        },
        None => {
            let ghost rv = views(r@);
            let mut r = r;
            r.push(copy_chars(name));
            assert(views(r@) =~= rv.push(name@));
            (p, r)
        },
    }
}

/// Visits, in order, those of `ds` that are constants.
fn visit_all(
    t: &Vec<(Vec<char>, Vec<Vec<char>>)>,
    ds: &Vec<Vec<char>>,
    p_in: Vec<Vec<char>>,
    r_in: Vec<Vec<char>>,
) -> (out: (Vec<Vec<char>>, Vec<Vec<char>>))
    ensures
        views(out.0@) == views(p_in@),
        views(out.1@) == dfs_visit_all(const_views(t@), views(ds@), views(p_in@), views(r_in@)),
    decreases pending(const_views(t@), views(p_in@)), 1int, ds@.len(),
{
    let ghost tv = const_views(t@);
    let ghost pv = views(p_in@);
    let ghost dv = views(ds@);
    let ghost target = dfs_visit_all(tv, dv, pv, views(r_in@));
    let mut p = p_in;
    let mut r = r_in;
    let mut i: usize = 0;
    assert(dv.skip(0) =~= dv);
    while i < ds.len()
        invariant
            i <= ds@.len(),
            tv == const_views(t@),
            dv == views(ds@),
            pv == views(p_in@),
            views(p@) == pv,
            target == dfs_visit_all(tv, dv.skip(i as int), pv, views(r@)),
        decreases ds@.len() - i,
    {
        assert(dv.skip(i as int)[0] == ds@[i as int]@);
        assert(dv.skip(i as int).drop_first() =~= dv.skip(i + 1));
        if find_constant(t, ds[i].as_slice()).is_some() {
            let (p1, r1) = visit(t, ds[i].as_slice(), p, r);
            p = p1;
            r = r1;
        }
        i = i + 1;
    }
    assert(dv.skip(i as int) =~= Seq::<Seq<char>>::empty());
    (p, r)
}

/// The resolved order of `required` in the table `t`, as character vectors.
pub(crate) fn resolve_chars(required: &Vec<Vec<char>>, t: &Vec<(Vec<char>, Vec<Vec<char>>)>) -> (r: Vec<Vec<char>>)
    ensures
        views(r@) == resolved_order(const_views(t@), views(required@)),
{
    let ghost tv = const_views(t@);
    let ghost req = views(required@);
    let mut p: Vec<Vec<char>> = Vec::new();
    let mut res: Vec<Vec<char>> = Vec::new();
    let mut i: usize = 0;
    assert(req.skip(0) =~= req);
    assert(views(res@) =~= Seq::<Seq<char>>::empty());
    assert(views(p@) =~= Seq::<Seq<char>>::empty());
    while i < required.len()
        invariant
            i <= required@.len(),
            tv == const_views(t@),
            req == views(required@),
            views(p@) == Seq::<Seq<char>>::empty(),
            resolved_order(tv, req) == resolve_from(tv, req.skip(i as int), views(res@)),
        decreases required@.len() - i,
    {
        assert(req.skip(i as int)[0] == required@[i as int]@);
        assert(req.skip(i as int).drop_first() =~= req.skip(i + 1));
        let (p1, r1) = visit(t, required[i].as_slice(), p, res);
        p = p1;
        res = r1;
        i = i + 1;
    }
    assert(req.skip(i as int) =~= Seq::<Seq<char>>::empty());
    res
}

/// The views of a table held as strings.
pub open spec fn string_table_views(t: Seq<(String, Vec<String>)>) -> ConstTable {
    t.map_values(|e: (String, Vec<String>)| (e.0@, str_views(e.1@)))
}

/// The names `required`, each preceded by the constants of `constants` it
/// refers to (and those they refer to, in turn), each name once: a
/// depth-first walk that visits the references of a constant in increasing
/// order.
pub fn resolve_constant_deps_order(required: &[String], constants: &[(String, Vec<String>)]) -> (r: Vec<String>)
    ensures
        str_views(r@) == resolved_order(string_table_views(constants@), str_views(required@)),
{
    let mut t: Vec<(Vec<char>, Vec<Vec<char>>)> = Vec::new();
    let mut k: usize = 0;
    while k < constants.len()
        invariant
            k <= constants@.len(),
            const_views(t@) == string_table_views(constants@).take(k as int),
        decreases constants@.len() - k,
    {
        let mut refs: Vec<Vec<char>> = Vec::new();
        let mut j: usize = 0;
        while j < constants[k].1.len()
            invariant
                j <= constants@[k as int].1@.len(),
                k < constants@.len(),
                views(refs@) == str_views(constants@[k as int].1@).take(j as int),
            decreases constants@[k as int].1@.len() - j,
        {
            let ghost before = views(refs@);
            let x = chars_of(constants[k].1[j].as_str());
            let ghost xv = x@;
            refs.push(x);
            assert(views(refs@) =~= before.push(xv));
            assert(str_views(constants@[k as int].1@).take(j + 1) =~= str_views(constants@[k as int].1@).take(
                j as int,
            ).push(xv));
            j = j + 1;
        }
        assert(str_views(constants@[k as int].1@).take(j as int) =~= str_views(constants@[k as int].1@));
        let ghost before = const_views(t@);
        let key = chars_of(constants[k].0.as_str());
        let ghost ev = (key@, views(refs@));
        t.push((key, refs));
        assert(const_views(t@) =~= before.push(ev));
        assert(string_table_views(constants@).take(k + 1) =~= string_table_views(constants@).take(k as int).push(
            ev,
        ));
        k = k + 1;
    }
    assert(string_table_views(constants@).take(k as int) =~= string_table_views(constants@));
    let mut req: Vec<Vec<char>> = Vec::new();
    let mut i: usize = 0;
    while i < required.len()
        invariant
            i <= required@.len(),
            views(req@) == str_views(required@).take(i as int),
        decreases required@.len() - i,
    {
        let ghost before = views(req@);
        let x = chars_of(required[i].as_str());
        let ghost xv = x@;
        req.push(x);
        assert(views(req@) =~= before.push(xv));
        assert(str_views(required@).take(i + 1) =~= str_views(required@).take(i as int).push(xv));
        i = i + 1;
    }
    assert(str_views(required@).take(i as int) =~= str_views(required@));
    let res = resolve_chars(&req, &t);
    let mut out: Vec<String> = Vec::new();
    let mut j: usize = 0;
    while j < res.len()
        invariant
            j <= res@.len(),
            str_views(out@) == views(res@).take(j as int),
        decreases res@.len() - j,
    {
        let ghost before = str_views(out@);
        let x = string_from(res[j].as_slice());
        let ghost xv = x@;
        out.push(x);
        assert(str_views(out@) =~= before.push(xv));
        assert(views(res@).take(j + 1) =~= views(res@).take(j as int).push(xv));
        j = j + 1;
    }
    assert(views(res@).take(j as int) =~= views(res@));
    out
}

/// No name occurs twice.
pub open spec fn distinct_names(s: Seq<Seq<char>>) -> bool {
    forall|i: int, j: int| 0 <= i < j < s.len() ==> s[i] != s[j]
}

/// No name is in both.
pub open spec fn disjoint(a: Seq<Seq<char>>, b: Seq<Seq<char>>) -> bool {
    forall|x: Seq<char>| a.contains(x) ==> !b.contains(x)
}

/// The constant `x` refers to the constant `d`.
pub open spec fn depends_on(t: ConstTable, x: Seq<char>, d: Seq<char>) -> bool {
    &&& refs_of(t, x) matches Some(rs)
    &&& rs.contains(d)
    &&& is_constant(t, d)
}

/// Each name of `s` refers to the next.
pub open spec fn chain(t: ConstTable, s: Seq<Seq<char>>) -> bool {
    forall|i: int| 0 <= i < s.len() - 1 ==> depends_on(t, #[trigger] s[i], s[i + 1])
}

/// No constant refers to itself, directly or through others.
pub open spec fn acyclic(t: ConstTable) -> bool {
    forall|s: Seq<Seq<char>>| chain(t, s) && s.len() >= 2 ==> s[0] != s.last()
}

/// Every constant of `r` comes after the constants it refers to.
pub open spec fn deps_first(t: ConstTable, r: Seq<Seq<char>>) -> bool {
    forall|j: int, d: Seq<char>|
        0 <= j < r.len() && #[trigger] depends_on(t, r[j], d) ==> exists|i: int| 0 <= i < j && r[i] == d
}

proof fn lemma_text_insert_pos_bounds(r: Seq<Seq<char>>, x: Seq<char>)
    ensures
        0 <= text_insert_pos(r, x) <= r.len(),
    decreases r.len(),
{
    if r.len() > 0 {
        lemma_text_insert_pos_bounds(r.drop_first(), x);
    }
}

/// The sorted distinct names are exactly the names.
pub proof fn lemma_sorted_unique_contains(s: Seq<Seq<char>>, x: Seq<char>)
    ensures
        sorted_unique(s).contains(x) <==> s.contains(x),
    decreases s.len(),
{
    if s.len() > 0 {
        let r = sorted_unique(s.drop_last());
        lemma_sorted_unique_contains(s.drop_last(), x);
        if !r.contains(s.last()) {
            let k = text_insert_pos(r, s.last());
            lemma_text_insert_pos_bounds(r, s.last());
            let q = r.insert(k, s.last());
            if r.contains(x) {
                let i = choose|i: int| 0 <= i < r.len() && r[i] == x;
                if i < k {
                    assert(q[i] == x);
                } else {
                    assert(q[i + 1] == x);
                }
            }
            if q.contains(x) {
                let i = choose|i: int| 0 <= i < q.len() && q[i] == x;
                if i < k {
                    assert(r[i] == x);
                } else if i > k {
                    assert(r[i - 1] == x);
                }
            }
            assert(q[k] == s.last());
        } else {
            if x == s.last() {
                lemma_sorted_unique_contains(s.drop_last(), s.last());
            }
        }
        if s.drop_last().contains(x) {
            let i = choose|i: int| 0 <= i < s.len() - 1 && s.drop_last()[i] == x;
            assert(s[i] == x);
        }
        if s.contains(x) {
            let i = choose|i: int| 0 <= i < s.len() && s[i] == x;
            if i < s.len() - 1 {
                assert(s.drop_last()[i] == x);
            }
        }
    }
}

/// A sub-run of a chain is a chain.
proof fn lemma_chain_sub(t: ConstTable, s: Seq<Seq<char>>, k: int)
    requires
        chain(t, s),
        0 <= k <= s.len(),
    ensures
        chain(t, s.subrange(k, s.len() as int)),
{
    let u = s.subrange(k, s.len() as int);
    assert forall|i: int| 0 <= i < u.len() - 1 implies depends_on(t, #[trigger] u[i], u[i + 1]) by {
        assert(u[i] == s[k + i] && u[i + 1] == s[k + i + 1]);
    }
}

/// Extending a chain by a constant its last name refers to.
proof fn lemma_chain_push(t: ConstTable, s: Seq<Seq<char>>, d: Seq<char>)
    requires
        chain(t, s),
        s.len() > 0 ==> depends_on(t, s.last(), d),
    ensures
        chain(t, s.push(d)),
{
    let u = s.push(d);
    assert forall|i: int| 0 <= i < u.len() - 1 implies depends_on(t, #[trigger] u[i], u[i + 1]) by {
        if i < s.len() - 1 {
            assert(u[i] == s[i] && u[i + 1] == s[i + 1]);
        } else {
            assert(u[i] == s.last() && u[i + 1] == d);
        }
    }
}

/// What one visit gives: the result grows by appending, stays free of
/// repetitions and of names in progress, and holds the visited name unless
/// it is in progress; without cycles, dependencies stay first.
proof fn lemma_visit(t: ConstTable, n: Seq<char>, p: Seq<Seq<char>>, r: Seq<Seq<char>>)
    requires
        distinct_names(r),
        disjoint(r, p),
    ensures
        r.is_prefix_of(dfs_visit(t, n, p, r)),
        distinct_names(dfs_visit(t, n, p, r)),
        disjoint(dfs_visit(t, n, p, r), p),
        dfs_visit(t, n, p, r).contains(n) || p.contains(n),
        acyclic(t) && chain(t, p.push(n)) && deps_first(t, r) ==> deps_first(t, dfs_visit(t, n, p, r)),
    decreases pending(t, p), 0int, 0int,
{
    let o = dfs_visit(t, n, p, r);
    if r.contains(n) || p.contains(n) {
        assert(r.is_prefix_of(r)) by {
            assert(r.subrange(0, r.len() as int) =~= r);
        }
    } else {
        match refs_of(t, n) {
            Some(refs) => {
                lemma_pending_push(t, p, n);
                let pn = p.push(n);
                let ds = sorted_unique(refs);
                assert(disjoint(r, pn)) by {
                    assert forall|x: Seq<char>| r.contains(x) implies !pn.contains(x) by {
                        if pn.contains(x) {
                            let k = choose|k: int| 0 <= k < pn.len() && pn[k] == x;
                            if k < p.len() {
                                assert(p[k] == x);
                            }
                        }
                    }
                }
                lemma_visit_all(t, ds, pn, r);
                let o1 = dfs_visit_all(t, ds, pn, r);
                assert(o == o1.push(n));
                assert(pn[p.len() as int] == n);
                assert(!o1.contains(n));
                assert(r.is_prefix_of(o)) by {
                    assert(o.subrange(0, r.len() as int) =~= o1.subrange(0, r.len() as int));
                }
                assert(distinct_names(o)) by {
                    assert forall|i: int, j: int| 0 <= i < j < o.len() implies o[i] != o[j] by {
                        if j == o1.len() {
                            assert(o1[i] == o[i]);
                        } else {
                            assert(o1[i] == o[i] && o1[j] == o[j]);
                        }
                    }
                }
                assert(disjoint(o, p)) by {
                    assert forall|x: Seq<char>| o.contains(x) implies !p.contains(x) by {
                        let k = choose|k: int| 0 <= k < o.len() && o[k] == x;
                        if k < o1.len() {
                            assert(o1[k] == x);
                            assert(o1.contains(x));
                            if p.contains(x) {
                                let m = choose|m: int| 0 <= m < p.len() && p[m] == x;
                                assert(pn[m] == x);
                                assert(pn.contains(x));
                            }
                        } else {
                            assert(x == n);
                        }
                    }
                }
                assert(o[o1.len() as int] == n);
                if acyclic(t) && chain(t, pn) && deps_first(t, r) {
                    assert forall|d: Seq<char>| ds.contains(d) implies (refs_of(t, pn.last()) matches Some(
                        rs,
                    ) && rs.contains(d)) by {
                        lemma_sorted_unique_contains(refs, d);
                    }
                    assert(deps_first(t, o1));
                    assert forall|j: int, d: Seq<char>| 0 <= j < o.len() && #[trigger] depends_on(
                        t,
                        o[j],
                        d,
                    ) implies exists|i: int| 0 <= i < j && o[i] == d by {
                        if j < o1.len() {
                            assert(o1[j] == o[j]);
                            let i = choose|i: int| 0 <= i < j && o1[i] == d;
                            assert(o[i] == d);
                        } else {
                            lemma_sorted_unique_contains(refs, d);
                            if pn.contains(d) {
                                let k = choose|k: int| 0 <= k < pn.len() && pn[k] == d;
                                lemma_chain_sub(t, pn, k);
                                let sub = pn.subrange(k, pn.len() as int);
                                lemma_chain_push(t, sub, d);
                                let cyc = sub.push(d);
                                assert(cyc[0] == d);
                                assert(cyc.last() == d);
                                assert(false);
                            }
                            assert(o1.contains(d));
                            let i = choose|i: int| 0 <= i < o1.len() && o1[i] == d;
                            assert(o[i] == d);
                        }
                    }
                }
            },
            None => {
                assert(o == r.push(n));
                assert(r.is_prefix_of(o)) by {
                    assert(o.subrange(0, r.len() as int) =~= r);
                }
                assert(distinct_names(o)) by {
                    assert forall|i: int, j: int| 0 <= i < j < o.len() implies o[i] != o[j] by {
                        if j == r.len() {
                            assert(o[i] == r[i]);
                        } else {
                            assert(o[i] == r[i] && o[j] == r[j]);
                        }
                    }
                }
                assert(disjoint(o, p)) by {
                    assert forall|x: Seq<char>| o.contains(x) implies !p.contains(x) by {
                        let k = choose|k: int| 0 <= k < o.len() && o[k] == x;
                        if k < r.len() {
                            assert(r[k] == x);
                        }
                    }
                }
                assert(o[r.len() as int] == n);
                if deps_first(t, r) {
                    assert forall|j: int, d: Seq<char>| 0 <= j < o.len() && #[trigger] depends_on(
                        t,
                        o[j],
                        d,
                    ) implies exists|i: int| 0 <= i < j && o[i] == d by {
                        assert(j < r.len());
                        assert(o[j] == r[j]);
                        let i = choose|i: int| 0 <= i < j && r[i] == d;
                        assert(o[i] == d);
                    }
                }
            },
        }
    }
}

/// What visiting several names gives: as for one visit, and every constant
/// among them is in the result unless in progress.
proof fn lemma_visit_all(t: ConstTable, ds: Seq<Seq<char>>, p: Seq<Seq<char>>, r: Seq<Seq<char>>)
    requires
        distinct_names(r),
        disjoint(r, p),
    ensures
        r.is_prefix_of(dfs_visit_all(t, ds, p, r)),
        distinct_names(dfs_visit_all(t, ds, p, r)),
        disjoint(dfs_visit_all(t, ds, p, r), p),
        forall|d: Seq<char>|
            ds.contains(d) && is_constant(t, d) ==> dfs_visit_all(t, ds, p, r).contains(d) || p.contains(d),
        acyclic(t) && p.len() > 0 && chain(t, p) && (forall|d: Seq<char>|
            ds.contains(d) ==> (refs_of(t, p.last()) matches Some(rs) && rs.contains(d))) && deps_first(t, r)
            ==> deps_first(t, dfs_visit_all(t, ds, p, r)),
    decreases pending(t, p), 1int, ds.len(),
{
    let o = dfs_visit_all(t, ds, p, r);
    if ds.len() == 0 {
        assert(r.is_prefix_of(r)) by {
            assert(r.subrange(0, r.len() as int) =~= r);
        }
    } else {
        let r1 = if is_constant(t, ds[0]) {
            dfs_visit(t, ds[0], p, r)
        } else {
            r
        };
        if is_constant(t, ds[0]) {
            lemma_visit(t, ds[0], p, r);
        } else {
            assert(r.is_prefix_of(r)) by {
                assert(r.subrange(0, r.len() as int) =~= r);
            }
        }
        let rest = ds.drop_first();
        lemma_visit_all(t, rest, p, r1);
        assert(o == dfs_visit_all(t, rest, p, r1));
        assert(r.is_prefix_of(o)) by {
            assert(o.subrange(0, r.len() as int) =~= r1.subrange(0, r.len() as int));
        }
        assert forall|d: Seq<char>| ds.contains(d) && is_constant(t, d) implies o.contains(d) || p.contains(d) by {
            let k = choose|k: int| 0 <= k < ds.len() && ds[k] == d;
            if k == 0 {
                if !p.contains(d) {
                    assert(r1.contains(d));
                    let i = choose|i: int| 0 <= i < r1.len() && r1[i] == d;
                    assert(o[i] == r1[i]);
                }
            } else {
                assert(rest[k - 1] == d);
            }
        }
        if acyclic(t) && p.len() > 0 && chain(t, p) && (forall|d: Seq<char>|
            ds.contains(d) ==> (refs_of(t, p.last()) matches Some(rs) && rs.contains(d))) && deps_first(t, r) {
            if is_constant(t, ds[0]) {
                assert(ds.contains(ds[0]));
                lemma_chain_push(t, p, ds[0]);
            }
            assert forall|d: Seq<char>| rest.contains(d) implies (refs_of(t, p.last()) matches Some(rs)
                && rs.contains(d)) by {
                let k = choose|k: int| 0 <= k < rest.len() && rest[k] == d;
                assert(ds[k + 1] == d);
                assert(ds.contains(d));
            }
        }
    }
}

/// What resolving the names `req` after `r` gives.
proof fn lemma_resolve_from(t: ConstTable, req: Seq<Seq<char>>, r: Seq<Seq<char>>)
    requires
        distinct_names(r),
    ensures
        r.is_prefix_of(resolve_from(t, req, r)),
        distinct_names(resolve_from(t, req, r)),
        forall|n: Seq<char>| req.contains(n) ==> resolve_from(t, req, r).contains(n),
        acyclic(t) && deps_first(t, r) ==> deps_first(t, resolve_from(t, req, r)),
    decreases req.len(),
{
    let o = resolve_from(t, req, r);
    if req.len() == 0 {
        assert(r.is_prefix_of(r)) by {
            assert(r.subrange(0, r.len() as int) =~= r);
        }
    } else {
        let e = Seq::<Seq<char>>::empty();
        lemma_visit(t, req[0], e, r);
        let r1 = dfs_visit(t, req[0], e, r);
        assert(chain(t, e.push(req[0])));
        lemma_resolve_from(t, req.drop_first(), r1);
        assert(r.is_prefix_of(o)) by {
            assert(o.subrange(0, r.len() as int) =~= r1.subrange(0, r.len() as int));
        }
        assert forall|n: Seq<char>| req.contains(n) implies o.contains(n) by {
            let k = choose|k: int| 0 <= k < req.len() && req[k] == n;
            if k == 0 {
                assert(!e.contains(n));
                assert(r1.contains(n));
                let i = choose|i: int| 0 <= i < r1.len() && r1[i] == n;
                assert(r1.is_prefix_of(o));
                assert(o.subrange(0, r1.len() as int)[i] == o[i]);
                assert(o[i] == n);
            } else {
                assert(req.drop_first()[k - 1] == n);
                assert(req.drop_first().contains(n));
            }
        }
    }
}

/// The resolved order lists each name once and every required name; when
/// no constant refers to itself through others, every constant comes after
/// the constants it refers to.
pub proof fn law_resolved_order(t: ConstTable, req: Seq<Seq<char>>)
    ensures
        distinct_names(resolved_order(t, req)),
        forall|n: Seq<char>| req.contains(n) ==> resolved_order(t, req).contains(n),
        acyclic(t) ==> deps_first(t, resolved_order(t, req)),
{
    lemma_resolve_from(t, req, Seq::empty());
}

/// The names of `s` without repetitions, each where it first occurs.
pub open spec fn first_occurrences(s: Seq<Seq<char>>) -> Seq<Seq<char>>
    decreases s.len(),
{
    if s.len() == 0 {
        Seq::empty()
    } else {
        let r = first_occurrences(s.drop_last());
        if r.contains(s.last()) {
            r
        } else {
            r.push(s.last())
        }
    }
}

/// The names that the array sizes of the members refer to, member by member.
pub open spec fn member_size_refs(fields: Seq<CommentedElement<StructMember>>) -> Seq<Seq<char>>
    decreases fields.len(),
{
    if fields.len() == 0 {
        Seq::empty()
    } else {
        member_size_refs(fields.drop_last()) + str_views(fields.last().element.size_refs@)
    }
}

/// The names a struct's array sizes depend on, in member order, each once.
pub open spec fn struct_const_deps(s: CollectedStruct) -> Seq<Seq<char>> {
    first_occurrences(member_size_refs(s.fields@))
}

/// The names a struct's array sizes depend on, as character vectors.
pub(crate) fn struct_deps_chars(struct_def: &CollectedStruct) -> (r: Vec<Vec<char>>)
    ensures
        views(r@) == struct_const_deps(*struct_def),
{
    let fields = &struct_def.fields;
    let mut r: Vec<Vec<char>> = Vec::new();
    let mut i: usize = 0;
    assert(fields@.take(0) =~= Seq::<CommentedElement<StructMember>>::empty());
    assert(views(r@) =~= Seq::<Seq<char>>::empty());
    while i < fields.len()
        invariant
            i <= fields@.len(),
            fields == struct_def.fields,
            views(r@) == first_occurrences(member_size_refs(fields@.take(i as int))),
        decreases fields@.len() - i,
    {
        assert(fields@.take(i + 1).drop_last() =~= fields@.take(i as int));
        assert(fields@.take(i + 1).last() == fields@[i as int]);
        let ghost base = member_size_refs(fields@.take(i as int));
        let refs = &fields[i].element.size_refs;
        let ghost rv = str_views(refs@);
        let mut j: usize = 0;
        assert(base + rv.take(0) =~= base);
        while j < refs.len()
            invariant
                j <= refs@.len(),
                rv == str_views(refs@),
                views(r@) == first_occurrences(base + rv.take(j as int)),
            decreases refs@.len() - j,
        {
            let ghost pre = base + rv.take(j as int);
            assert((base + rv.take(j + 1)).drop_last() =~= pre);
            assert((base + rv.take(j + 1)).last() == refs@[j as int]@);
            let x = chars_of(refs[j].as_str());
            if !has_name(&r, x.as_slice()) {
                let ghost before = views(r@);
                let ghost xv = x@;
                r.push(x);
                assert(views(r@) =~= before.push(xv));
            }
            j = j + 1;
        }
        assert(rv.take(j as int) =~= rv);
        i = i + 1;
    }
    assert(fields@.take(i as int) =~= fields@);
    r
}

/// The names a struct's array sizes depend on, in member order, each once.
pub fn find_struct_constant_deps_ordered(struct_def: &CollectedStruct) -> (r: Vec<String>)
    ensures
        str_views(r@) == struct_const_deps(*struct_def),
{
    let v = struct_deps_chars(struct_def);
    let mut out: Vec<String> = Vec::new();
    let mut j: usize = 0;
    while j < v.len()
        invariant
            j <= v@.len(),
            str_views(out@) == views(v@).take(j as int),
        decreases v@.len() - j,
    {
        let ghost before = str_views(out@);
        let x = string_from(v[j].as_slice());
        let ghost xv = x@;
        out.push(x);
        assert(str_views(out@) =~= before.push(xv));
        assert(views(v@).take(j + 1) =~= views(v@).take(j as int).push(xv));
        j = j + 1;
    }
    assert(views(v@).take(j as int) =~= views(v@));
    out
}

} // verus!
