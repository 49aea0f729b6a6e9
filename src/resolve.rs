//! Reconciling template holes with the extra field list.
use vstd::prelude::*;
use crate::field::{copy_field, has_name, name_eq, unique_names, views, Field, FieldView, ResolveError};

verus! {

/// A hole is bare when it supplies neither a value nor attributes of its own.
pub open spec fn is_bare(f: FieldView) -> bool {
    f.expr is None && f.attrs.len() == 0
}

/// The field of `e` named `k`; meaningful when `e` holds one.
pub open spec fn entry_named(e: Seq<FieldView>, k: Seq<char>) -> FieldView {
    e[choose|j: int| 0 <= j < e.len() && #[trigger] e[j].name == k]
}

/// Two fields of `s`, at different positions, are named `k`.
pub open spec fn duplicated(s: Seq<FieldView>, k: Seq<char>) -> bool {
    exists|i: int, j: int| 0 <= i < j < s.len() && #[trigger] s[i].name == k && #[trigger] s[j].name == k
}

/// A hole named `k` carries its own value or attributes while an extra field
/// named `k` exists.
pub open spec fn conflicts(h: Seq<FieldView>, e: Seq<FieldView>, k: Seq<char>) -> bool {
    exists|i: int| 0 <= i < h.len() && #[trigger] h[i].name == k && has_name(e, k) && !is_bare(h[i])
}

/// A hole named `k` has no value of its own and no extra field supplies one.
pub open spec fn unresolved(h: Seq<FieldView>, e: Seq<FieldView>, k: Seq<char>) -> bool {
    exists|i: int| 0 <= i < h.len() && #[trigger] h[i].name == k && !has_name(e, k) && h[i].expr is None
}

/// The hole `f` is satisfied by exactly one source of value.
pub open spec fn hole_ok(e: Seq<FieldView>, f: FieldView) -> bool {
    if has_name(e, f.name) {
        is_bare(f)
    } else {
        f.expr is Some
    }
}

/// Holes and extras can be merged: names are unique on each side and every
/// hole has exactly one source of value.
pub open spec fn resolvable(h: Seq<FieldView>, e: Seq<FieldView>) -> bool {
    &&& unique_names(h)
    &&& unique_names(e)
    &&& forall|i: int| 0 <= i < h.len() ==> hole_ok(e, #[trigger] h[i])
}

/// The field that stands at a hole's position: the extra field of its name if
/// there is one, else the hole itself.
pub open spec fn anchor(e: Seq<FieldView>, f: FieldView) -> FieldView {
    if has_name(e, f.name) {
        entry_named(e, f.name)
    } else {
        f
    }
}

/// The fields at the holes' positions, in template order.
pub open spec fn anchored(h: Seq<FieldView>, e: Seq<FieldView>) -> Seq<FieldView> {
    h.map_values(|f: FieldView| anchor(e, f))
}

/// The extra fields that no hole names, in the order they were supplied.
pub open spec fn unreferenced(e: Seq<FieldView>, h: Seq<FieldView>) -> Seq<FieldView> {
    e.filter(|f: FieldView| !has_name(h, f.name))
}

/// The merged fields in rendering order: template-anchored fields first, then
/// the extra fields that no hole names.
pub open spec fn resolved(h: Seq<FieldView>, e: Seq<FieldView>) -> Seq<FieldView> {
    anchored(h, e) + unreferenced(e, h)
}

/// The position of the first field of `fs` named `k`, if any.
pub fn find_named(fs: &Vec<Field>, k: &String) -> (r: Option<usize>)
    ensures
        r matches Some(j) ==> j < fs@.len() && fs@[j as int].name@ == k@ && forall|a: int|
            0 <= a < j ==> fs@[a].name@ != k@,
        r is None <==> !has_name(views(fs@), k@),
{
    let mut i: usize = 0;
    while i < fs.len()
        invariant
            i <= fs@.len(),
            forall|j: int| 0 <= j < i ==> fs@[j].name@ != k@,
        decreases fs@.len() - i,
    {
        if name_eq(&fs[i].name, k) {
            assert(views(fs@)[i as int].name == k@);
            return Some(i);
        }
        i = i + 1;
    }
    proof {
        if has_name(views(fs@), k@) {
            let j = choose|j: int| 0 <= j < views(fs@).len() && #[trigger] views(fs@)[j].name == k@;
            assert(fs@[j].name@ == k@);
        }
    }
    None
}

/// The position of a field of `fs` whose name an earlier field already has.
pub fn find_duplicate(fs: &Vec<Field>) -> (r: Option<usize>)
    ensures
        r matches Some(j) ==> j < fs@.len() && duplicated(views(fs@), fs@[j as int].name@),
        r is None <==> unique_names(views(fs@)),
{
    let mut j: usize = 0;
    while j < fs.len()
        invariant
            j <= fs@.len(),
            forall|a: int, b: int| 0 <= a < b < j ==> fs@[a].name@ != fs@[b].name@,
        decreases fs@.len() - j,
    {
        let mut i: usize = 0;
        while i < j
            invariant
                i <= j < fs@.len(),
                forall|a: int| 0 <= a < i ==> fs@[a].name@ != fs@[j as int].name@,
            decreases j - i,
        {
            if name_eq(&fs[i].name, &fs[j].name) {
                assert(views(fs@)[i as int].name == fs@[j as int].name@);
                assert(views(fs@)[j as int].name == fs@[j as int].name@);
                return Some(j);
            }
            i = i + 1;
        }
        j = j + 1;
    }
    proof {
        assert forall|a: int, b: int| 0 <= a < b < views(fs@).len() implies #[trigger] views(fs@)[a].name
            != #[trigger] views(fs@)[b].name by {
            assert(fs@[a].name@ != fs@[b].name@);
        }
    }
    None
}

proof fn lemma_entry_named(e: Seq<FieldView>, j: int)
    requires
        unique_names(e),
        0 <= j < e.len(),
    ensures
        has_name(e, e[j].name),
        entry_named(e, e[j].name) == e[j],
{
    let k = e[j].name;
    assert(e[j].name == k);
    let c = choose|c: int| 0 <= c < e.len() && #[trigger] e[c].name == k;
    if c < j {
        assert(e[c].name != e[j].name);
    } else if j < c {
        assert(e[j].name != e[c].name);
    }
}

proof fn lemma_unreferenced_unique(e: Seq<FieldView>, h: Seq<FieldView>)
    requires
        unique_names(e),
    ensures
        unique_names(unreferenced(e, h)),
    decreases e.len(),
{
    reveal(Seq::filter);
    if e.len() > 0 {
        let d = e.drop_last();
        assert(unique_names(d)) by {
            assert forall|a: int, b: int| 0 <= a < b < d.len() implies #[trigger] d[a].name
                != #[trigger] d[b].name by {
                assert(e[a].name != e[b].name);
            }
        }
        lemma_unreferenced_unique(d, h);
        let u = unreferenced(d, h);
        let x = e.last();
        if !has_name(h, x.name) {
            assert(unreferenced(e, h) == u.push(x));
            assert forall|a: int| 0 <= a < u.len() implies #[trigger] u[a].name != x.name by {
                assert(u.contains(u[a]));
                d.lemma_filter_contains_rev(|f: FieldView| !has_name(h, f.name), u[a]);
                let j = choose|j: int| 0 <= j < d.len() && d[j] == u[a];
                assert(e[j].name != e[e.len() - 1].name);
            }
            assert forall|a: int, b: int| 0 <= a < b < u.push(x).len() implies #[trigger] u.push(x)[a].name
                != #[trigger] u.push(x)[b].name by {
                if b == u.len() {
                    assert(u[a].name != x.name);
                } else {
                    assert(u[a].name != u[b].name);
                }
            }
        }
    }
}

proof fn lemma_resolved_unique(h: Seq<FieldView>, e: Seq<FieldView>)
    requires
        resolvable(h, e),
    ensures
        unique_names(resolved(h, e)),
{
    let an = anchored(h, e);
    let u = unreferenced(e, h);
    let r = resolved(h, e);
    lemma_unreferenced_unique(e, h);
    assert forall|i: int| 0 <= i < h.len() implies #[trigger] an[i].name == h[i].name by {
        if has_name(e, h[i].name) {
            let k = h[i].name;
            let c = choose|c: int| 0 <= c < e.len() && #[trigger] e[c].name == k;
        }
    }
    assert forall|a: int| 0 <= a < u.len() implies !has_name(h, #[trigger] u[a].name) by {
        e.lemma_filter_pred(|f: FieldView| !has_name(h, f.name), a);
    }
    assert forall|a: int, b: int| 0 <= a < b < r.len() implies #[trigger] r[a].name != #[trigger] r[b].name by {
        if b < h.len() {
            assert(an[a].name == h[a].name && an[b].name == h[b].name);
        } else if a < h.len() {
            assert(r[a].name == h[a].name);
            assert(r[b] == u[b - h.len()]);
            if r[a].name == r[b].name {
                assert(has_name(h, u[b - h.len()].name));
            }
        } else {
            assert(r[a] == u[a - h.len()] && r[b] == u[b - h.len()]);
        }
    }
}

/// Merges template holes with the extra field list.
///
/// Each hole takes the extra field of its name when there is one (the hole
/// must then be bare), else its own value; the extra fields that no hole names
/// follow in the order they were supplied.
pub fn resolve(holes: &Vec<Field>, extras: &Vec<Field>) -> (r: Result<Vec<Field>, ResolveError>)
    ensures
        r is Ok <==> resolvable(views(holes@), views(extras@)),
        r matches Ok(v) ==> views(v@) == resolved(views(holes@), views(extras@)) && unique_names(
            views(v@),
        ),
        r matches Err(ResolveError::DuplicateKey(k)) ==> duplicated(views(holes@), k@)
            || duplicated(views(extras@), k@),
        r matches Err(ResolveError::Conflict(k)) ==> conflicts(views(holes@), views(extras@), k@),
        r matches Err(ResolveError::UnresolvedHole(k)) ==> unresolved(
            views(holes@),
            views(extras@),
            k@,
        ),
        !unique_names(views(holes@)) || !unique_names(views(extras@)) ==> r matches Err(
            ResolveError::DuplicateKey(_),
        ),
        !(r matches Err(ResolveError::Parse)),
{
    let ghost h = views(holes@);
    let ghost e = views(extras@);
    match find_duplicate(holes) {
        Some(j) => {
            return Err(ResolveError::DuplicateKey(holes[j].name.clone()));
        },
        None => {},
    }
    match find_duplicate(extras) {
        Some(j) => {
            return Err(ResolveError::DuplicateKey(extras[j].name.clone()));
        },
        None => {},
    }
    let mut out: Vec<Field> = Vec::new();
    let mut i: usize = 0;
    while i < holes.len()
        invariant
            h == views(holes@),
            e == views(extras@),
            unique_names(h),
            unique_names(e),
            i <= h.len(),
            forall|a: int| 0 <= a < i ==> hole_ok(e, #[trigger] h[a]),
            views(out@) == anchored(h.take(i as int), e),
        decreases h.len() - i,
    {
        let hole = &holes[i];
        let ghost hv = h[i as int];
        assert(hv == hole@);
        let f = match find_named(extras, &hole.name) {
            Some(j) => {
                if hole.expr.is_some() || hole.attrs.len() > 0 {
                    assert(conflicts(h, e, hole.name@)) by {
                        assert(e[j as int].name == hole.name@);
                        assert(h[i as int].name == hole.name@);
                    }
                    return Err(ResolveError::Conflict(hole.name.clone()));
                }
                proof {
                    lemma_entry_named(e, j as int);
                }
                copy_field(&extras[j])
            },
            None => {
                if hole.expr.is_none() {
                    assert(unresolved(h, e, hole.name@)) by {
                        assert(h[i as int].name == hole.name@);
                    }
                    return Err(ResolveError::UnresolvedHole(hole.name.clone()));
                }
                copy_field(hole)
            },
        };
        assert(f@ == anchor(e, hv));
        let ghost before = views(out@);
        out.push(f);
        proof {
            assert(views(out@) =~= before.push(anchor(e, hv)));
            assert(h.take(i + 1) =~= h.take(i as int).push(hv));
            assert(views(out@) =~= anchored(h.take(i + 1), e));
        }
        i = i + 1;
    }
    assert(h.take(h.len() as int) =~= h);
    let ghost base = views(out@);
    let mut j: usize = 0;
    while j < extras.len()
        invariant
            h == views(holes@),
            e == views(extras@),
            base == anchored(h, e),
            j <= e.len(),
            views(out@) == base + unreferenced(e.take(j as int), h),
        decreases e.len() - j,
    {
        let ghost ev = e[j as int];
        let ghost before = views(out@);
        assert(e.take(j + 1).drop_last() =~= e.take(j as int));
        assert(e.take(j + 1).last() == ev);
        proof {
            reveal(Seq::filter);
        }
        match find_named(holes, &extras[j].name) {
            Some(_) => {},
            None => {
                let f = copy_field(&extras[j]);
                out.push(f);
                assert(views(out@) =~= before.push(ev));
            },
        }
        assert(views(out@) =~= base + unreferenced(e.take(j + 1), h));
        j = j + 1;
    }
    assert(e.take(e.len() as int) =~= e);
    proof {
        lemma_resolved_unique(h, e);
    }
    Ok(out)
}

/// When every hole is bare, names are unique on each side, and the extra
/// list names exactly the holes' names, the merge succeeds and the fields in
/// rendering order are the extra fields, in hole order.
pub proof fn lemma_extras_fill_bare_holes(h: Seq<FieldView>, e: Seq<FieldView>)
    requires
        unique_names(h),
        unique_names(e),
        forall|i: int| 0 <= i < h.len() ==> is_bare(#[trigger] h[i]),
        forall|i: int| 0 <= i < h.len() ==> has_name(e, #[trigger] h[i].name),
        forall|j: int| 0 <= j < e.len() ==> has_name(h, #[trigger] e[j].name),
    ensures
        resolvable(h, e),
        resolved(h, e).len() == h.len(),
        forall|i: int|
            0 <= i < h.len() ==> #[trigger] resolved(h, e)[i] == entry_named(e, h[i].name)
                && has_name(e, h[i].name) && entry_named(e, h[i].name).name == h[i].name,
{
    assert forall|i: int| 0 <= i < h.len() implies hole_ok(e, #[trigger] h[i]) by {
        assert(has_name(e, h[i].name));
    }
    let u = unreferenced(e, h);
    let pred = |f: FieldView| !has_name(h, f.name);
    if u.len() > 0 {
        assert(u.contains(u[0]));
        e.lemma_filter_contains_rev(pred, u[0]);
        e.lemma_filter_pred(pred, 0);
        assert(e.contains(u[0]));
        assert(pred(u[0]));
        let j = choose|j: int| 0 <= j < e.len() && e[j] == u[0];
        assert(has_name(h, e[j].name));
        assert(false);
    }
    assert(u =~= Seq::<FieldView>::empty());
    assert forall|i: int| 0 <= i < h.len() implies #[trigger] resolved(h, e)[i] == entry_named(e, h[i].name)
        && has_name(e, h[i].name) && entry_named(e, h[i].name).name == h[i].name by {
        assert(has_name(e, h[i].name));
        assert(resolved(h, e)[i] == anchored(h, e)[i]);
    }
}

} // verus!
