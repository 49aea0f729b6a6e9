//! Laying fields out in name order, with a map from rendering order.
use vstd::prelude::*;
use crate::field::{
    copy_field, lemma_name_lt_asymmetric, lemma_name_lt_total,
    lemma_name_lt_transitive, name_less, name_lt, unique_names, views, Field, FieldView,
};

verus! {

/// The names of `s` strictly ascend.
pub open spec fn strictly_sorted(s: Seq<FieldView>) -> bool {
    forall|i: int, j: int| 0 <= i < j < s.len() ==> name_lt(#[trigger] s[i].name, #[trigger] s[j].name)
}

/// Some position of `m` holds `k`.
pub open spec fn hits(m: Seq<usize>, k: int) -> bool {
    exists|i: int| 0 <= i < m.len() && m[i] == k
}

/// `m` is a bijection from positions of `n` items onto positions of `n` items.
pub open spec fn is_index_map(m: Seq<usize>, n: nat) -> bool {
    &&& m.len() == n
    &&& forall|i: int| 0 <= i < n ==> #[trigger] m[i] < n
    &&& forall|i: int, j: int| 0 <= i < j < n ==> #[trigger] m[i] != #[trigger] m[j]
    &&& forall|k: int| 0 <= k < n ==> #[trigger] hits(m, k)
}

/// `kvs` holds the fields of `fields` in ascending name order, and `m` sends
/// each rendering position to the sorted position of the same field.
pub open spec fn sorted_layout(fields: Seq<FieldView>, kvs: Seq<FieldView>, m: Seq<usize>) -> bool {
    &&& kvs.len() == fields.len()
    &&& strictly_sorted(kvs)
    &&& is_index_map(m, fields.len())
    &&& forall|i: int| 0 <= i < fields.len() ==> kvs[#[trigger] m[i] as int] == fields[i]
}

/// Sorts fields by name and builds the map from each field's rendering
/// position to its sorted position.
pub fn sort_fields(fields: &Vec<Field>) -> (r: (Vec<Field>, Vec<usize>))
    requires
        unique_names(views(fields@)),
    ensures
        sorted_layout(views(fields@), views(r.0@), r.1@),
{
    let ghost f = views(fields@);
    let n = fields.len();
    // `order[k]` is the rendering position of the field with sorted position `k`.
    let mut order: Vec<usize> = Vec::new();
    let mut i: usize = 0;
    while i < n
        invariant
            n == f.len(),
            f == views(fields@),
            unique_names(f),
            i <= n,
            order@.len() == i,
            forall|k: int| 0 <= k < i ==> #[trigger] order@[k] < i,
            forall|a: int, b: int| 0 <= a < b < i ==> #[trigger] order@[a] != #[trigger] order@[b],
            forall|x: int| 0 <= x < i ==> #[trigger] hits(order@, x),
            forall|a: int, b: int|
                0 <= a < b < i ==> name_lt(f[#[trigger] order@[a] as int].name, f[#[trigger] order@[b] as int].name),
        decreases n - i,
    {
        let mut p: usize = 0;
        while p < order.len() && !name_less(&fields[i].name, &fields[order[p]].name)
            invariant
                n == f.len(),
                f == views(fields@),
                i < n,
                order@.len() == i,
                forall|k: int| 0 <= k < i ==> #[trigger] order@[k] < i,
                p <= i,
                forall|k: int| 0 <= k < p ==> !name_lt(f[i as int].name, f[#[trigger] order@[k] as int].name),
            decreases i - p,
        {
            p = p + 1;
        }
        let ghost old_order = order@;
        proof {
            assert forall|k: int| 0 <= k < p implies name_lt(f[#[trigger] old_order[k] as int].name, f[i as int].name) by {
                let x = old_order[k] as int;
                assert(f[x].name != f[i as int].name);
                lemma_name_lt_total(f[x].name, f[i as int].name);
            }
            if p < i {
                assert forall|k: int| p <= k < i implies name_lt(f[i as int].name, f[#[trigger] old_order[k] as int].name) by {
                    if k > p {
                        lemma_name_lt_transitive(
                            f[i as int].name,
                            f[old_order[p as int] as int].name,
                            f[old_order[k] as int].name,
                        );
                    }
                }
            }
        }
        order.insert(p, i);
        proof {
            let o = order@;
            assert(o == old_order.insert(p as int, i));
            assert forall|k: int| 0 <= k < i + 1 implies #[trigger] o[k] < i + 1 by {
                if k < p {
                    assert(o[k] == old_order[k]);
                } else if k > p {
                    assert(o[k] == old_order[k - 1]);
                }
            }
            assert forall|a: int, b: int| 0 <= a < b < i + 1 implies #[trigger] o[a] != #[trigger] o[b] by {
                if a < p && b < p {
                } else if a < p && b == p {
                } else if a < p {
                    assert(o[b] == old_order[b - 1]);
                } else if a == p {
                    assert(o[b] == old_order[b - 1]);
                } else {
                    assert(o[a] == old_order[a - 1]);
                    assert(o[b] == old_order[b - 1]);
                }
            }
            assert forall|x: int| 0 <= x < i + 1 implies #[trigger] hits(o, x) by {
                if x == i {
                    assert(o[p as int] == x);
                } else {
                    assert(hits(old_order, x));
                    let k = choose|k: int| 0 <= k < old_order.len() && old_order[k] == x;
                    if k < p {
                        assert(o[k] == x);
                    } else {
                        assert(o[k + 1] == x);
                    }
                }
            }
            assert forall|a: int, b: int| 0 <= a < b < i + 1 implies name_lt(
                f[#[trigger] o[a] as int].name,
                f[#[trigger] o[b] as int].name,
            ) by {
                if a < p && b < p {
                    assert(o[a] == old_order[a] && o[b] == old_order[b]);
                } else if a < p && b == p {
                    assert(o[a] == old_order[a]);
                } else if a < p {
                    assert(o[a] == old_order[a] && o[b] == old_order[b - 1]);
                } else if a == p {
                    assert(o[b] == old_order[b - 1]);
                } else {
                    assert(o[a] == old_order[a - 1] && o[b] == old_order[b - 1]);
                }
            }
        }
        i = i + 1;
    }
    let mut m: Vec<usize> = Vec::new();
    let mut z: usize = 0;
    while z < n
        invariant
            z <= n,
            m@.len() == z,
        decreases n - z,
    {
        m.push(0);
        z = z + 1;
    }
    let mut kvs: Vec<Field> = Vec::new();
    let mut k: usize = 0;
    while k < n
        invariant
            n == f.len(),
            f == views(fields@),
            k <= n,
            m@.len() == n,
            kvs@.len() == k,
            order@.len() == n,
            forall|a: int| 0 <= a < n ==> #[trigger] order@[a] < n,
            forall|a: int, b: int| 0 <= a < b < n ==> #[trigger] order@[a] != #[trigger] order@[b],
            forall|a: int| 0 <= a < k ==> m@[#[trigger] order@[a] as int] == a,
            forall|a: int| 0 <= a < k ==> #[trigger] kvs@[a]@ == f[order@[a] as int],
        decreases n - k,
    {
        let x = order[k];
        proof {
            assert forall|a: int| 0 <= a < k implies #[trigger] order@[a] != x by {
                assert(order@[a] != order@[k as int]);
            }
        }
        m[x] = k;
        kvs.push(copy_field(&fields[x]));
        k = k + 1;
    }
    proof {
        let kv = views(kvs@);
        let o = order@;
        assert forall|a: int, b: int| 0 <= a < b < kv.len() implies name_lt(
            #[trigger] kv[a].name,
            #[trigger] kv[b].name,
        ) by {
            assert(kv[a] == f[o[a] as int]);
            assert(kv[b] == f[o[b] as int]);
        }
        assert forall|x: int| 0 <= x < n implies #[trigger] m@[x] < n && kv[m@[x] as int] == f[x] by {
            assert(hits(o, x));
            let a = choose|a: int| 0 <= a < o.len() && o[a] == x;
            assert(m@[o[a] as int] == a);
        }
        assert forall|x: int, y: int| 0 <= x < y < n implies #[trigger] m@[x] != #[trigger] m@[y] by {
            assert(hits(o, x));
            assert(hits(o, y));
            let a = choose|a: int| 0 <= a < o.len() && o[a] == x;
            let b = choose|b: int| 0 <= b < o.len() && o[b] == y;
            assert(m@[o[a] as int] == a);
            assert(m@[o[b] as int] == b);
        }
        assert forall|c: int| 0 <= c < n implies #[trigger] hits(m@, c) by {
            assert(m@[o[c] as int] == c);
        }
        assert forall|x: int| 0 <= x < f.len() implies kv[#[trigger] m@[x] as int] == f[x] by {
            assert(m@[x] < n && kv[m@[x] as int] == f[x]);
        }
    }
    (kvs, m)
}

proof fn lemma_increasing_lower(m: Seq<usize>, i: int)
    requires
        0 <= i < m.len(),
        forall|a: int, b: int| 0 <= a < b < m.len() ==> #[trigger] m[a] < #[trigger] m[b],
    ensures
        m[i] >= i,
    decreases i,
{
    if i > 0 {
        lemma_increasing_lower(m, i - 1);
        assert(m[i - 1] < m[i]);
    }
}

proof fn lemma_increasing_upper(m: Seq<usize>, i: int)
    requires
        0 <= i < m.len(),
        forall|a: int| 0 <= a < m.len() ==> #[trigger] m[a] < m.len(),
        forall|a: int, b: int| 0 <= a < b < m.len() ==> #[trigger] m[a] < #[trigger] m[b],
    ensures
        m[i] <= i,
    decreases m.len() - i,
{
    if i + 1 < m.len() {
        lemma_increasing_upper(m, i + 1);
        assert(m[i] < m[i + 1]);
    }
}

/// Sorting is idempotent: when fields already ascend by name, their sorted
/// layout is the fields themselves, each at its own position.
pub proof fn lemma_sort_idempotent(fields: Seq<FieldView>, kvs: Seq<FieldView>, m: Seq<usize>)
    requires
        strictly_sorted(fields),
        sorted_layout(fields, kvs, m),
    ensures
        kvs == fields,
        forall|i: int| 0 <= i < m.len() ==> #[trigger] m[i] == i,
{
    let n = fields.len();
    assert forall|a: int, b: int| 0 <= a < b < m.len() implies #[trigger] m[a] < #[trigger] m[b] by {
        assert(m[a] != m[b]);
        assert(kvs[m[a] as int] == fields[a]);
        assert(kvs[m[b] as int] == fields[b]);
        if m[b] < m[a] {
            assert(name_lt(kvs[m[b] as int].name, kvs[m[a] as int].name));
            lemma_name_lt_asymmetric(fields[a].name, fields[b].name);
        }
    }
    assert forall|i: int| 0 <= i < m.len() implies #[trigger] m[i] == i by {
        lemma_increasing_lower(m, i);
        lemma_increasing_upper(m, i);
    }
    assert forall|i: int| 0 <= i < n implies kvs[i] == fields[i] by {
        assert(m[i] == i);
    }
    assert(kvs =~= fields);
}

} // verus!
