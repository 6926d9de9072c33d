use vstd::prelude::*;

use crate::tree::{
    empty_table, entries_unique_keys, find_key, model_wf, tab_get, tab_has_key, tab_index_of,
    TreeModel, TreeValue,
};

verus! {

broadcast use {vstd::seq::group_seq_axioms, vstd::std_specs::vec::group_vec_axioms};

/// The entries of `base` overlaid with those of `overlay`: every entry keeps
/// its key and position; an entry whose key also occurs in `overlay` carries
/// the merge of the two bound values.
pub open spec fn entries_overlaid(
    base: Seq<(Seq<char>, TreeModel)>,
    overlay: Seq<(Seq<char>, TreeModel)>,
) -> Seq<(Seq<char>, TreeModel)>
    decreases base,
{
    if base.len() == 0 {
        Seq::empty()
    } else {
        let e = base.last();
        let prev = entries_overlaid(base.drop_last(), overlay);
        if tab_has_key(overlay, e.0) {
            prev.push((e.0, spec_merge(e.1, tab_get(overlay, e.0))))
        } else {
            prev.push(e)
        }
    }
}

/// The entries of `from` whose keys do not occur in `excluded`, in order.
pub open spec fn entries_minus(
    from: Seq<(Seq<char>, TreeModel)>,
    excluded: Seq<(Seq<char>, TreeModel)>,
) -> Seq<(Seq<char>, TreeModel)>
    decreases from,
{
    if from.len() == 0 {
        Seq::empty()
    } else {
        let prev = entries_minus(from.drop_last(), excluded);
        if tab_has_key(excluded, from.last().0) {
            prev
        } else {
            prev.push(from.last())
        }
    }
}

/// Deterministic combination of two trees: two tables merge per key
/// (recursively), and in every other combination the overlay replaces the
/// base wholesale — arrays are never concatenated, and a scalar overlay can
/// replace an entire subtree.
pub open spec fn spec_merge(base: TreeModel, overlay: TreeModel) -> TreeModel
    decreases base,
{
    match (base, overlay) {
        (TreeModel::Table(be), TreeModel::Table(oe)) => TreeModel::Table(
            entries_overlaid(be, oe) + entries_minus(oe, be),
        ),
        _ => overlay,
    }
}

/// Pointwise description of `entries_overlaid`.
pub proof fn lemma_overlaid_pointwise(
    base: Seq<(Seq<char>, TreeModel)>,
    overlay: Seq<(Seq<char>, TreeModel)>,
)
    ensures
        entries_overlaid(base, overlay).len() == base.len(),
        forall|i: int|
            0 <= i < base.len() ==> #[trigger] entries_overlaid(base, overlay)[i] == (if tab_has_key(
                overlay,
                base[i].0,
            ) {
                (base[i].0, spec_merge(base[i].1, tab_get(overlay, base[i].0)))
            } else {
                base[i]
            }),
    decreases base.len(),
{
    if base.len() > 0 {
        lemma_overlaid_pointwise(base.drop_last(), overlay);
        assert(forall|i: int|
            0 <= i < base.len() - 1 ==> base.drop_last()[i] == base[i]);
    }
}

/// Every entry of `entries_minus(from, excluded)` is an entry of `from`; a
/// key occurs in the difference exactly when it occurs in `from` but not in
/// `excluded`, and it is bound to the value it has in `from`.
pub proof fn lemma_minus_pointwise(
    from: Seq<(Seq<char>, TreeModel)>,
    excluded: Seq<(Seq<char>, TreeModel)>,
)
    ensures
        forall|i: int|
            0 <= i < entries_minus(from, excluded).len() ==> exists|j: int|
                0 <= j < from.len() && from[j] == #[trigger] entries_minus(from, excluded)[i],
        forall|k: Seq<char>|
            #[trigger] tab_has_key(entries_minus(from, excluded), k) <==> (tab_has_key(from, k)
                && !tab_has_key(excluded, k)),
    decreases from.len(),
{
    if from.len() > 0 {
        lemma_minus_pointwise(from.drop_last(), excluded);
        assert forall|k: Seq<char>| #[trigger]
            tab_has_key(entries_minus(from, excluded), k) implies (tab_has_key(from, k)
            && !tab_has_key(excluded, k)) by {
            let m = entries_minus(from, excluded);
            let i = tab_index_of(m, k);
            if i < entries_minus(from.drop_last(), excluded).len() {
                assert(tab_has_key(entries_minus(from.drop_last(), excluded), k));
                let j = tab_index_of(from.drop_last(), k);
                assert(from[j] == from.drop_last()[j]);
            } else {
                assert(m[i] == from.last());
                assert(from[from.len() - 1].0 == k);
            }
        }
        assert forall|k: Seq<char>|
            tab_has_key(from, k) && !tab_has_key(excluded, k) implies #[trigger] tab_has_key(
            entries_minus(from, excluded),
            k,
        ) by {
            let m = entries_minus(from, excluded);
            let j = tab_index_of(from, k);
            if j < from.len() - 1 {
                assert(from.drop_last()[j] == from[j]);
                assert(tab_has_key(from.drop_last(), k));
                let m0 = entries_minus(from.drop_last(), excluded);
                assert(tab_has_key(m0, k));
                let i0 = tab_index_of(m0, k);
                assert(0 <= i0 < m0.len() && m0[i0].0 == k);
                assert(m[i0] == m0[i0]);
            } else {
                assert(from.last().0 == k);
                assert(m[m.len() - 1].0 == k);
            }
        }
    }
}

/// With unique keys, the entry found for a key is the only one.
pub proof fn lemma_get_unique(entries: Seq<(Seq<char>, TreeModel)>, k: Seq<char>, i: int)
    requires
        entries_unique_keys(entries),
        0 <= i < entries.len(),
        entries[i].0 == k,
    ensures
        tab_has_key(entries, k),
        tab_index_of(entries, k) == i,
        tab_get(entries, k) == entries[i].1,
{
    assert(tab_has_key(entries, k));
    let j = tab_index_of(entries, k);
    assert(0 <= j < entries.len() && entries[j].0 == k);
    if i != j {
        assert(entries[i].0 != entries[j].0);
    }
}

/// The difference keeps keys unique and values unchanged.
pub proof fn lemma_minus_unique(
    from: Seq<(Seq<char>, TreeModel)>,
    excluded: Seq<(Seq<char>, TreeModel)>,
)
    requires
        entries_unique_keys(from),
    ensures
        entries_unique_keys(entries_minus(from, excluded)),
        forall|k: Seq<char>|
            #[trigger] tab_has_key(entries_minus(from, excluded), k) ==> tab_get(
                entries_minus(from, excluded),
                k,
            ) == tab_get(from, k),
    decreases from.len(),
{
    let m = entries_minus(from, excluded);
    if from.len() > 0 {
        let from0 = from.drop_last();
        let m0 = entries_minus(from0, excluded);
        assert(entries_unique_keys(from0)) by {
            assert(forall|i: int| 0 <= i < from0.len() ==> from0[i] == from[i]);
        }
        lemma_minus_unique(from0, excluded);
        lemma_minus_pointwise(from0, excluded);
        lemma_minus_pointwise(from, excluded);
        let e = from.last();
        assert(!tab_has_key(from0, e.0)) by {
            if tab_has_key(from0, e.0) {
                let i = tab_index_of(from0, e.0);
                assert(from[i].0 == from[from.len() - 1].0);
            }
        }
        assert(entries_unique_keys(m)) by {
            assert forall|i: int, j: int| 0 <= i < j < m.len() implies (#[trigger] m[i]).0 != (
            #[trigger] m[j]).0 by {
                if j < m0.len() {
                    assert(m[i] == m0[i] && m[j] == m0[j]);
                } else {
                    assert(m[j] == e);
                    assert(m[i] == m0[i]);
                    assert(tab_has_key(m0, m0[i].0));
                    assert(tab_has_key(from0, m0[i].0));
                }
            }
        }
        assert forall|k: Seq<char>| #[trigger] tab_has_key(m, k) implies tab_get(m, k) == tab_get(
            from,
            k,
        ) by {
            let i = tab_index_of(m, k);
            assert(0 <= i < m.len() && m[i].0 == k);
            lemma_get_unique(m, k, i);
            if i < m0.len() {
                assert(m[i] == m0[i]);
                assert(tab_has_key(m0, k));
                lemma_get_unique(m0, k, i);
                assert(tab_get(m0, k) == tab_get(from0, k));
                let j0 = tab_index_of(from0, k);
                assert(0 <= j0 < from0.len() && from0[j0].0 == k);
                assert(from[j0] == from0[j0]);
                lemma_get_unique(from, k, j0);
            } else {
                assert(m[i] == e);
                lemma_get_unique(from, k, from.len() - 1);
            }
        }
    }
}

/// Keys of a concatenation of entry sequences.
pub proof fn lemma_concat_keys(
    xs: Seq<(Seq<char>, TreeModel)>,
    ys: Seq<(Seq<char>, TreeModel)>,
)
    ensures
        forall|k: Seq<char>|
            #[trigger] tab_has_key(xs + ys, k) <==> (tab_has_key(xs, k) || tab_has_key(ys, k)),
{
    assert forall|k: Seq<char>| #[trigger]
        tab_has_key(xs + ys, k) implies (tab_has_key(xs, k) || tab_has_key(ys, k)) by {
        let i = tab_index_of(xs + ys, k);
        if i < xs.len() {
            assert((xs + ys)[i] == xs[i]);
        } else {
            assert((xs + ys)[i] == ys[i - xs.len()]);
        }
    }
    assert forall|k: Seq<char>|
        tab_has_key(xs, k) || tab_has_key(ys, k) implies #[trigger] tab_has_key(xs + ys, k) by {
        if tab_has_key(xs, k) {
            let i = tab_index_of(xs, k);
            assert((xs + ys)[i] == xs[i]);
        } else {
            let i = tab_index_of(ys, k);
            assert((xs + ys)[xs.len() + i] == ys[i]);
        }
    }
}

/// The model of a sequence of table entries.
pub open spec fn entries_model(entries: Seq<(String, TreeValue)>) -> Seq<(Seq<char>, TreeModel)> {
    Seq::new(
        entries.len(),
        |i: int|
            if 0 <= i < entries.len() {
                (entries[i].0@, entries[i].1@)
            } else {
                (Seq::empty(), TreeModel::Null)
            },
    )
}

/// Keys of an overlaid entry sequence are exactly the keys of the base part.
pub proof fn lemma_overlaid_keys(
    xs: Seq<(Seq<char>, TreeModel)>,
    ys: Seq<(Seq<char>, TreeModel)>,
)
    ensures
        forall|k: Seq<char>|
            #[trigger] tab_has_key(entries_overlaid(xs, ys), k) <==> tab_has_key(xs, k),
{
    lemma_overlaid_pointwise(xs, ys);
    let ov = entries_overlaid(xs, ys);
    assert(forall|i: int| 0 <= i < xs.len() ==> (#[trigger] ov[i]).0 == xs[i].0);
    assert forall|k: Seq<char>| #[trigger] tab_has_key(ov, k) implies tab_has_key(xs, k) by {
        let i = tab_index_of(ov, k);
        assert(xs[i].0 == k);
    }
    assert forall|k: Seq<char>| tab_has_key(xs, k) implies #[trigger] tab_has_key(ov, k) by {
        let i = tab_index_of(xs, k);
        assert(ov[i].0 == k);
    }
}

/// Every key of either table occurs in the merge of the two; a key keeps the
/// base's value when the overlay lacks it, takes the overlay's value when the
/// base lacks it, and carries the merge of the two values when both have it —
/// so for anything but two tables, the overlay's value. Keys stay unique.
pub proof fn lemma_merge_table_lookup(b: TreeModel, o: TreeModel)
    requires
        b is Table,
        o is Table,
        model_wf(b),
        model_wf(o),
    ensures
        spec_merge(b, o) is Table,
        entries_unique_keys(spec_merge(b, o)->Table_0),
        forall|k: Seq<char>|
            #[trigger] tab_has_key(spec_merge(b, o)->Table_0, k) <==> (tab_has_key(b->Table_0, k)
                || tab_has_key(o->Table_0, k)),
        forall|k: Seq<char>|
            tab_has_key(b->Table_0, k) && !tab_has_key(o->Table_0, k) ==> #[trigger] tab_get(
                spec_merge(b, o)->Table_0,
                k,
            ) == tab_get(b->Table_0, k),
        forall|k: Seq<char>|
            !tab_has_key(b->Table_0, k) && tab_has_key(o->Table_0, k) ==> #[trigger] tab_get(
                spec_merge(b, o)->Table_0,
                k,
            ) == tab_get(o->Table_0, k),
        forall|k: Seq<char>|
            tab_has_key(b->Table_0, k) && tab_has_key(o->Table_0, k) ==> #[trigger] tab_get(
                spec_merge(b, o)->Table_0,
                k,
            ) == spec_merge(tab_get(b->Table_0, k), tab_get(o->Table_0, k)),
{
    let be = b->Table_0;
    let oe = o->Table_0;
    let head = entries_overlaid(be, oe);
    let tail = entries_minus(oe, be);
    let me = head + tail;
    lemma_overlaid_pointwise(be, oe);
    lemma_overlaid_keys(be, oe);
    lemma_minus_pointwise(oe, be);
    lemma_minus_unique(oe, be);
    lemma_concat_keys(head, tail);
    assert(entries_unique_keys(me)) by {
        assert forall|p: int, q: int| 0 <= p < q < me.len() implies (#[trigger] me[p]).0 != (
        #[trigger] me[q]).0 by {
            if q < head.len() {
                assert(me[p] == head[p] && me[q] == head[q]);
                assert(head[p].0 == be[p].0 && head[q].0 == be[q].0);
            } else if p >= head.len() {
                assert(me[p] == tail[p - head.len()] && me[q] == tail[q - head.len()]);
            } else {
                assert(me[p] == head[p] && me[q] == tail[q - head.len()]);
                assert(head[p].0 == be[p].0);
                assert(tab_has_key(tail, tail[q - head.len()].0));
                if be[p].0 == tail[q - head.len()].0 {
                    assert(tab_has_key(be, tail[q - head.len()].0));
                }
            }
        }
    }
    assert forall|k: Seq<char>|
        tab_has_key(be, k) && !tab_has_key(oe, k) implies #[trigger] tab_get(me, k) == tab_get(
        be,
        k,
    ) by {
        let i = tab_index_of(be, k);
        lemma_get_unique(be, k, i);
        assert(me[i] == head[i] && head[i] == be[i]);
        lemma_get_unique(me, k, i);
    }
    assert forall|k: Seq<char>|
        tab_has_key(be, k) && tab_has_key(oe, k) implies #[trigger] tab_get(me, k) == spec_merge(
        tab_get(be, k),
        tab_get(oe, k),
    ) by {
        let i = tab_index_of(be, k);
        lemma_get_unique(be, k, i);
        assert(me[i] == head[i]);
        assert(head[i] == (k, spec_merge(be[i].1, tab_get(oe, k))));
        lemma_get_unique(me, k, i);
    }
    assert forall|k: Seq<char>|
        !tab_has_key(be, k) && tab_has_key(oe, k) implies #[trigger] tab_get(me, k) == tab_get(
        oe,
        k,
    ) by {
        assert(tab_has_key(tail, k));
        let i = tab_index_of(tail, k);
        assert(0 <= i < tail.len() && tail[i].0 == k);
        assert(me[head.len() + i] == tail[i]);
        lemma_get_unique(me, k, head.len() + i);
        lemma_get_unique(tail, k, i);
    }
}

/// Anything but a pair of tables is never combined: the overlay replaces the
/// base wholesale. In particular two arrays are not concatenated or merged
/// element-wise.
pub proof fn lemma_merge_replaces(base: TreeModel, overlay: TreeModel)
    requires
        !(base is Table) || !(overlay is Table),
    ensures
        spec_merge(base, overlay) == overlay,
{
}

/// Overlaying distributes over concatenation of the base entries.
proof fn lemma_overlaid_concat(
    xs: Seq<(Seq<char>, TreeModel)>,
    ys: Seq<(Seq<char>, TreeModel)>,
    oe: Seq<(Seq<char>, TreeModel)>,
)
    ensures
        entries_overlaid(xs + ys, oe) == entries_overlaid(xs, oe) + entries_overlaid(ys, oe),
    decreases ys.len(),
{
    if ys.len() == 0 {
        assert(xs + ys =~= xs);
        assert(entries_overlaid(ys, oe) =~= Seq::empty());
        assert(entries_overlaid(xs, oe) + entries_overlaid(ys, oe) =~= entries_overlaid(xs, oe));
    } else {
        let ys0 = ys.drop_last();
        lemma_overlaid_concat(xs, ys0, oe);
        assert((xs + ys).drop_last() =~= xs + ys0);
        assert((xs + ys).last() == ys.last());
        let e = ys.last();
        if tab_has_key(oe, e.0) {
            let f = (e.0, spec_merge(e.1, tab_get(oe, e.0)));
            assert(entries_overlaid(xs + ys, oe) == (entries_overlaid(xs, oe) + entries_overlaid(
                ys0,
                oe,
            )).push(f));
            assert((entries_overlaid(xs, oe) + entries_overlaid(ys0, oe)).push(f)
                =~= entries_overlaid(xs, oe) + entries_overlaid(ys0, oe).push(f));
        } else {
            assert(entries_overlaid(xs + ys, oe) == (entries_overlaid(xs, oe) + entries_overlaid(
                ys0,
                oe,
            )).push(e));
            assert((entries_overlaid(xs, oe) + entries_overlaid(ys0, oe)).push(e)
                =~= entries_overlaid(xs, oe) + entries_overlaid(ys0, oe).push(e));
        }
    }
}

/// The difference distributes over concatenation of the first argument.
proof fn lemma_minus_concat(
    xs: Seq<(Seq<char>, TreeModel)>,
    ys: Seq<(Seq<char>, TreeModel)>,
    zs: Seq<(Seq<char>, TreeModel)>,
)
    ensures
        entries_minus(xs + ys, zs) == entries_minus(xs, zs) + entries_minus(ys, zs),
    decreases ys.len(),
{
    if ys.len() == 0 {
        assert(xs + ys =~= xs);
        assert(entries_minus(ys, zs) =~= Seq::empty());
        assert(entries_minus(xs, zs) + entries_minus(ys, zs) =~= entries_minus(xs, zs));
    } else {
        let ys0 = ys.drop_last();
        lemma_minus_concat(xs, ys0, zs);
        assert((xs + ys).drop_last() =~= xs + ys0);
        assert((xs + ys).last() == ys.last());
        let e = ys.last();
        if tab_has_key(zs, e.0) {
        } else {
            assert((entries_minus(xs, zs) + entries_minus(ys0, zs)).push(e) =~= entries_minus(
                xs,
                zs,
            ) + entries_minus(ys0, zs).push(e));
        }
    }
}

/// Restricting the base first and overlaying after is the same as overlaying
/// first and restricting after: the overlay never changes a key.
proof fn lemma_overlaid_minus_commute(
    xs: Seq<(Seq<char>, TreeModel)>,
    ys: Seq<(Seq<char>, TreeModel)>,
    zs: Seq<(Seq<char>, TreeModel)>,
)
    ensures
        entries_overlaid(entries_minus(xs, zs), ys) == entries_minus(
            entries_overlaid(xs, ys),
            zs,
        ),
    decreases xs.len(),
{
    if xs.len() == 0 {
    } else {
        let xs0 = xs.drop_last();
        lemma_overlaid_minus_commute(xs0, ys, zs);
        let e = xs.last();
        let f = if tab_has_key(ys, e.0) {
            (e.0, spec_merge(e.1, tab_get(ys, e.0)))
        } else {
            e
        };
        assert(entries_overlaid(xs, ys) == entries_overlaid(xs0, ys).push(f));
        assert(entries_overlaid(xs0, ys).push(f).drop_last() =~= entries_overlaid(xs0, ys));
        if tab_has_key(zs, e.0) {
            assert(entries_minus(xs, zs) == entries_minus(xs0, zs));
            assert(entries_minus(entries_overlaid(xs, ys), zs) == entries_minus(
                entries_overlaid(xs0, ys),
                zs,
            ));
        } else {
            assert(entries_minus(xs, zs) == entries_minus(xs0, zs).push(e));
            assert(entries_minus(xs0, zs).push(e).drop_last() =~= entries_minus(xs0, zs));
            assert(entries_overlaid(entries_minus(xs, zs), ys) == entries_overlaid(
                entries_minus(xs0, zs),
                ys,
            ).push(f));
            assert(entries_minus(entries_overlaid(xs, ys), zs) == entries_minus(
                entries_overlaid(xs0, ys),
                zs,
            ).push(f));
        }
    }
}

/// Excluding in two steps equals excluding by the concatenation.
proof fn lemma_minus_minus(
    ce: Seq<(Seq<char>, TreeModel)>,
    be: Seq<(Seq<char>, TreeModel)>,
    ae: Seq<(Seq<char>, TreeModel)>,
)
    ensures
        entries_minus(entries_minus(ce, be), ae) == entries_minus(ce, ae + be),
    decreases ce.len(),
{
    lemma_concat_keys(ae, be);
    if ce.len() == 0 {
    } else {
        let ce0 = ce.drop_last();
        lemma_minus_minus(ce0, be, ae);
        let e = ce.last();
        if tab_has_key(be, e.0) {
            assert(entries_minus(ce, be) == entries_minus(ce0, be));
        } else {
            assert(entries_minus(ce, be) == entries_minus(ce0, be).push(e));
            assert(entries_minus(ce0, be).push(e).drop_last() =~= entries_minus(ce0, be));
        }
    }
}

/// The difference depends on the excluded entries only through their keys.
proof fn lemma_minus_congruent(
    xs: Seq<(Seq<char>, TreeModel)>,
    zs1: Seq<(Seq<char>, TreeModel)>,
    zs2: Seq<(Seq<char>, TreeModel)>,
)
    requires
        forall|k: Seq<char>| #[trigger] tab_has_key(zs1, k) <==> tab_has_key(zs2, k),
    ensures
        entries_minus(xs, zs1) == entries_minus(xs, zs2),
    decreases xs.len(),
{
    if xs.len() > 0 {
        lemma_minus_congruent(xs.drop_last(), zs1, zs2);
    }
}

/// The inputs on which the merge of three trees re-associates: at no point
/// reachable in all three documents does a non-table in the middle hide a
/// table of the first from a table of the third.
pub open spec fn assoc_compatible(a: TreeModel, b: TreeModel, c: TreeModel) -> bool
    decreases a,
    via assoc_compatible_dec
{
    &&& !(a is Table && !(b is Table) && c is Table)
    &&& ((a is Table && b is Table && c is Table) ==> (forall|k: Seq<char>|
        (#[trigger] tab_has_key(a->Table_0, k) && tab_has_key(b->Table_0, k) && tab_has_key(
            c->Table_0,
            k,
        )) ==> assoc_compatible(
            tab_get(a->Table_0, k),
            tab_get(b->Table_0, k),
            tab_get(c->Table_0, k),
        )))
}

#[via_fn]
proof fn assoc_compatible_dec(a: TreeModel, b: TreeModel, c: TreeModel) {
    if a is Table && b is Table && c is Table {
        assert forall|k: Seq<char>|
            tab_has_key(a->Table_0, k) && tab_has_key(b->Table_0, k) && tab_has_key(
                c->Table_0,
                k,
            ) implies decreases_to!(a => tab_get(a->Table_0, k)) by {
            let ae = a->Table_0;
            let i = tab_index_of(ae, k);
            assert(0 <= i < ae.len() && ae[i].0 == k);
            assert(decreases_to!(a => a->Table_0));
            assert(decreases_to!(ae => ae[i]));
            assert(decreases_to!(ae[i] => ae[i].1));
            assert(decreases_to!(a => ae[i].1));
        }
    }
}

/// Merge is associative-in-precedence: merging `a` then `b` then `c`, each
/// overlay of the previous, yields the same tree as merging `a` with the
/// merge of `b` overlaid by `c`, on every compatible triple.
pub proof fn lemma_merge_associative(a: TreeModel, b: TreeModel, c: TreeModel)
    requires
        model_wf(a),
        model_wf(b),
        model_wf(c),
        assoc_compatible(a, b, c),
    ensures
        spec_merge(spec_merge(a, b), c) == spec_merge(a, spec_merge(b, c)),
    decreases a,
{
    if !(a is Table) || !(b is Table) || !(c is Table) {
        // Degenerate shapes: at least one side replaces wholesale.
    } else {
        let ae = a->Table_0;
        let be = b->Table_0;
        let ce = c->Table_0;
        let ab = spec_merge(a, b);
        let bc = spec_merge(b, c);
        let abe = ab->Table_0;
        let bce = bc->Table_0;
        lemma_merge_table_lookup(a, b);
        lemma_merge_table_lookup(b, c);
        lemma_overlaid_pointwise(ae, be);
        lemma_overlaid_pointwise(be, ce);
        lemma_overlaid_keys(ae, be);
        lemma_minus_pointwise(be, ae);
        lemma_minus_pointwise(ce, be);
        lemma_concat_keys(entries_overlaid(ae, be), entries_minus(be, ae));
        lemma_concat_keys(ae, be);

        // Left side, split into three segments.
        lemma_overlaid_concat(entries_overlaid(ae, be), entries_minus(be, ae), ce);
        lemma_minus_congruent(ce, abe, ae + be);
        // Right side, split into three segments.
        lemma_minus_concat(entries_overlaid(be, ce), entries_minus(ce, be), ae);
        lemma_minus_minus(ce, be, ae);

        let seg1l = entries_overlaid(entries_overlaid(ae, be), ce);
        let seg1r = entries_overlaid(ae, bce);
        let seg2l = entries_overlaid(entries_minus(be, ae), ce);
        let seg2r = entries_minus(entries_overlaid(be, ce), ae);
        let seg3 = entries_minus(ce, ae + be);

        lemma_overlaid_minus_commute(be, ce, ae);
        assert(seg2l == seg2r);

        lemma_overlaid_pointwise(entries_overlaid(ae, be), ce);
        lemma_overlaid_pointwise(ae, bce);
        assert(seg1l =~= seg1r) by {
            assert(seg1l.len() == ae.len() && seg1r.len() == ae.len());
            assert forall|i: int| 0 <= i < ae.len() implies seg1l[i] == seg1r[i] by {
                let k = ae[i].0;
                let v = ae[i].1;
                lemma_get_unique(ae, k, i);
                assert(entries_overlaid(ae, be)[i] == (if tab_has_key(be, k) {
                    (k, spec_merge(v, tab_get(be, k)))
                } else {
                    ae[i]
                }));
                if tab_has_key(be, k) && tab_has_key(ce, k) {
                    assert(tab_get(bce, k) == spec_merge(tab_get(be, k), tab_get(ce, k)));
                    assert(model_wf(v) && model_wf(tab_get(be, k)) && model_wf(tab_get(ce, k)))
                        by {
                        let ib = tab_index_of(be, k);
                        let ic = tab_index_of(ce, k);
                        assert(model_wf(be[ib].1) && model_wf(ce[ic].1));
                    }
                    assert(assoc_compatible(v, tab_get(be, k), tab_get(ce, k)));
                    assert(decreases_to!(a => v)) by {
                        assert(decreases_to!(a => a->Table_0));
                        assert(decreases_to!(ae => ae[i]));
                        assert(decreases_to!(ae[i] => ae[i].1));
                    }
                    lemma_merge_associative(v, tab_get(be, k), tab_get(ce, k));
                } else if tab_has_key(be, k) {
                    assert(tab_get(bce, k) == tab_get(be, k));
                } else if tab_has_key(ce, k) {
                    assert(tab_get(bce, k) == tab_get(ce, k));
                }
            }
        }

        assert(spec_merge(ab, c)->Table_0 == (seg1l + seg2l) + seg3) by {
            assert(entries_overlaid(abe, ce) == seg1l + seg2l);
            assert(entries_minus(ce, abe) == seg3) by {
                assert(forall|k: Seq<char>|
                    #[trigger] tab_has_key(abe, k) <==> tab_has_key(ae + be, k));
            }
        }
        assert(spec_merge(a, bc)->Table_0 == seg1r + (seg2r + seg3)) by {
            assert(entries_minus(bce, ae) == seg2r + seg3);
        }
        assert((seg1l + seg2l) + seg3 =~= seg1r + (seg2r + seg3));
    }
}

proof fn lemma_minus_nothing_excluded(oe: Seq<(Seq<char>, TreeModel)>)
    ensures
        entries_minus(oe, Seq::empty()) == oe,
    decreases oe.len(),
{
    if oe.len() > 0 {
        lemma_minus_nothing_excluded(oe.drop_last());
        assert(oe.drop_last().push(oe.last()) =~= oe);
    }
}

/// An empty table contributes nothing under a table: merging it below
/// leaves the overlay as it stands. This is what a skipped or failed import
/// leaves behind in the fold.
pub proof fn lemma_merge_empty_base(t: TreeModel)
    requires
        t is Table,
    ensures
        spec_merge(empty_table(), t) == t,
{
    lemma_minus_nothing_excluded(t->Table_0);
    assert(entries_overlaid(Seq::empty(), t->Table_0) + entries_minus(
        t->Table_0,
        Seq::empty(),
    ) =~= t->Table_0);
}

proof fn lemma_overlaid_by_nothing(be: Seq<(Seq<char>, TreeModel)>)
    ensures
        entries_overlaid(be, Seq::empty()) == be,
    decreases be.len(),
{
    if be.len() > 0 {
        lemma_overlaid_by_nothing(be.drop_last());
        assert(be.drop_last().push(be.last()) =~= be);
    }
}

/// An empty table overlays nothing: a file without imports merges onto the
/// empty fold unchanged.
pub proof fn lemma_merge_empty_overlay(t: TreeModel)
    requires
        t is Table,
    ensures
        spec_merge(t, empty_table()) == t,
{
    lemma_overlaid_by_nothing(t->Table_0);
    assert(entries_overlaid(t->Table_0, Seq::empty()) + entries_minus(
        Seq::empty(),
        t->Table_0,
    ) =~= t->Table_0);
}

/// The entry that position `j` of the base contributes to the overlaid part.
pub open spec fn overlaid_entry(
    bm: Seq<(Seq<char>, TreeModel)>,
    om: Seq<(Seq<char>, TreeModel)>,
    j: int,
) -> (Seq<char>, TreeModel) {
    if tab_has_key(om, bm[j].0) {
        (bm[j].0, spec_merge(bm[j].1, tab_get(om, bm[j].0)))
    } else {
        bm[j]
    }
}

/// Combine two trees: tables deep-merge per key, everything else is
/// replaced by the overlay.
pub fn merge(base: &TreeValue, overlay: &TreeValue) -> (r: TreeValue)
    requires
        model_wf(base@),
        model_wf(overlay@),
    ensures
        r@ == spec_merge(base@, overlay@),
        model_wf(r@),
    decreases *base,
{
    match (base, overlay) {
        (TreeValue::Table(be), TreeValue::Table(oe)) => {
            let ghost bm = base@->Table_0;
            let ghost om = overlay@->Table_0;
            proof {
                assert(entries_unique_keys(bm) && entries_unique_keys(om));
                lemma_overlaid_pointwise(bm, om);
            }
            let mut out: Vec<(String, TreeValue)> = Vec::new();
            let mut i: usize = 0;
            while i < be.len()
                invariant
                    *base is Table && base->Table_0 == *be,
                    *overlay is Table && overlay->Table_0 == *oe,
                    bm == base@->Table_0,
                    om == overlay@->Table_0,
                    model_wf(base@),
                    model_wf(overlay@),
                    0 <= i <= be.len(),
                    out.len() == i,
                    forall|j: int|
                        0 <= j < i ==> ((#[trigger] out[j]).0@, out[j].1@) == overlaid_entry(
                            bm,
                            om,
                            j,
                        ),
                    forall|j: int| 0 <= j < i ==> model_wf((#[trigger] out[j]).1@),
                decreases be.len() - i,
            {
                proof {
                    assert(bm[i as int] == (be[i as int].0@, be[i as int].1@));
                    assert(model_wf(bm[i as int].1));
                }
                let key = be[i].0.clone();
                match find_key(oe, &key) {
                    Some(j) => {
                        proof {
                            assert(om[j as int] == (oe[j as int].0@, oe[j as int].1@));
                            assert(tab_has_key(om, bm[i as int].0));
                            lemma_get_unique(om, bm[i as int].0, j as int);
                            assert(model_wf(om[j as int].1));
                            assert(base->Table_0 == *be);
                            assert(decreases_to!(*base => base->Table_0));
                            assert(decreases_to!(*be => be@));
                            assert(decreases_to!(be@ => be@[i as int]));
                            assert(decreases_to!(be@[i as int] => be@[i as int].1));
                            assert(decreases_to!(*base => be@[i as int].1));
                        }
                        let merged = merge(&be[i].1, &oe[j].1);
                        out.push((key, merged));
                    },
                    None => {
                        proof {
                            if tab_has_key(om, bm[i as int].0) {
                                let w = tab_index_of(om, bm[i as int].0);
                                assert(om[w] == (oe[w].0@, oe[w].1@));
                            }
                        }
                        out.push((key, be[i].1.clone()));
                    },
                }
                i = i + 1;
            }
            let ghost head = entries_overlaid(bm, om);
            proof {
                assert(entries_model(out@) =~= head);
            }
            let mut j: usize = 0;
            while j < oe.len()
                invariant
                    *base is Table && base->Table_0 == *be,
                    *overlay is Table && overlay->Table_0 == *oe,
                    bm == base@->Table_0,
                    om == overlay@->Table_0,
                    head == entries_overlaid(bm, om),
                    model_wf(base@),
                    model_wf(overlay@),
                    0 <= j <= oe.len(),
                    entries_model(out@) == head + entries_minus(om.take(j as int), bm),
                    forall|p: int| 0 <= p < out.len() ==> model_wf((#[trigger] out[p]).1@),
                decreases oe.len() - j,
            {
                let ghost pre = entries_minus(om.take(j as int), bm);
                proof {
                    assert(om[j as int] == (oe[j as int].0@, oe[j as int].1@));
                    assert(om.take(j + 1).drop_last() =~= om.take(j as int));
                    assert(om.take(j + 1).last() == om[j as int]);
                }
                match find_key(be, &oe[j].0) {
                    Some(w) => {
                        proof {
                            assert(bm[w as int] == (be[w as int].0@, be[w as int].1@));
                            assert(tab_has_key(bm, om[j as int].0));
                            assert(entries_minus(om.take(j + 1), bm) == pre);
                            assert(entries_model(out@) == head + entries_minus(
                                om.take(j + 1),
                                bm,
                            ));
                        }
                    },
                    None => {
                        proof {
                            if tab_has_key(bm, om[j as int].0) {
                                let w = tab_index_of(bm, om[j as int].0);
                                assert(bm[w] == (be[w].0@, be[w].1@));
                            }
                            assert(model_wf(om[j as int].1));
                        }
                        out.push((oe[j].0.clone(), oe[j].1.clone()));
                        proof {
                            assert(!tab_has_key(bm, om[j as int].0));
                            assert(entries_minus(om.take(j + 1), bm) == pre.push(om[j as int]));
                            assert(entries_model(out@) =~= (head + pre).push(om[j as int]));
                            assert((head + pre).push(om[j as int]) =~= head + pre.push(
                                om[j as int],
                            ));
                            assert(entries_model(out@) == head + entries_minus(
                                om.take(j + 1),
                                bm,
                            ));
                        }
                    },
                }
                j = j + 1;
            }
            let r = TreeValue::Table(out);
            proof {
                assert(om.take(oe.len() as int) =~= om);
                let tail = entries_minus(om, bm);
                assert(r@->Table_0 =~= entries_model(r->Table_0@));
                assert(r@->Table_0 == head + tail);
                assert(r@ == spec_merge(base@, overlay@));
                lemma_minus_pointwise(om, bm);
                lemma_minus_unique(om, bm);
                assert(entries_unique_keys(head + tail)) by {
                    assert forall|p: int, q: int| 0 <= p < q < (head + tail).len() implies (
                    #[trigger] (head + tail)[p]).0 != (#[trigger] (head + tail)[q]).0 by {
                        if q < head.len() {
                            assert((head + tail)[p] == head[p] && (head + tail)[q] == head[q]);
                            assert(head[p].0 == bm[p].0 && head[q].0 == bm[q].0);
                        } else if p >= head.len() {
                            assert((head + tail)[p] == tail[p - head.len()]);
                            assert((head + tail)[q] == tail[q - head.len()]);
                        } else {
                            assert((head + tail)[p] == head[p]);
                            assert((head + tail)[q] == tail[q - head.len()]);
                            assert(head[p].0 == bm[p].0);
                            let tq = tail[q - head.len()];
                            assert(tab_has_key(tail, tq.0));
                            if bm[p].0 == tq.0 {
                                assert(tab_has_key(bm, tq.0));
                            }
                        }
                    }
                }
                assert(model_wf(r@)) by {
                    assert forall|p: int| 0 <= p < (head + tail).len() implies model_wf(
                        (#[trigger] (head + tail)[p]).1,
                    ) by {
                        assert((head + tail)[p] == entries_model(r->Table_0@)[p]);
                    }
                }
            }
            r
        },
        _ => {
            let r = overlay.clone();
            r
        },
    }
}

} // verus!
