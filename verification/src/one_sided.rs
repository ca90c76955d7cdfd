use vstd::prelude::*;

use crate::diff::{
    absent_from, classified, excluding, has_id, id_changes, inserted_change, inserted_changes,
    matched_by_id_has_no_unmatched_kind, merge_changes, merge_ids,
    merge_sources, name_phase, no_matches, pair_changes, raw_changes, remaining_new, remaining_old,
    rename_candidates, rename_phase, split_changes, unique_ids, RenameCandidate,
};
use crate::merge::{
    base_phase, branch_changes, change_for, from_snapshot, has_kind, id_partner,
    inserted_in, kept_against_unchanged, merge_state, ours_insertions, path_index, path_table,
    theirs_insertions, InsertState, MergeState,
};
use crate::model::{snapshot_of, ChangeView, EntityView, IndexView, SemanticChange, SemanticChangeKind, SemanticEntity};
use crate::sort::{sort_stable, sorting_keeps_members, sorting_loses_nothing};

verus! {

/// The ids of `es`, in order.
pub open spec fn ids_of(es: Seq<EntityView>) -> Seq<Seq<char>> {
    es.map_values(|e: EntityView| e.id)
}

/// Whether `xs` holds every id of `es`.
pub open spec fn keeps_every_id(es: Seq<EntityView>, xs: Seq<EntityView>) -> bool {
    forall|i: int| 0 <= i < es.len() ==> #[trigger] has_id(xs, es[i].id)
}

/// The entities of `xs` whose ids `es` does not hold: what `xs` inserts.
pub open spec fn new_entities(es: Seq<EntityView>, xs: Seq<EntityView>) -> Seq<EntityView> {
    absent_from(xs, es)
}

proof fn lemma_excluding_nothing(es: Seq<EntityView>)
    ensures
        excluding(es, seq![]) == es,
    decreases es.len(),
{
    if es.len() > 0 {
        lemma_excluding_nothing(es.drop_last());
        assert(es.drop_last().push(es.last()) =~= es);
    }
}

proof fn lemma_no_merges(rn: Seq<EntityView>)
    ensures
        merge_changes(seq![], rn) == Seq::<ChangeView>::empty(),
        merge_ids(seq![], rn) == Seq::<Seq<char>>::empty(),
    decreases rn.len(),
{
    if rn.len() > 0 {
        lemma_no_merges(rn.drop_last());
        assert(merge_sources(rn.last(), seq![]) == Seq::<EntityView>::empty());
    }
}

proof fn lemma_inserted_changes(rn: Seq<EntityView>)
    ensures
        inserted_changes(rn, seq![]).len() == rn.len(),
        forall|j: int| 0 <= j < rn.len() ==> #[trigger] inserted_changes(rn, seq![])[j] == inserted_change(rn[j]),
    decreases rn.len(),
{
    if rn.len() > 0 {
        lemma_inserted_changes(rn.drop_last());
        let e: Seq<Seq<char>> = seq![];
        assert(!e.contains(rn.last().id));
    }
}

proof fn lemma_absent_members(xs: Seq<EntityView>, es: Seq<EntityView>)
    ensures
        forall|j: int|
            0 <= j < absent_from(xs, es).len() ==> xs.contains(#[trigger] absent_from(xs, es)[j])
                && !has_id(es, absent_from(xs, es)[j].id),
    decreases xs.len(),
{
    if xs.len() > 0 {
        let d = xs.drop_last();
        lemma_absent_members(d, es);
        let a = absent_from(xs, es);
        assert forall|j: int| 0 <= j < a.len() implies xs.contains(#[trigger] a[j]) && !has_id(
            es,
            a[j].id,
        ) by {
            if j < absent_from(d, es).len() {
                assert(a[j] == absent_from(d, es)[j]);
                let k = choose|k: int| 0 <= k < d.len() && d[k] == a[j];
                assert(xs[k] == a[j]);
            } else {
                assert(a[j] == xs.last());
                assert(xs[xs.len() - 1] == a[j]);
            }
        }
    }
}

/// When `xs` keeps every id of `es`, the diff from `es` to `xs` matches every entity of `es`
/// by id and reports every other entity of `xs` as inserted; nothing else.
pub proof fn keeping_every_id_only_inserts(es: Seq<EntityView>, xs: Seq<EntityView>)
    requires
        keeps_every_id(es, xs),
    ensures
        raw_changes(es, xs) == id_changes(es, xs) + inserted_changes(new_entities(es, xs), seq![]),
{
    assert forall|i: int| 0 <= i < es.len() implies has_id(xs, (#[trigger] es[i]).id) by {
        assert(has_id(xs, es[i].id));
    }
    crate::diff::lemma_absent_from_none(es, xs);
    let empty = Seq::<EntityView>::empty();
    let rn = absent_from(xs, es);
    assert(name_phase(es, xs) == no_matches());
    assert(excluding(empty, seq![]) == empty);
    lemma_excluding_nothing(rn);
    assert(rename_candidates(empty, rn) =~= Seq::<(u64, EntityView, EntityView)>::empty());
    assert(sort_stable::<RenameCandidate>(Seq::<(u64, EntityView, EntityView)>::empty())
        =~= Seq::<(u64, EntityView, EntityView)>::empty());
    assert(rename_phase(es, xs) == no_matches());
    assert(remaining_old(es, xs) == empty);
    assert(remaining_new(es, xs) == rn);
    assert(split_changes(empty, rn) == Seq::<ChangeView>::empty());
    lemma_no_merges(rn);
    assert(pair_changes(no_matches().pairs, false) =~= Seq::<ChangeView>::empty());
    assert(pair_changes(no_matches().pairs, true) =~= Seq::<ChangeView>::empty());
    assert(raw_changes(es, xs) =~= id_changes(es, xs) + inserted_changes(rn, seq![]));
}

proof fn lemma_id_changes_all(es: Seq<EntityView>, xs: Seq<EntityView>, n: int)
    requires
        keeps_every_id(es, xs),
        0 <= n <= es.len(),
    ensures
        id_changes(es.take(n), xs).len() == n,
        forall|i: int|
            0 <= i < n ==> #[trigger] id_changes(es.take(n), xs)[i] == classified(
                es[i],
                id_partner(xs, es[i]),
                false,
            ),
    decreases n,
{
    if n > 0 {
        let t = es.take(n);
        assert(t.drop_last() =~= es.take(n - 1));
        assert(t.last() == es[n - 1]);
        lemma_id_changes_all(es, xs, n - 1);
        assert(has_id(xs, es[n - 1].id));
    }
}

/// The raw changes from `es` to `xs` when `xs` keeps every id of `es`: first one classified
/// change per entity of `es`, then one insertion per new entity.
proof fn lemma_raw_members(es: Seq<EntityView>, xs: Seq<EntityView>)
    requires
        keeps_every_id(es, xs),
    ensures
        raw_changes(es, xs).len() == es.len() + new_entities(es, xs).len(),
        forall|i: int|
            0 <= i < es.len() ==> #[trigger] raw_changes(es, xs)[i] == classified(
                es[i],
                id_partner(xs, es[i]),
                false,
            ),
        forall|j: int|
            0 <= j < new_entities(es, xs).len() ==> #[trigger] raw_changes(es, xs)[es.len() + j]
                == inserted_change(new_entities(es, xs)[j]),
{
    keeping_every_id_only_inserts(es, xs);
    lemma_id_changes_all(es, xs, es.len() as int);
    assert(es.take(es.len() as int) =~= es);
    lemma_inserted_changes(new_entities(es, xs));
}

/// With `xs` keeping every id of `es` (ids distinct on both sides), each entity of `es` finds
/// in the sorted changes its classified change, and the insertions are the new entities.
pub(crate) proof fn lemma_changes_with_insertions(es: Seq<EntityView>, xs: Seq<EntityView>)
    requires
        unique_ids(es),
        unique_ids(xs),
        keeps_every_id(es, xs),
    ensures
        forall|i: int|
            0 <= i < es.len() ==> #[trigger] change_for(
                sort_stable::<SemanticChange>(raw_changes(es, xs)),
                es[i].id,
            ) == Some(classified(es[i], id_partner(xs, es[i]), false)),
        inserted_in(xs, sort_stable::<SemanticChange>(raw_changes(es, xs))) == new_entities(es, xs),
{
    let raw = raw_changes(es, xs);
    let sorted = sort_stable::<SemanticChange>(raw);
    let rn = new_entities(es, xs);
    lemma_raw_members(es, xs);
    lemma_absent_members(xs, es);
    sorting_keeps_members::<SemanticChange>(raw);
    sorting_loses_nothing::<SemanticChange>(raw);
    // Every raw change is anchored at the id of the entity it reports.
    assert forall|k: int| 0 <= k < raw.len() implies (#[trigger] raw[k]).anchor_id == (if k
        < es.len() {
        es[k].id
    } else {
        rn[k - es.len()].id
    }) by {
        if k >= es.len() {
            assert(raw[es.len() + (k - es.len())] == inserted_change(rn[k - es.len()]));
        }
    }
    assert forall|i: int| 0 <= i < es.len() implies #[trigger] change_for(sorted, es[i].id) == Some(
        classified(es[i], id_partner(xs, es[i]), false),
    ) by {
        let c = raw[i];
        assert(sorted.contains(raw[i]));
        assert forall|j: int| 0 <= j < sorted.len() && (#[trigger] sorted[j]).anchor_id
            == es[i].id implies sorted[j] == c by {
            let k = choose|k: int| 0 <= k < raw.len() && raw[k] == sorted[j];
            if k < es.len() {
                if k != i {
                    if k < i {
                        assert(es[k].id != es[i].id);
                    } else {
                        assert(es[i].id != es[k].id);
                    }
                }
            } else {
                let n = rn[k - es.len()];
                assert(!has_id(es, n.id));
                assert(es[i].id == n.id);
            }
        }
        crate::merge::lemma_change_for_unique(sorted, es[i].id, c);
    }
    lemma_inserted_in_prefix(es, xs, xs.len() as int);
    assert(xs.take(xs.len() as int) =~= xs);
}

proof fn lemma_inserted_in_prefix(es: Seq<EntityView>, xs: Seq<EntityView>, n: int)
    requires
        unique_ids(es),
        unique_ids(xs),
        keeps_every_id(es, xs),
        0 <= n <= xs.len(),
        forall|i: int|
            0 <= i < es.len() ==> #[trigger] change_for(
                sort_stable::<SemanticChange>(raw_changes(es, xs)),
                es[i].id,
            ) == Some(classified(es[i], id_partner(xs, es[i]), false)),
    ensures
        inserted_in(xs.take(n), sort_stable::<SemanticChange>(raw_changes(es, xs))) == absent_from(
            xs.take(n),
            es,
        ),
    decreases n,
{
    if n > 0 {
        let raw = raw_changes(es, xs);
        let sorted = sort_stable::<SemanticChange>(raw);
        let rn = new_entities(es, xs);
        let t = xs.take(n);
        assert(t.drop_last() =~= xs.take(n - 1));
        assert(t.last() == xs[n - 1]);
        lemma_inserted_in_prefix(es, xs, n - 1);
        let y = xs[n - 1];
        if has_id(es, y.id) {
            let i = choose|i: int| 0 <= i < es.len() && #[trigger] es[i].id == y.id;
            assert(change_for(sorted, es[i].id) == Some(classified(es[i], id_partner(xs, es[i]), false)));
            matched_by_id_has_no_unmatched_kind(es[i], id_partner(xs, es[i]), SemanticChangeKind::Inserted);
        } else {
            lemma_raw_members(es, xs);
            lemma_absent_members(xs, es);
            lemma_absent_has(xs, es, n - 1);
            let j = choose|j: int| 0 <= j < rn.len() && rn[j] == y;
            let c = inserted_change(y);
            assert(raw[es.len() + j] == c);
            sorting_keeps_members::<SemanticChange>(raw);
            sorting_loses_nothing::<SemanticChange>(raw);
            assert(sorted.contains(raw[es.len() + j]));
            assert forall|m: int| 0 <= m < sorted.len() && (#[trigger] sorted[m]).anchor_id
                == y.id implies sorted[m] == c by {
                let k = choose|k: int| 0 <= k < raw.len() && raw[k] == sorted[m];
                if k < es.len() {
                    assert(raw[k] == classified(es[k], id_partner(xs, es[k]), false));
                    assert(has_id(es, y.id));
                } else {
                    let q = k - es.len();
                    assert(raw[es.len() + q] == inserted_change(rn[q]));
                    assert(xs.contains(rn[q]));
                    let a = choose|a: int| 0 <= a < xs.len() && xs[a] == rn[q];
                    if a != n - 1 {
                        if a < n - 1 {
                            assert(xs[a].id != xs[n - 1].id);
                        } else {
                            assert(xs[n - 1].id != xs[a].id);
                        }
                    }
                }
            }
            crate::merge::lemma_change_for_unique(sorted, y.id, c);
            assert(has_kind(c, SemanticChangeKind::Inserted)) by {
                assert(c.kinds[0] == SemanticChangeKind::Inserted);
            }
        }
    }
}

proof fn lemma_absent_has(xs: Seq<EntityView>, es: Seq<EntityView>, k: int)
    requires
        0 <= k < xs.len(),
        !has_id(es, xs[k].id),
    ensures
        absent_from(xs, es).contains(xs[k]),
    decreases xs.len(),
{
    let d = xs.drop_last();
    if k == xs.len() - 1 {
        let a = absent_from(xs, es);
        assert(a[a.len() - 1] == xs[k]);
    } else {
        assert(d[k] == xs[k]);
        lemma_absent_has(d, es, k);
        let a = absent_from(d, es);
        let j = choose|j: int| 0 <= j < a.len() && a[j] == xs[k];
        if !has_id(es, xs.last().id) {
            assert(absent_from(xs, es)[j] == xs[k]);
        }
    }
}

proof fn lemma_applied_ids(bs: Seq<EntityView>, oc: Seq<ChangeView>, tc: Seq<ChangeView>)
    ensures
        base_phase(bs, oc, tc).applied == ids_of(base_phase(bs, oc, tc).merged),
    decreases bs.len(),
{
    if bs.len() > 0 {
        lemma_applied_ids(bs.drop_last(), oc, tc);
        let prev = base_phase(bs.drop_last(), oc, tc);
        let st = base_phase(bs, oc, tc);
        assert(st.applied =~= ids_of(st.merged));
    } else {
        assert(ids_of(base_phase(bs, oc, tc).merged) =~= Seq::<Seq<char>>::empty());
    }
}

proof fn lemma_path_table_members(es: Seq<EntityView>)
    requires
        unique_ids(es),
    ensures
        forall|j: int| 0 <= j < path_table(es).len() ==> es.contains(#[trigger] path_table(es)[j]),
        unique_ids(path_table(es)),
    decreases es.len(),
{
    if es.len() > 0 {
        let d = es.drop_last();
        assert(unique_ids(d)) by {
            assert forall|i: int, j: int| 0 <= i < j < d.len() implies (#[trigger] d[i]).id != (
            #[trigger] d[j]).id by {
                assert(d[i] == es[i] && d[j] == es[j]);
            }
        }
        lemma_path_table_members(d);
        let t = path_table(d);
        let x = es.last();
        crate::merge::lemma_path_index(t, x.path);
        let i = path_index(t, x.path);
        let r = path_table(es);
        assert forall|j: int| 0 <= j < t.len() implies #[trigger] t[j].id != x.id by {
            let k = choose|k: int| 0 <= k < d.len() && d[k] == t[j];
            assert(es[k] == d[k]);
            assert(es[k].id != es[es.len() - 1].id);
        }
        assert forall|j: int| 0 <= j < r.len() implies es.contains(#[trigger] r[j]) by {
            if r[j] == x {
                assert(es[es.len() - 1] == x);
            } else {
                assert(r[j] == t[j]);
                let k = choose|k: int| 0 <= k < d.len() && d[k] == t[j];
                assert(es[k] == d[k]);
            }
        }
        assert forall|a: int, b: int| 0 <= a < b < r.len() implies (#[trigger] r[a]).id != (
        #[trigger] r[b]).id by {
            if i >= 0 {
                if a == i {
                    assert(r[b] == t[b]);
                } else if b == i {
                    assert(r[a] == t[a]);
                } else {
                    assert(r[a] == t[a] && r[b] == t[b]);
                }
            } else {
                if b == t.len() {
                    assert(r[a] == t[a]);
                } else {
                    assert(r[a] == t[a] && r[b] == t[b]);
                }
            }
        }
    }
}

proof fn lemma_sorted_unique(s: Seq<EntityView>)
    requires
        unique_ids(s),
    ensures
        unique_ids(sort_stable::<SemanticEntity>(s)),
        forall|j: int|
            0 <= j < sort_stable::<SemanticEntity>(s).len() ==> s.contains(
                #[trigger] sort_stable::<SemanticEntity>(s)[j],
            ),
{
    let f = |e: EntityView| e.id;
    let r = sort_stable::<SemanticEntity>(s);
    sorting_keeps_members::<SemanticEntity>(s);
    crate::sort::sorting_keeps_mapped_multiset::<SemanticEntity, Seq<char>>(s, f);
    assert(s.map_values(f).no_duplicates()) by {
        assert forall|i: int, j: int|
            0 <= i < s.len() && 0 <= j < s.len() && i != j implies s.map_values(f)[i] != s.map_values(
                f,
            )[j] by {
            if i < j {
                assert(s[i].id != s[j].id);
            } else {
                assert(s[j].id != s[i].id);
            }
        }
    }
    s.map_values(f).lemma_multiset_has_no_duplicates();
    r.map_values(f).lemma_multiset_has_no_duplicates_conv();
    assert forall|a: int, b: int| 0 <= a < b < r.len() implies (#[trigger] r[a]).id != (
    #[trigger] r[b]).id by {
        assert(r.map_values(f)[a] == r[a].id);
        assert(r.map_values(f)[b] == r[b].id);
    }
}

proof fn lemma_ours_keep_all(s: InsertState, os: Seq<EntityView>)
    requires
        s.table.len() == 0,
        s.st.applied == ids_of(s.st.merged),
        forall|j: int| 0 <= j < os.len() ==> !s.st.applied.contains(#[trigger] os[j].id),
        unique_ids(os),
    ensures
        ours_insertions(s, os).table.len() == 0,
        ours_insertions(s, os).st.merged == s.st.merged + os,
        ours_insertions(s, os).st.conflicts == s.st.conflicts,
        ours_insertions(s, os).st.applied == ids_of(ours_insertions(s, os).st.merged),
    decreases os.len(),
{
    if os.len() == 0 {
        assert(s.st.merged + os =~= s.st.merged);
    } else {
        let d = os.drop_last();
        assert(unique_ids(d)) by {
            assert forall|i: int, j: int| 0 <= i < j < d.len() implies (#[trigger] d[i]).id != (
            #[trigger] d[j]).id by {
                assert(d[i] == os[i] && d[j] == os[j]);
            }
        }
        assert forall|j: int| 0 <= j < d.len() implies !s.st.applied.contains(#[trigger] d[j].id) by {
            assert(d[j] == os[j]);
        }
        lemma_ours_keep_all(s, d);
        let prev = ours_insertions(s, d);
        let o = os.last();
        assert(!prev.st.applied.contains(o.id)) by {
            if prev.st.applied.contains(o.id) {
                let k = choose|k: int| 0 <= k < prev.st.applied.len() && prev.st.applied[k] == o.id;
                assert(prev.st.merged[k].id == o.id);
                if k < s.st.merged.len() {
                    assert(prev.st.merged[k] == s.st.merged[k]);
                    assert(s.st.applied[k] == o.id);
                    assert(!s.st.applied.contains(os[os.len() - 1].id));
                } else {
                    let q = k - s.st.merged.len();
                    assert(prev.st.merged[k] == d[q]);
                    assert(os[q].id != os[os.len() - 1].id);
                }
            }
        }
        assert(path_index(prev.table, o.path) == -1);
        let r = ours_insertions(s, os);
        assert(r.st.merged =~= s.st.merged + os);
        assert(r.st.applied =~= ids_of(r.st.merged));
    }
}

proof fn lemma_theirs_keep_all(st: MergeState, ts: Seq<EntityView>)
    requires
        st.applied == ids_of(st.merged),
        forall|j: int| 0 <= j < ts.len() ==> !st.applied.contains(#[trigger] ts[j].id),
        unique_ids(ts),
    ensures
        theirs_insertions(st, ts).merged == st.merged + ts,
        theirs_insertions(st, ts).conflicts == st.conflicts,
        theirs_insertions(st, ts).applied == ids_of(theirs_insertions(st, ts).merged),
    decreases ts.len(),
{
    if ts.len() == 0 {
        assert(st.merged + ts =~= st.merged);
    } else {
        let d = ts.drop_last();
        assert(unique_ids(d)) by {
            assert forall|i: int, j: int| 0 <= i < j < d.len() implies (#[trigger] d[i]).id != (
            #[trigger] d[j]).id by {
                assert(d[i] == ts[i] && d[j] == ts[j]);
            }
        }
        assert forall|j: int| 0 <= j < d.len() implies !st.applied.contains(#[trigger] d[j].id) by {
            assert(d[j] == ts[j]);
        }
        lemma_theirs_keep_all(st, d);
        let prev = theirs_insertions(st, d);
        let o = ts.last();
        assert(!prev.applied.contains(o.id)) by {
            if prev.applied.contains(o.id) {
                let k = choose|k: int| 0 <= k < prev.applied.len() && prev.applied[k] == o.id;
                assert(prev.merged[k].id == o.id);
                if k < st.merged.len() {
                    assert(prev.merged[k] == st.merged[k]);
                    assert(st.applied[k] == o.id);
                    assert(!st.applied.contains(ts[ts.len() - 1].id));
                } else {
                    let q = k - st.merged.len();
                    assert(prev.merged[k] == d[q]);
                    assert(ts[q].id != ts[ts.len() - 1].id);
                }
            }
        }
        let r = theirs_insertions(st, ts);
        assert(r.merged =~= st.merged + ts);
        assert(r.applied =~= ids_of(r.merged));
    }
}

/// The entities kept for the base entities when our branch `xs` is merged against an
/// unchanged branch.
pub open spec fn kept_entities(es: Seq<EntityView>, xs: Seq<EntityView>) -> Seq<EntityView> {
    Seq::new(es.len(), |i: int| kept_against_unchanged(es[i], id_partner(xs, es[i])))
}

/// The entities kept for the base entities when their branch `xs` is merged against an
/// unchanged branch: each rebuilt from its counterpart in `xs`.
pub open spec fn taken_entities(es: Seq<EntityView>, xs: Seq<EntityView>) -> Seq<EntityView> {
    Seq::new(es.len(), |i: int| from_snapshot(es[i], snapshot_of(id_partner(xs, es[i]))))
}

proof fn lemma_base_phases(base: IndexView, x: IndexView)
    requires
        unique_ids(base.entities),
        unique_ids(x.entities),
        keeps_every_id(base.entities, x.entities),
    ensures
        ({
            let es = base.entities;
            let xc = branch_changes(base, x);
            let bc = branch_changes(base, base);
            &&& base_phase(es, xc, bc).conflicts.len() == 0
            &&& base_phase(es, bc, xc).conflicts.len() == 0
            &&& base_phase(es, xc, bc).merged == kept_entities(es, x.entities)
            &&& base_phase(es, bc, xc).merged == taken_entities(es, x.entities)
            &&& base_phase(es, xc, bc).applied == ids_of(es)
            &&& base_phase(es, bc, xc).applied == ids_of(es)
            &&& base_phase(es, xc, bc).applied == ids_of(base_phase(es, xc, bc).merged)
            &&& base_phase(es, bc, xc).applied == ids_of(base_phase(es, bc, xc).merged)
            &&& inserted_in(x.entities, xc) == new_entities(es, x.entities)
            &&& forall|ys: Seq<EntityView>| #[trigger] inserted_in(ys, bc) == Seq::<EntityView>::empty()
        }),
{
    let es = base.entities;
    let xs = x.entities;
    let xc = branch_changes(base, x);
    let bc = branch_changes(base, base);
    lemma_changes_with_insertions(es, xs);
    assert(crate::merge::same_id_set(es, es)) by {
        assert forall|i: int| 0 <= i < es.len() implies #[trigger] has_id(es, es[i].id) by {
            assert(es[i].id == es[i].id);
        }
    }
    crate::merge::lemma_changes_by_id(es, es);
    crate::diff::lemma_last_index_unique_all(es);
    assert forall|i: int| 0 <= i < es.len() implies #[trigger] change_for(bc, es[i].id) == Some(
        classified(es[i], es[i], false),
    ) by {
        assert(id_partner(es, es[i]) == es[i]);
    }
    assert forall|i: int| 0 <= i < es.len() implies es.contains(#[trigger] es[i]) by {}
    crate::merge::lemma_base_phase_against_unchanged(es, es, xs, xc, bc, true);
    crate::merge::lemma_base_phase_against_unchanged(es, es, xs, bc, xc, false);
    lemma_applied_ids(es, xc, bc);
    lemma_applied_ids(es, bc, xc);
    let m1 = base_phase(es, xc, bc).merged;
    let m2 = base_phase(es, bc, xc).merged;
    assert forall|i: int| 0 <= i < es.len() implies #[trigger] m1[i].id == es[i].id && m2[i].id
        == es[i].id by {
        assert(has_id(xs, es[i].id));
        crate::diff::lemma_last_index_with_id(xs, es[i].id);
        crate::merge::lemma_kept_carries_partner(es[i], id_partner(xs, es[i]));
    }
    assert(m1 =~= kept_entities(es, xs));
    assert(m2 =~= taken_entities(es, xs));
    assert(ids_of(m1) =~= ids_of(es));
    assert(ids_of(m2) =~= ids_of(es));
}

/// Merging a branch `x` that keeps every id of the base (ids distinct on both sides) against a
/// branch that left the base unchanged is clean, on whichever side `x` stands, and keeps what
/// `x` made. The base entities come first, in base order: as their branch, `x` rebuilds each
/// from its counterpart in `x`; as our branch, `x` does so for each entity it changed, and an
/// entity it left unchanged (same position and hashes) stays as in the base. Then come the
/// entities that `x` inserted: as our branch, all of them in `x`'s order; as their branch,
/// keyed by path (a later insertion at a path replaces an earlier one) and sorted by path.
pub proof fn merging_against_an_unchanged_branch_keeps_its_insertions(base: IndexView, x: IndexView)
    requires
        unique_ids(base.entities),
        unique_ids(x.entities),
        keeps_every_id(base.entities, x.entities),
    ensures
        merge_state(base, x, base).conflicts.len() == 0,
        merge_state(base, base, x).conflicts.len() == 0,
        merge_state(base, x, base).merged == kept_entities(base.entities, x.entities) + new_entities(
            base.entities,
            x.entities,
        ),
        merge_state(base, base, x).merged == taken_entities(base.entities, x.entities)
            + sort_stable::<SemanticEntity>(path_table(new_entities(base.entities, x.entities))),
{
    let es = base.entities;
    let xs = x.entities;
    let ins = new_entities(es, xs);
    let xc = branch_changes(base, x);
    let bc = branch_changes(base, base);
    lemma_base_phases(base, x);
    lemma_absent_members(xs, es);
    let ids = ids_of(es);
    assert forall|j: int| 0 <= j < ins.len() implies !ids.contains(#[trigger] ins[j].id) by {
        if ids.contains(ins[j].id) {
            let k = choose|k: int| 0 <= k < ids.len() && ids[k] == ins[j].id;
            assert(es[k].id == ins[j].id);
        }
    }
    assert(unique_ids(ins)) by {
        assert forall|a: int, b: int| 0 <= a < b < ins.len() implies (#[trigger] ins[a]).id != (
        #[trigger] ins[b]).id by {
            lemma_absent_unique(xs, es);
        }
    }
    let empty = Seq::<EntityView>::empty();
    assert(path_table(empty) == empty);
    assert(sort_stable::<SemanticEntity>(empty) =~= empty);
    // Our branch is `x`.
    let s1 = InsertState { st: base_phase(es, xc, bc), table: path_table(inserted_in(es, bc)) };
    assert(inserted_in(es, bc) == empty);
    lemma_ours_keep_all(s1, ins);
    let r1 = ours_insertions(s1, ins);
    assert(theirs_insertions(r1.st, sort_stable::<SemanticEntity>(r1.table)) == r1.st) by {
        assert(r1.table =~= empty);
    }
    // Their branch is `x`.
    let s2 = InsertState { st: base_phase(es, bc, xc), table: path_table(ins) };
    assert(inserted_in(es, bc) == empty);
    assert(ours_insertions(s2, empty) == s2);
    lemma_path_table_members(ins);
    lemma_sorted_unique(path_table(ins));
    let ts = sort_stable::<SemanticEntity>(path_table(ins));
    assert forall|j: int| 0 <= j < ts.len() implies !base_phase(es, bc, xc).applied.contains(
        #[trigger] ts[j].id,
    ) by {
        assert(path_table(ins).contains(ts[j]));
        let q = choose|q: int| 0 <= q < path_table(ins).len() && path_table(ins)[q] == ts[j];
        assert(ins.contains(path_table(ins)[q]));
        let m = choose|m: int| 0 <= m < ins.len() && ins[m] == ts[j];
        assert(!ids.contains(ins[m].id));
    }
    lemma_theirs_keep_all(base_phase(es, bc, xc), ts);
}

proof fn lemma_absent_unique(xs: Seq<EntityView>, es: Seq<EntityView>)
    requires
        unique_ids(xs),
    ensures
        unique_ids(absent_from(xs, es)),
    decreases xs.len(),
{
    if xs.len() > 0 {
        let d = xs.drop_last();
        assert(unique_ids(d)) by {
            assert forall|i: int, j: int| 0 <= i < j < d.len() implies (#[trigger] d[i]).id != (
            #[trigger] d[j]).id by {
                assert(d[i] == xs[i] && d[j] == xs[j]);
            }
        }
        lemma_absent_unique(d, es);
        lemma_absent_members(d, es);
        let a = absent_from(d, es);
        let r = absent_from(xs, es);
        if !has_id(es, xs.last().id) {
            assert forall|p: int, q: int| 0 <= p < q < r.len() implies (#[trigger] r[p]).id != (
            #[trigger] r[q]).id by {
                if q == a.len() {
                    assert(r[p] == a[p]);
                    let k = choose|k: int| 0 <= k < d.len() && d[k] == a[p];
                    assert(xs[k] == d[k]);
                    assert(xs[k].id != xs[xs.len() - 1].id);
                } else {
                    assert(r[p] == a[p] && r[q] == a[q]);
                }
            }
        }
    }
}

} // verus!
