use vstd::prelude::*;

use crate::merge::{
    apply_resolution, base_phase, base_resolution, branch_changes, change_for,
    concurrent_resolution, has_kind, merge_state, ours_insertion, ours_insertions, path_index,
    theirs_insertions, InsertState, MergeState, ResolutionView,
};
use crate::model::{
    snapshot_of, ChangeView, ConflictCause, ConflictView, EntityView, IndexView,
    SemanticChangeKind,
};

verus! {

// ---------------------------------------------------------------------------------------------
// A deletion against a change
// ---------------------------------------------------------------------------------------------

/// When one branch deletes an entity and the other does not, the merge does not pick a side:
/// it reports a delete-versus-modification conflict anchored at the base entity, with the base
/// entity's snapshot. When both delete it, it is dropped without conflict.
pub proof fn deletion_against_a_change_conflicts(base: EntityView, ours: ChangeView, theirs: ChangeView)
    ensures
        has_kind(ours, SemanticChangeKind::Deleted) != has_kind(theirs, SemanticChangeKind::Deleted)
            ==> (concurrent_resolution(base, ours, theirs) matches ResolutionView::Conflict(c)
            && c.cause == ConflictCause::DeleteVsModification && c.anchor_id == base.id && c.base
            == Some(snapshot_of(base))),
        has_kind(ours, SemanticChangeKind::Deleted) && has_kind(theirs, SemanticChangeKind::Deleted)
            ==> concurrent_resolution(base, ours, theirs) is Drop,
{
}

proof fn lemma_resolution_keeps_conflicts(st: MergeState, r: ResolutionView)
    ensures
        forall|j: int|
            0 <= j < st.conflicts.len() ==> #[trigger] apply_resolution(st, r).conflicts.contains(
                st.conflicts[j],
            ),
        r matches ResolutionView::Conflict(x) ==> apply_resolution(st, r).conflicts.contains(x),
{
    let after = apply_resolution(st, r);
    assert forall|j: int| 0 <= j < st.conflicts.len() implies #[trigger] after.conflicts.contains(
        st.conflicts[j],
    ) by {
        assert(after.conflicts[j] == st.conflicts[j]);
    }
    if let ResolutionView::Conflict(x) = r {
        assert(after.conflicts[st.conflicts.len() as int] == x);
    }
}

/// The conflict that resolving a base entity reports stays among the conflicts of the base
/// phase.
proof fn lemma_base_phase_keeps_conflict(
    bs: Seq<EntityView>,
    oc: Seq<ChangeView>,
    tc: Seq<ChangeView>,
    i: int,
    x: ConflictView,
)
    requires
        0 <= i < bs.len(),
        base_resolution(bs[i], change_for(oc, bs[i].id), change_for(tc, bs[i].id))
            == ResolutionView::Conflict(x),
    ensures
        base_phase(bs, oc, tc).conflicts.contains(x),
    decreases bs.len(),
{
    let d = bs.drop_last();
    let b = bs.last();
    let r = base_resolution(b, change_for(oc, b.id), change_for(tc, b.id));
    lemma_resolution_keeps_conflicts(base_phase(d, oc, tc), r);
    if i < bs.len() - 1 {
        assert(d[i] == bs[i]);
        lemma_base_phase_keeps_conflict(d, oc, tc, i, x);
        let prev = base_phase(d, oc, tc);
        let j = choose|j: int| 0 <= j < prev.conflicts.len() && prev.conflicts[j] == x;
        assert(apply_resolution(prev, r).conflicts.contains(prev.conflicts[j]));
    } else {
        assert(bs[i] == b);
    }
}

proof fn lemma_ours_insertions_keep_conflicts(s: InsertState, os: Seq<EntityView>, x: ConflictView)
    requires
        s.st.conflicts.contains(x),
    ensures
        ours_insertions(s, os).st.conflicts.contains(x),
    decreases os.len(),
{
    if os.len() > 0 {
        lemma_ours_insertions_keep_conflicts(s, os.drop_last(), x);
        let prev = ours_insertions(s, os.drop_last());
        let r = ours_insertion(prev, os.last());
        let j = choose|j: int| 0 <= j < prev.st.conflicts.len() && prev.st.conflicts[j] == x;
        assert(r.st.conflicts[j] == x);
    }
}

proof fn lemma_theirs_insertions_keep_conflicts(st: MergeState, ts: Seq<EntityView>)
    ensures
        theirs_insertions(st, ts).conflicts == st.conflicts,
    decreases ts.len(),
{
    if ts.len() > 0 {
        lemma_theirs_insertions_keep_conflicts(st, ts.drop_last());
    }
}

/// A base entity that one branch deletes while the other changes it (in any way but a
/// deletion) makes the merge report a delete-versus-modification conflict anchored at it, so
/// the merge is not clean and gives no merged index.
pub proof fn deleting_a_changed_entity_blocks_the_merge(
    base: IndexView,
    ours: IndexView,
    theirs: IndexView,
    i: int,
)
    requires
        0 <= i < base.entities.len(),
        change_for(branch_changes(base, ours), base.entities[i].id) is Some,
        change_for(branch_changes(base, theirs), base.entities[i].id) is Some,
        has_kind(change_for(branch_changes(base, ours), base.entities[i].id)->0, SemanticChangeKind::Deleted)
            != has_kind(
            change_for(branch_changes(base, theirs), base.entities[i].id)->0,
            SemanticChangeKind::Deleted,
        ),
    ensures
        merge_state(base, ours, theirs).conflicts.len() > 0,
        exists|j: int|
            0 <= j < merge_state(base, ours, theirs).conflicts.len() && (#[trigger] merge_state(
                base,
                ours,
                theirs,
            ).conflicts[j]).cause == ConflictCause::DeleteVsModification && merge_state(
                base,
                ours,
                theirs,
            ).conflicts[j].anchor_id == base.entities[i].id,
{
    let b = base.entities[i];
    let oc = branch_changes(base, ours);
    let tc = branch_changes(base, theirs);
    let o = change_for(oc, b.id)->0;
    let t = change_for(tc, b.id)->0;
    deletion_against_a_change_conflicts(b, o, t);
    let x = match concurrent_resolution(b, o, t) {
        ResolutionView::Conflict(c) => c,
        _ => arbitrary(),
    };
    lemma_base_phase_keeps_conflict(base.entities, oc, tc, i, x);
    let s1 = crate::merge::InsertState {
        st: base_phase(base.entities, oc, tc),
        table: crate::merge::path_table(crate::merge::inserted_in(theirs.entities, tc)),
    };
    let os = crate::merge::inserted_in(ours.entities, oc);
    lemma_ours_insertions_keep_conflicts(s1, os, x);
    let r1 = ours_insertions(s1, os);
    lemma_theirs_insertions_keep_conflicts(
        r1.st,
        crate::sort::sort_stable::<crate::model::SemanticEntity>(r1.table),
    );
    let m = merge_state(base, ours, theirs);
    assert(m.conflicts == r1.st.conflicts);
    let j = choose|j: int| 0 <= j < m.conflicts.len() && m.conflicts[j] == x;
    assert(m.conflicts[j].cause == ConflictCause::DeleteVsModification);
}

// ---------------------------------------------------------------------------------------------
// Insertions at one path
// ---------------------------------------------------------------------------------------------

/// When our insertion meets their insertion at the same path and the two differ in full hash,
/// the merge keeps neither: it reports one concurrent-insertion conflict anchored at the path,
/// keeps no entity, and takes their insertion out of the table so it is not kept later. An
/// insertion met at the same path is kept (once) exactly when the two full hashes agree.
pub proof fn insertions_at_one_path_agree_or_conflict(s: InsertState, o: EntityView)
    requires
        !s.st.applied.contains(o.id),
        path_index(s.table, o.path) >= 0,
    ensures
        ({
            let t = s.table[path_index(s.table, o.path)];
            let r = ours_insertion(s, o);
            &&& r.table == s.table.remove(path_index(s.table, o.path))
            &&& t.path == o.path
            &&& (o.full_hash != t.full_hash ==> {
                &&& r.st.merged == s.st.merged
                &&& r.st.conflicts.len() == s.st.conflicts.len() + 1
                &&& r.st.conflicts.drop_last() == s.st.conflicts
                &&& r.st.conflicts.last().cause == ConflictCause::ConcurrentInsertion
                &&& r.st.conflicts.last().anchor_id == o.path
            })
            &&& (o.full_hash == t.full_hash ==> {
                &&& r.st.merged == s.st.merged.push(o)
                &&& r.st.conflicts == s.st.conflicts
            })
            &&& (r.st.merged.len() > s.st.merged.len() <==> o.full_hash == t.full_hash)
        }),
{
    crate::merge::lemma_path_index(s.table, o.path);
    let r = ours_insertion(s, o);
    assert(r.st.conflicts.drop_last() =~= s.st.conflicts || r.st.conflicts == s.st.conflicts);
}

} // verus!
