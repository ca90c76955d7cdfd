use vstd::prelude::*;
use vstd::string::StringExecFns;

use crate::diff::{
    change_kinds, change_well_reported, classified, diff_indices,
    diffing_against_itself_changes_nothing, first_context, has_id, last_index_with_id,
    matched_by_id_has_no_unmatched_kind, raw_changes, same_ids_match_by_id, unique_ids,
    well_reported,
};
use crate::hash::{build_full_hash, full_hash_of};
use crate::model::{
    clone_opt_context, clone_opt_snapshot, metadata_insert, metadata_store, opt_str, opt_view,
    snapshot_of, str_equal, vec_view, ChangeView, ConflictCause, ConflictView, EntitySnapshot,
    EntityView, ExportBinding, ExportView, FileSemanticIndex, IndexView, MergeResult, MergeStatus,
    MergeView, MetadataValue, MetadataValueView, SemanticChange, SemanticChangeKind,
    SemanticConflict, SemanticEntity, SnapshotView,
};
use crate::sort::{
    chars_lt, lemma_chars_lt_asymmetric, lemma_chars_lt_total, lemma_chars_lt_transitive,
    sort_stable, sorted_by, sorting_keeps_members, sorting_loses_nothing, sorting_sorts,
    stable_sort, str_lt,
    strict_weak_order, SortKeyed,
};
use crate::text::{concat, concat3, or_empty};

verus! {

// ---------------------------------------------------------------------------------------------
// Resolving one base entity
// ---------------------------------------------------------------------------------------------

/// How one base entity comes out of the merge.
pub enum ResolutionView {
    Take(EntityView, ChangeView),
    Drop(ChangeView),
    Conflict(ConflictView),
}

enum Resolution {
    Take(SemanticEntity, SemanticChange),
    Drop(SemanticChange),
    Conflict(SemanticConflict),
}

impl View for Resolution {
    type V = ResolutionView;

    closed spec fn view(&self) -> ResolutionView {
        match self {
            Resolution::Take(e, c) => ResolutionView::Take(e@, c@),
            Resolution::Drop(c) => ResolutionView::Drop(c@),
            Resolution::Conflict(x) => ResolutionView::Conflict(x@),
        }
    }
}

/// `base` with the identity, text and hashes of `snapshot`.
pub open spec fn from_snapshot(base: EntityView, snapshot: SnapshotView) -> EntityView {
    EntityView {
        id: snapshot.id,
        name: snapshot.name,
        path: snapshot.path,
        signature: snapshot.signature,
        body_hash: snapshot.body_hash,
        full_hash: snapshot.full_hash,
        signature_hash: snapshot.signature_hash,
        shape_hash: snapshot.shape_hash,
        snippet: snapshot.snippet,
        body: snapshot.body,
        ..base
    }
}

/// Rebuilding an entity from a snapshot of the same kind gives back the snapshot, and keeps
/// the base entity's kind, parent, spans, dependencies, children and metadata.
pub proof fn rebuilding_from_a_snapshot_keeps_it(base: EntityView, snapshot: SnapshotView)
    requires
        snapshot.kind == base.kind,
    ensures
        snapshot_of(from_snapshot(base, snapshot)) == snapshot,
        from_snapshot(base, snapshot).kind == base.kind,
        from_snapshot(base, snapshot).parent == base.parent,
        from_snapshot(base, snapshot).span == base.span,
        from_snapshot(base, snapshot).semantic_span == base.semantic_span,
        from_snapshot(base, snapshot).dependencies == base.dependencies,
        from_snapshot(base, snapshot).children == base.children,
        from_snapshot(base, snapshot).metadata == base.metadata,
        from_snapshot(base, snapshot_of(base)) == base,
{
}

fn entity_from_snapshot(base_entity: &SemanticEntity, snapshot: &EntitySnapshot) -> (r:
    SemanticEntity)
    ensures
        r@ == from_snapshot(base_entity@, snapshot@),
{
    let mut entity = base_entity.clone();
    entity.id = snapshot.id.clone();
    entity.name = snapshot.name.clone();
    entity.path = snapshot.path.clone();
    entity.signature = snapshot.signature.clone();
    entity.body_hash = snapshot.body_hash.clone();
    entity.full_hash = snapshot.full_hash.clone();
    entity.signature_hash = snapshot.signature_hash.clone();
    entity.shape_hash = snapshot.shape_hash.clone();
    entity.snippet = crate::model::clone_opt_str(&snapshot.snippet);
    entity.body = crate::model::clone_opt_str(&snapshot.body);
    entity
}

/// The entity a change leaves: its new snapshot over the base entity, or the base entity.
pub open spec fn entity_after(base: EntityView, change: ChangeView) -> EntityView {
    match change.current {
        Some(s) => from_snapshot(base, s),
        None => base,
    }
}

fn entity_after_exec(base_entity: &SemanticEntity, change: &SemanticChange) -> (r: SemanticEntity)
    ensures
        r@ == entity_after(base_entity@, change@),
{
    match &change.current {
        Some(s) => entity_from_snapshot(base_entity, s),
        None => base_entity.clone(),
    }
}

pub open spec fn has_kind(change: ChangeView, k: SemanticChangeKind) -> bool {
    change.kinds.contains(k)
}

fn has_kind_exec(change: &SemanticChange, k: SemanticChangeKind) -> (r: bool)
    ensures
        r == has_kind(change@, k),
{
    let n = change.kinds.len();
    let mut i: usize = 0;
    while i < n
        invariant
            n == change.kinds@.len(),
            0 <= i <= n,
            forall|j: int| 0 <= j < i ==> change.kinds@[j] != k,
        decreases n - i,
    {
        if change.kinds[i] == k {
            return true;
        }
        i = i + 1;
    }
    false
}

/// Whether the change reports exactly the one kind `k`.
fn kinds_are(change: &SemanticChange, k: SemanticChangeKind) -> (r: bool)
    ensures
        r == (change@.kinds == seq![k]),
{
    let r = change.kinds.len() == 1 && change.kinds[0] == k;
    proof {
        if change.kinds@.len() == 1 && change.kinds@[0] == k {
            assert(change@.kinds =~= seq![k]);
        }
    }
    r
}

/// A single branch's change applied to the base entity: a deletion or split drops it,
/// anything else takes the entity the change leaves.
pub open spec fn single_resolution(base: EntityView, change: ChangeView) -> ResolutionView {
    if has_kind(change, SemanticChangeKind::Deleted) || has_kind(
        change,
        SemanticChangeKind::Split,
    ) {
        ResolutionView::Drop(change)
    } else {
        ResolutionView::Take(entity_after(base, change), change)
    }
}

fn apply_single_change(base_entity: &SemanticEntity, change: &SemanticChange) -> (r: Resolution)
    ensures
        r@ == single_resolution(base_entity@, change@),
{
    if has_kind_exec(change, SemanticChangeKind::Deleted) {
        return Resolution::Drop(change.clone());
    }
    if has_kind_exec(change, SemanticChangeKind::Split) {
        return Resolution::Drop(change.clone());
    }
    let entity = entity_after_exec(base_entity, change);
    Resolution::Take(entity, change.clone())
}

pub open spec fn first_snapshot(a: Option<SnapshotView>, b: Option<SnapshotView>) -> Option<
    SnapshotView,
> {
    if a is Some {
        a
    } else {
        b
    }
}

/// The conflict reported for a base entity that both branches changed.
pub open spec fn conflict_of(
    base: EntityView,
    ours: ChangeView,
    theirs: ChangeView,
    cause: ConflictCause,
    message: Seq<char>,
) -> ConflictView {
    ConflictView {
        anchor_id: base.id,
        cause,
        base: Some(snapshot_of(base)),
        ours: first_snapshot(ours.current, ours.previous),
        theirs: first_snapshot(theirs.current, theirs.previous),
        context: first_context(ours.context, theirs.context),
        message,
    }
}

fn first_snapshot_exec(a: &Option<EntitySnapshot>, b: &Option<EntitySnapshot>) -> (r: Option<
    EntitySnapshot,
>)
    ensures
        opt_view(r) == first_snapshot(opt_view(*a), opt_view(*b)),
{
    if a.is_some() {
        clone_opt_snapshot(a)
    } else {
        clone_opt_snapshot(b)
    }
}

fn first_context_exec(
    a: &Option<crate::model::ContextDiff>,
    b: &Option<crate::model::ContextDiff>,
) -> (r: Option<crate::model::ContextDiff>)
    ensures
        opt_view(r) == first_context(opt_view(*a), opt_view(*b)),
{
    if a.is_some() {
        clone_opt_context(a)
    } else {
        clone_opt_context(b)
    }
}

fn build_conflict(
    base_entity: &SemanticEntity,
    ours_change: &SemanticChange,
    theirs_change: &SemanticChange,
    cause: ConflictCause,
    message: &str,
) -> (r: SemanticConflict)
    ensures
        r@ == conflict_of(base_entity@, ours_change@, theirs_change@, cause, message@),
{
    SemanticConflict {
        anchor_id: base_entity.id.clone(),
        cause,
        base: Some(base_entity.snapshot()),
        ours: first_snapshot_exec(&ours_change.current, &ours_change.previous),
        theirs: first_snapshot_exec(&theirs_change.current, &theirs_change.previous),
        context: first_context_exec(&ours_change.context, &theirs_change.context),
        message: message.to_owned(),
    }
}

/// The kinds in declaration order: the order in which a merged change lists them.
pub open spec fn kind_order() -> Seq<SemanticChangeKind> {
    seq![
        SemanticChangeKind::Unchanged,
        SemanticChangeKind::Moved,
        SemanticChangeKind::SignatureChanged,
        SemanticChangeKind::ImplementationChanged,
        SemanticChangeKind::Renamed,
        SemanticChangeKind::Inserted,
        SemanticChangeKind::Deleted,
        SemanticChangeKind::Split,
        SemanticChangeKind::Merged,
    ]
}

/// The kinds of `order` that occur in `present`, each once, in the order of `order`.
pub open spec fn kinds_present(order: Seq<SemanticChangeKind>, present: Seq<SemanticChangeKind>) -> Seq<
    SemanticChangeKind,
>
    decreases order.len(),
{
    if order.len() == 0 {
        seq![]
    } else {
        let prev = kinds_present(order.drop_last(), present);
        if present.contains(order.last()) {
            prev.push(order.last())
        } else {
            prev
        }
    }
}

/// The change reported when a rename in one branch is combined with an implementation change
/// in the other: the kinds of both, sorted and without repeats.
pub open spec fn combined_change(base: EntityView, ours: ChangeView, theirs: ChangeView) -> ChangeView {
    ChangeView {
        anchor_id: base.id,
        kinds: kinds_present(kind_order(), ours.kinds + theirs.kinds),
        previous: Some(snapshot_of(base)),
        current: if has_kind(ours, SemanticChangeKind::Renamed) {
            first_snapshot(ours.current, theirs.current)
        } else {
            first_snapshot(theirs.current, ours.current)
        },
        related_entities: seq![],
        context: first_context(ours.context, theirs.context),
        explanation: "Auto-resolved rename in one branch with implementation-only change in the other."@,
    }
}

fn all_kinds() -> (r: Vec<SemanticChangeKind>)
    ensures
        r@ == kind_order(),
{
    let r = vec![
        SemanticChangeKind::Unchanged,
        SemanticChangeKind::Moved,
        SemanticChangeKind::SignatureChanged,
        SemanticChangeKind::ImplementationChanged,
        SemanticChangeKind::Renamed,
        SemanticChangeKind::Inserted,
        SemanticChangeKind::Deleted,
        SemanticChangeKind::Split,
        SemanticChangeKind::Merged,
    ];
    assert(r@ =~= kind_order());
    r
}

fn combine_changes(
    base_entity: &SemanticEntity,
    ours_change: &SemanticChange,
    theirs_change: &SemanticChange,
) -> (r: SemanticChange)
    ensures
        r@ == combined_change(base_entity@, ours_change@, theirs_change@),
{
    let ghost present = ours_change@.kinds + theirs_change@.kinds;
    let order = all_kinds();
    let mut kinds: Vec<SemanticChangeKind> = Vec::new();
    let mut i: usize = 0;
    while i < order.len()
        invariant
            order@ == kind_order(),
            present == ours_change@.kinds + theirs_change@.kinds,
            0 <= i <= order@.len(),
            kinds@ == kinds_present(order@.take(i as int), present),
        decreases order@.len() - i,
    {
        let k = order[i];
        assert(order@.take(i + 1).drop_last() =~= order@.take(i as int));
        let in_ours = has_kind_exec(ours_change, k);
        let in_theirs = has_kind_exec(theirs_change, k);
        proof {
            if present.contains(k) {
                let j = choose|j: int| 0 <= j < present.len() && present[j] == k;
                if j < ours_change@.kinds.len() {
                    assert(ours_change@.kinds[j] == k);
                } else {
                    assert(theirs_change@.kinds[j - ours_change@.kinds.len()] == k);
                }
            }
            if in_ours {
                let j = choose|j: int| 0 <= j < ours_change@.kinds.len() && ours_change@.kinds[j] == k;
                assert(present[j] == k);
            }
            if in_theirs {
                let j = choose|j: int|
                    0 <= j < theirs_change@.kinds.len() && theirs_change@.kinds[j] == k;
                assert(present[j + ours_change@.kinds.len()] == k);
            }
        }
        if in_ours || in_theirs {
            kinds.push(k);
        }
        i = i + 1;
    }
    assert(order@.take(order@.len() as int) =~= order@);
    let renamed = has_kind_exec(ours_change, SemanticChangeKind::Renamed);
    let current = if renamed {
        first_snapshot_exec(&ours_change.current, &theirs_change.current)
    } else {
        first_snapshot_exec(&theirs_change.current, &ours_change.current)
    };
    let explanation = "Auto-resolved rename in one branch with implementation-only change in the other.";
    proof {
        reveal_strlit(
            "Auto-resolved rename in one branch with implementation-only change in the other.",
        );
    }
    let r = SemanticChange {
        anchor_id: base_entity.id.clone(),
        kinds,
        previous: Some(base_entity.snapshot()),
        current,
        related_entities: Vec::new(),
        context: first_context_exec(&ours_change.context, &theirs_change.context),
        explanation: explanation.to_owned(),
    };
    assert(r@.related_entities =~= seq![]);
    r
}

/// The entity kept when one branch renamed it and the other changed its implementation: the
/// implementation side's entity with the rename side's identity and signature, a full hash
/// rebuilt from both, and the metadata flag `synthetic_merge`.
pub open spec fn synthesized_entity(base: EntityView, ours: ChangeView, theirs: ChangeView) -> EntityView {
    let (rename, implementation) = if has_kind(ours, SemanticChangeKind::Renamed) {
        (ours, theirs)
    } else {
        (theirs, ours)
    };
    let e = entity_after(base, implementation);
    let s = rename.current.unwrap();
    EntityView {
        id: s.id,
        name: s.name,
        path: s.path,
        signature: s.signature,
        signature_hash: s.signature_hash,
        shape_hash: s.shape_hash,
        full_hash: full_hash_of(e.kind, s.signature_hash, e.body_hash),
        metadata: metadata_store(e.metadata, "synthetic_merge"@, MetadataValueView::Bool(true)),
        ..e
    }
}

fn synthesize_rename_plus_impl(
    base_entity: &SemanticEntity,
    ours_change: &SemanticChange,
    theirs_change: &SemanticChange,
) -> (r: SemanticEntity)
    requires
        has_kind(ours_change@, SemanticChangeKind::Renamed) ==> ours_change@.current is Some,
        !has_kind(ours_change@, SemanticChangeKind::Renamed) ==> theirs_change@.current is Some,
    ensures
        r@ == synthesized_entity(base_entity@, ours_change@, theirs_change@),
{
    let ours_renamed = has_kind_exec(ours_change, SemanticChangeKind::Renamed);
    let (rename_change, impl_change) = if ours_renamed {
        (ours_change, theirs_change)
    } else {
        (theirs_change, ours_change)
    };
    let mut entity = entity_after_exec(base_entity, impl_change);
    let rename_snapshot = rename_change.current.as_ref().unwrap();
    entity.id = rename_snapshot.id.clone();
    entity.name = rename_snapshot.name.clone();
    entity.path = rename_snapshot.path.clone();
    entity.signature = rename_snapshot.signature.clone();
    entity.signature_hash = rename_snapshot.signature_hash.clone();
    entity.shape_hash = rename_snapshot.shape_hash.clone();
    entity.full_hash = build_full_hash(
        entity.kind,
        entity.signature_hash.as_str(),
        entity.body_hash.as_str(),
    );
    let key = "synthetic_merge";
    proof {
        reveal_strlit("synthetic_merge");
    }
    metadata_insert(&mut entity.metadata, key.to_owned(), MetadataValue::Bool(true));
    entity
}


pub open spec fn opt_name(o: Option<SnapshotView>) -> Option<Seq<char>> {
    match o {
        Some(s) => Some(s.name),
        None => None,
    }
}

pub open spec fn touches_signature(c: ChangeView) -> bool {
    has_kind(c, SemanticChangeKind::SignatureChanged) || has_kind(c, SemanticChangeKind::Renamed)
}

/// How a base entity that both branches changed is resolved.
pub open spec fn concurrent_resolution(base: EntityView, ours: ChangeView, theirs: ChangeView) -> ResolutionView {
    let ours_deleted = has_kind(ours, SemanticChangeKind::Deleted);
    let theirs_deleted = has_kind(theirs, SemanticChangeKind::Deleted);
    let ours_sig = touches_signature(ours);
    let theirs_sig = touches_signature(theirs);
    let ours_impl = has_kind(ours, SemanticChangeKind::ImplementationChanged);
    let theirs_impl = has_kind(theirs, SemanticChangeKind::ImplementationChanged);
    let ours_renamed = has_kind(ours, SemanticChangeKind::Renamed);
    let theirs_renamed = has_kind(theirs, SemanticChangeKind::Renamed);
    if ours_deleted && theirs_deleted {
        ResolutionView::Drop(ours)
    } else if ours_deleted || theirs_deleted {
        ResolutionView::Conflict(
            conflict_of(
                base,
                ours,
                theirs,
                ConflictCause::DeleteVsModification,
                "One branch deleted the entity while the other modified it."@,
            ),
        )
    } else if ours_renamed && theirs_renamed && opt_name(ours.current) != opt_name(theirs.current) {
        ResolutionView::Conflict(
            conflict_of(
                base,
                ours,
                theirs,
                ConflictCause::DivergentRename,
                "Both branches renamed the same entity differently."@,
            ),
        )
    } else if ours_impl && theirs_impl {
        ResolutionView::Conflict(
            conflict_of(
                base,
                ours,
                theirs,
                ConflictCause::ConcurrentModification,
                "Both branches changed the same implementation."@,
            ),
        )
    } else if ours_sig && theirs_sig && !(ours_renamed && theirs_renamed) {
        ResolutionView::Conflict(
            conflict_of(
                base,
                ours,
                theirs,
                ConflictCause::ConcurrentModification,
                "Both branches changed the same entity signature."@,
            ),
        )
    } else if (ours_renamed && theirs_impl) || (theirs_renamed && ours_impl) {
        ResolutionView::Take(
            synthesized_entity(base, ours, theirs),
            combined_change(base, ours, theirs),
        )
    } else if (ours_sig && theirs_impl) || (theirs_sig && ours_impl) {
        ResolutionView::Conflict(
            conflict_of(
                base,
                ours,
                theirs,
                ConflictCause::RenameVsModification,
                "Signature and implementation changed concurrently; manual review is safer for this MVP."@,
            ),
        )
    } else if ours.kinds == seq![SemanticChangeKind::Moved] && theirs.kinds == seq![
        SemanticChangeKind::Moved,
    ] {
        single_resolution(base, ours)
    } else if ours.kinds == seq![SemanticChangeKind::Unchanged] {
        single_resolution(base, theirs)
    } else if theirs.kinds == seq![SemanticChangeKind::Unchanged] {
        single_resolution(base, ours)
    } else if ours.kinds == seq![SemanticChangeKind::Moved] {
        single_resolution(base, theirs)
    } else if theirs.kinds == seq![SemanticChangeKind::Moved] {
        single_resolution(base, ours)
    } else if has_kind(ours, SemanticChangeKind::Split) || has_kind(
        theirs,
        SemanticChangeKind::Split,
    ) {
        ResolutionView::Conflict(
            conflict_of(
                base,
                ours,
                theirs,
                ConflictCause::AmbiguousSplit,
                "A semantic split overlaps with another change and needs manual review."@,
            ),
        )
    } else if has_kind(ours, SemanticChangeKind::Merged) || has_kind(
        theirs,
        SemanticChangeKind::Merged,
    ) {
        ResolutionView::Conflict(
            conflict_of(
                base,
                ours,
                theirs,
                ConflictCause::AmbiguousMerge,
                "A semantic merge/fusion overlaps with another change and needs manual review."@,
            ),
        )
    } else {
        single_resolution(base, ours)
    }
}

fn opt_name_eq(a: &Option<EntitySnapshot>, b: &Option<EntitySnapshot>) -> (r: bool)
    ensures
        r == (opt_name(opt_view(*a)) == opt_name(opt_view(*b))),
{
    match (a, b) {
        (Some(x), Some(y)) => str_equal(x.name.as_str(), y.name.as_str()),
        (None, None) => true,
        _ => false,
    }
}

fn resolve_concurrent_change(
    base_entity: &SemanticEntity,
    ours_change: &SemanticChange,
    theirs_change: &SemanticChange,
) -> (r: Resolution)
    requires
        change_well_reported(ours_change@),
        change_well_reported(theirs_change@),
    ensures
        r@ == concurrent_resolution(base_entity@, ours_change@, theirs_change@),
{
    let ours_deleted = has_kind_exec(ours_change, SemanticChangeKind::Deleted);
    let theirs_deleted = has_kind_exec(theirs_change, SemanticChangeKind::Deleted);
    if ours_deleted && theirs_deleted {
        return Resolution::Drop(ours_change.clone());
    }
    if ours_deleted || theirs_deleted {
        let message = "One branch deleted the entity while the other modified it.";
        proof {
            reveal_strlit("One branch deleted the entity while the other modified it.");
        }
        return Resolution::Conflict(
            build_conflict(
                base_entity,
                ours_change,
                theirs_change,
                ConflictCause::DeleteVsModification,
                message,
            ),
        );
    }
    let ours_renamed = has_kind_exec(ours_change, SemanticChangeKind::Renamed);
    let theirs_renamed = has_kind_exec(theirs_change, SemanticChangeKind::Renamed);
    let ours_touches_signature = has_kind_exec(ours_change, SemanticChangeKind::SignatureChanged)
        || ours_renamed;
    let theirs_touches_signature = has_kind_exec(
        theirs_change,
        SemanticChangeKind::SignatureChanged,
    ) || theirs_renamed;
    let ours_touches_impl = has_kind_exec(ours_change, SemanticChangeKind::ImplementationChanged);
    let theirs_touches_impl = has_kind_exec(
        theirs_change,
        SemanticChangeKind::ImplementationChanged,
    );
    if ours_renamed && theirs_renamed {
        if !opt_name_eq(&ours_change.current, &theirs_change.current) {
            let message = "Both branches renamed the same entity differently.";
            proof {
                reveal_strlit("Both branches renamed the same entity differently.");
            }
            return Resolution::Conflict(
                build_conflict(
                    base_entity,
                    ours_change,
                    theirs_change,
                    ConflictCause::DivergentRename,
                    message,
                ),
            );
        }
    }
    if ours_touches_impl && theirs_touches_impl {
        let message = "Both branches changed the same implementation.";
        proof {
            reveal_strlit("Both branches changed the same implementation.");
        }
        return Resolution::Conflict(
            build_conflict(
                base_entity,
                ours_change,
                theirs_change,
                ConflictCause::ConcurrentModification,
                message,
            ),
        );
    }
    if ours_touches_signature && theirs_touches_signature && !(ours_renamed && theirs_renamed) {
        let message = "Both branches changed the same entity signature.";
        proof {
            reveal_strlit("Both branches changed the same entity signature.");
        }
        return Resolution::Conflict(
            build_conflict(
                base_entity,
                ours_change,
                theirs_change,
                ConflictCause::ConcurrentModification,
                message,
            ),
        );
    }
    if (ours_renamed && theirs_touches_impl) || (theirs_renamed && ours_touches_impl) {
        let merged = synthesize_rename_plus_impl(base_entity, ours_change, theirs_change);
        return Resolution::Take(merged, combine_changes(base_entity, ours_change, theirs_change));
    }
    if ours_touches_signature && theirs_touches_impl || theirs_touches_signature
        && ours_touches_impl {
        let message = "Signature and implementation changed concurrently; manual review is safer for this MVP.";
        proof {
            reveal_strlit(
                "Signature and implementation changed concurrently; manual review is safer for this MVP.",
            );
        }
        return Resolution::Conflict(
            build_conflict(
                base_entity,
                ours_change,
                theirs_change,
                ConflictCause::RenameVsModification,
                message,
            ),
        );
    }
    if kinds_are(ours_change, SemanticChangeKind::Moved) && kinds_are(
        theirs_change,
        SemanticChangeKind::Moved,
    ) {
        return apply_single_change(base_entity, ours_change);
    }
    if kinds_are(ours_change, SemanticChangeKind::Unchanged) {
        return apply_single_change(base_entity, theirs_change);
    }
    if kinds_are(theirs_change, SemanticChangeKind::Unchanged) {
        return apply_single_change(base_entity, ours_change);
    }
    if kinds_are(ours_change, SemanticChangeKind::Moved) {
        return apply_single_change(base_entity, theirs_change);
    }
    if kinds_are(theirs_change, SemanticChangeKind::Moved) {
        return apply_single_change(base_entity, ours_change);
    }
    if has_kind_exec(ours_change, SemanticChangeKind::Split) || has_kind_exec(
        theirs_change,
        SemanticChangeKind::Split,
    ) {
        let message = "A semantic split overlaps with another change and needs manual review.";
        proof {
            reveal_strlit("A semantic split overlaps with another change and needs manual review.");
        }
        return Resolution::Conflict(
            build_conflict(
                base_entity,
                ours_change,
                theirs_change,
                ConflictCause::AmbiguousSplit,
                message,
            ),
        );
    }
    if has_kind_exec(ours_change, SemanticChangeKind::Merged) || has_kind_exec(
        theirs_change,
        SemanticChangeKind::Merged,
    ) {
        let message = "A semantic merge/fusion overlaps with another change and needs manual review.";
        proof {
            reveal_strlit(
                "A semantic merge/fusion overlaps with another change and needs manual review.",
            );
        }
        return Resolution::Conflict(
            build_conflict(
                base_entity,
                ours_change,
                theirs_change,
                ConflictCause::AmbiguousMerge,
                message,
            ),
        );
    }
    apply_single_change(base_entity, ours_change)
}

/// The change reported for a base entity that neither branch changed.
pub open spec fn unchanged_change(base: EntityView) -> ChangeView {
    ChangeView {
        anchor_id: base.id,
        kinds: seq![SemanticChangeKind::Unchanged],
        previous: Some(snapshot_of(base)),
        current: Some(snapshot_of(base)),
        related_entities: seq![],
        context: None,
        explanation: crate::diff::entity_sentence(base.path, "` remains unchanged."@),
    }
}

/// How a base entity is resolved from the changes that each branch made to it.
pub open spec fn base_resolution(
    base: EntityView,
    ours: Option<ChangeView>,
    theirs: Option<ChangeView>,
) -> ResolutionView {
    match (ours, theirs) {
        (Some(o), Some(t)) => concurrent_resolution(base, o, t),
        (Some(c), None) => single_resolution(base, c),
        (None, Some(c)) => single_resolution(base, c),
        (None, None) => ResolutionView::Take(base, unchanged_change(base)),
    }
}

fn resolve_base_entity(
    base_entity: &SemanticEntity,
    ours_change: Option<&SemanticChange>,
    theirs_change: Option<&SemanticChange>,
) -> (r: Resolution)
    requires
        ours_change matches Some(c) ==> change_well_reported(c@),
        theirs_change matches Some(c) ==> change_well_reported(c@),
    ensures
        r@ == base_resolution(base_entity@, opt_view(ours_change), opt_view(theirs_change)),
{
    match (ours_change, theirs_change) {
        (Some(ours_change), Some(theirs_change)) => resolve_concurrent_change(
            base_entity,
            ours_change,
            theirs_change,
        ),
        (Some(change), None) => apply_single_change(base_entity, change),
        (None, Some(change)) => apply_single_change(base_entity, change),
        (None, None) => {
            proof {
                reveal_strlit("` remains unchanged.");
            }
            let explanation = crate::diff::entity_sentence_exec(
                base_entity.path.as_str(),
                "` remains unchanged.",
            );
            let change = SemanticChange {
                anchor_id: base_entity.id.clone(),
                kinds: vec![SemanticChangeKind::Unchanged],
                previous: Some(base_entity.snapshot()),
                current: Some(base_entity.snapshot()),
                related_entities: Vec::new(),
                context: None,
                explanation,
            };
            assert(change@.kinds =~= seq![SemanticChangeKind::Unchanged]);
            assert(change@.related_entities =~= seq![]);
            Resolution::Take(base_entity.clone(), change)
        },
    }
}


// ---------------------------------------------------------------------------------------------
// Changes by anchor
// ---------------------------------------------------------------------------------------------

/// The change of `changes` anchored at `id`; the last one when several are.
pub open spec fn change_for(changes: Seq<ChangeView>, id: Seq<char>) -> Option<ChangeView>
    decreases changes.len(),
{
    if changes.len() == 0 {
        None
    } else if changes.last().anchor_id == id {
        Some(changes.last())
    } else {
        change_for(changes.drop_last(), id)
    }
}

pub(crate) proof fn lemma_change_for_member(changes: Seq<ChangeView>, id: Seq<char>)
    ensures
        change_for(changes, id) matches Some(c) ==> changes.contains(c),
    decreases changes.len(),
{
    if changes.len() > 0 {
        lemma_change_for_member(changes.drop_last(), id);
        if changes.last().anchor_id == id {
            assert(changes[changes.len() - 1] == changes.last());
        } else if let Some(c) = change_for(changes.drop_last(), id) {
            let j = choose|j: int| 0 <= j < changes.drop_last().len() && changes.drop_last()[j] == c;
            assert(changes[j] == c);
        }
    }
}

proof fn lemma_change_for_reported(changes: Seq<ChangeView>, id: Seq<char>)
    requires
        well_reported(changes),
    ensures
        change_for(changes, id) matches Some(c) ==> change_well_reported(c),
{
    lemma_change_for_member(changes, id);
    if let Some(c) = change_for(changes, id) {
        let j = choose|j: int| 0 <= j < changes.len() && changes[j] == c;
        assert(change_well_reported(changes[j]));
    }
}

fn change_for_exec<'a>(changes: &'a Vec<SemanticChange>, id: &str) -> (r: Option<&'a SemanticChange>)
    ensures
        opt_view(r) == change_for(vec_view(changes@), id@),
{
    let ghost v = vec_view(changes@);
    let mut j = changes.len();
    assert(v.take(j as int) =~= v);
    while j > 0
        invariant
            0 <= j <= changes@.len(),
            v == vec_view(changes@),
            change_for(v, id@) == change_for(v.take(j as int), id@),
        decreases j,
    {
        let ghost t = v.take(j as int);
        assert(t.drop_last() =~= v.take(j - 1));
        assert(t.last() == changes@[j - 1]@);
        if str_equal(changes[j - 1].anchor_id.as_str(), id) {
            return Some(&changes[j - 1]);
        }
        j = j - 1;
    }
    None
}

// ---------------------------------------------------------------------------------------------
// Resolving the base entities
// ---------------------------------------------------------------------------------------------

/// What the merge has built so far: the kept entities, the resolved changes, the conflicts,
/// and the ids of the kept entities.
pub struct MergeState {
    pub merged: Seq<EntityView>,
    pub resolved: Seq<ChangeView>,
    pub conflicts: Seq<ConflictView>,
    pub applied: Seq<Seq<char>>,
}

pub open spec fn empty_state() -> MergeState {
    MergeState { merged: seq![], resolved: seq![], conflicts: seq![], applied: seq![] }
}

/// Keeps `e` with the change `c`.
pub open spec fn keep(st: MergeState, e: EntityView, c: ChangeView) -> MergeState {
    MergeState {
        merged: st.merged.push(e),
        resolved: st.resolved.push(c),
        conflicts: st.conflicts,
        applied: st.applied.push(e.id),
    }
}

pub open spec fn apply_resolution(st: MergeState, r: ResolutionView) -> MergeState {
    match r {
        ResolutionView::Take(e, c) => keep(st, e, c),
        ResolutionView::Drop(c) => MergeState { resolved: st.resolved.push(c), ..st },
        ResolutionView::Conflict(x) => MergeState { conflicts: st.conflicts.push(x), ..st },
    }
}

/// Each base entity resolved in order against the changes of both branches.
pub open spec fn base_phase(
    base: Seq<EntityView>,
    ours: Seq<ChangeView>,
    theirs: Seq<ChangeView>,
) -> MergeState
    decreases base.len(),
{
    if base.len() == 0 {
        empty_state()
    } else {
        let b = base.last();
        apply_resolution(
            base_phase(base.drop_last(), ours, theirs),
            base_resolution(b, change_for(ours, b.id), change_for(theirs, b.id)),
        )
    }
}

/// The exec counterpart of `MergeState`.
struct MergeAccumulator {
    merged: Vec<SemanticEntity>,
    resolved: Vec<SemanticChange>,
    conflicts: Vec<SemanticConflict>,
    applied: Vec<String>,
}

impl View for MergeAccumulator {
    type V = MergeState;

    closed spec fn view(&self) -> MergeState {
        MergeState {
            merged: vec_view(self.merged@),
            resolved: vec_view(self.resolved@),
            conflicts: vec_view(self.conflicts@),
            applied: crate::model::str_seq(self.applied@),
        }
    }
}

impl MergeAccumulator {
    fn new() -> (r: Self)
        ensures
            r@ == empty_state(),
    {
        let r = MergeAccumulator {
            merged: Vec::new(),
            resolved: Vec::new(),
            conflicts: Vec::new(),
            applied: Vec::new(),
        };
        assert(r@.merged =~= seq![]);
        assert(r@.resolved =~= seq![]);
        assert(r@.conflicts =~= seq![]);
        assert(r@.applied =~= seq![]);
        r
    }

    fn keep(&mut self, e: SemanticEntity, c: SemanticChange)
        ensures
            final(self)@ == keep(old(self)@, e@, c@),
    {
        let ghost before = self@;
        self.applied.push(e.id.clone());
        self.merged.push(e);
        self.resolved.push(c);
        assert(self@.merged =~= before.merged.push(e@));
        assert(self@.resolved =~= before.resolved.push(c@));
        assert(self@.applied =~= before.applied.push(e@.id));
    }

    fn apply(&mut self, r: Resolution)
        ensures
            final(self)@ == apply_resolution(old(self)@, r@),
    {
        let ghost before = self@;
        match r {
            Resolution::Take(e, c) => self.keep(e, c),
            Resolution::Drop(c) => {
                self.resolved.push(c);
                assert(self@.resolved =~= before.resolved.push(c@));
            },
            Resolution::Conflict(x) => {
                self.conflicts.push(x);
                assert(self@.conflicts =~= before.conflicts.push(x@));
            },
        }
    }

    fn is_applied(&self, id: &str) -> (r: bool)
        ensures
            r == self@.applied.contains(id@),
    {
        let ghost v = self@.applied;
        let n = self.applied.len();
        let mut i: usize = 0;
        while i < n
            invariant
                n == self.applied@.len(),
                0 <= i <= n,
                v == self@.applied,
                forall|j: int| 0 <= j < i ==> v[j] != id@,
            decreases n - i,
        {
            if str_equal(self.applied[i].as_str(), id) {
                assert(v[i as int] == id@);
                return true;
            }
            i = i + 1;
        }
        false
    }
}

fn resolve_base(
    base: &FileSemanticIndex,
    ours_changes: &Vec<SemanticChange>,
    theirs_changes: &Vec<SemanticChange>,
) -> (r: MergeAccumulator)
    requires
        well_reported(vec_view(ours_changes@)),
        well_reported(vec_view(theirs_changes@)),
    ensures
        r@ == base_phase(base@.entities, vec_view(ours_changes@), vec_view(theirs_changes@)),
{
    let ghost bv = base@.entities;
    let ghost oc = vec_view(ours_changes@);
    let ghost tc = vec_view(theirs_changes@);
    let mut acc = MergeAccumulator::new();
    let n = base.entities.len();
    let mut i: usize = 0;
    while i < n
        invariant
            n == base.entities@.len(),
            bv == base@.entities,
            oc == vec_view(ours_changes@),
            tc == vec_view(theirs_changes@),
            well_reported(oc),
            well_reported(tc),
            0 <= i <= n,
            acc@ == base_phase(bv.take(i as int), oc, tc),
        decreases n - i,
    {
        let b = &base.entities[i];
        assert(bv.take(i + 1).drop_last() =~= bv.take(i as int));
        assert(bv.take(i + 1).last() == b@);
        let ours_change = change_for_exec(ours_changes, b.id.as_str());
        let theirs_change = change_for_exec(theirs_changes, b.id.as_str());
        proof {
            lemma_change_for_reported(oc, b@.id);
            lemma_change_for_reported(tc, b@.id);
        }
        let resolution = resolve_base_entity(b, ours_change, theirs_change);
        acc.apply(resolution);
        i = i + 1;
    }
    assert(bv.take(n as int) =~= bv);
    acc
}


// ---------------------------------------------------------------------------------------------
// Insertions
// ---------------------------------------------------------------------------------------------

/// The entities of `es` whose change in `changes` reports an insertion.
pub open spec fn inserted_in(es: Seq<EntityView>, changes: Seq<ChangeView>) -> Seq<EntityView>
    decreases es.len(),
{
    if es.len() == 0 {
        seq![]
    } else {
        let prev = inserted_in(es.drop_last(), changes);
        let e = es.last();
        if change_for(changes, e.id) matches Some(c) && has_kind(c, SemanticChangeKind::Inserted) {
            prev.push(e)
        } else {
            prev
        }
    }
}

fn inserted_entities<'a>(index: &'a FileSemanticIndex, changes: &Vec<SemanticChange>) -> (r: Vec<
    &'a SemanticEntity,
>)
    ensures
        vec_view(r@) == inserted_in(index@.entities, vec_view(changes@)),
{
    let ghost v = index@.entities;
    let mut out: Vec<&'a SemanticEntity> = Vec::new();
    let n = index.entities.len();
    let mut i: usize = 0;
    while i < n
        invariant
            n == index.entities@.len(),
            v == index@.entities,
            0 <= i <= n,
            vec_view(out@) == inserted_in(v.take(i as int), vec_view(changes@)),
        decreases n - i,
    {
        let e = &index.entities[i];
        assert(v.take(i + 1).drop_last() =~= v.take(i as int));
        assert(v.take(i + 1).last() == e@);
        let inserted = match change_for_exec(changes, e.id.as_str()) {
            Some(c) => has_kind_exec(c, SemanticChangeKind::Inserted),
            None => false,
        };
        if inserted {
            let ghost prev = out@;
            out.push(e);
            assert(vec_view(out@) =~= vec_view(prev).push(e@));
        }
        i = i + 1;
    }
    assert(v.take(n as int) =~= v);
    out
}

/// The position of the last entity of `table` with path `path`, or -1.
pub open spec fn path_index(table: Seq<EntityView>, path: Seq<char>) -> int
    decreases table.len(),
{
    if table.len() == 0 {
        -1
    } else if table.last().path == path {
        table.len() - 1
    } else {
        path_index(table.drop_last(), path)
    }
}

pub(crate) proof fn lemma_path_index(table: Seq<EntityView>, path: Seq<char>)
    ensures
        -1 <= path_index(table, path) < table.len(),
        path_index(table, path) >= 0 ==> table[path_index(table, path)].path == path,
        path_index(table, path) == -1 ==> forall|j: int| 0 <= j < table.len() ==> table[j].path != path,
        forall|j: int| path_index(table, path) < j < table.len() ==> table[j].path != path,
    decreases table.len(),
{
    if table.len() > 0 {
        lemma_path_index(table.drop_last(), path);
        if table.last().path != path {
            assert forall|j: int| path_index(table, path) < j < table.len() implies table[j].path
                != path by {
                if j < table.len() - 1 {
                    assert(table[j] == table.drop_last()[j]);
                }
            }
        }
    }
}

/// The entities keyed by path, as a map built in order: a later entity replaces an earlier
/// one with the same path.
pub open spec fn path_table(es: Seq<EntityView>) -> Seq<EntityView>
    decreases es.len(),
{
    if es.len() == 0 {
        seq![]
    } else {
        let t = path_table(es.drop_last());
        let x = es.last();
        let i = path_index(t, x.path);
        if i >= 0 {
            t.update(i, x)
        } else {
            t.push(x)
        }
    }
}

pub open spec fn insertion_change(e: EntityView, explanation: Seq<char>) -> ChangeView {
    ChangeView {
        anchor_id: e.id,
        kinds: seq![SemanticChangeKind::Inserted],
        previous: None,
        current: Some(snapshot_of(e)),
        related_entities: seq![],
        context: None,
        explanation,
    }
}

pub open spec fn insertion_conflict(ours: EntityView, theirs: EntityView) -> ConflictView {
    ConflictView {
        anchor_id: ours.path,
        cause: ConflictCause::ConcurrentInsertion,
        base: None,
        ours: Some(snapshot_of(ours)),
        theirs: Some(snapshot_of(theirs)),
        context: None,
        message: "Both branches inserted different entities at the same semantic path."@,
    }
}

/// The merge state with the table of their insertions not yet taken.
pub struct InsertState {
    pub st: MergeState,
    pub table: Seq<EntityView>,
}

/// One of our insertions: skipped when its id is kept already; else, when they inserted at
/// the same path, kept once if both full hashes agree and reported as a conflict if not;
/// else kept as ours alone.
pub open spec fn ours_insertion(s: InsertState, o: EntityView) -> InsertState {
    if s.st.applied.contains(o.id) {
        s
    } else {
        let i = path_index(s.table, o.path);
        if i >= 0 {
            let t = s.table[i];
            let table = s.table.remove(i);
            if o.full_hash == t.full_hash {
                InsertState {
                    st: keep(
                        s.st,
                        o,
                        insertion_change(o, "Both branches inserted the same semantic entity."@),
                    ),
                    table,
                }
            } else {
                InsertState {
                    st: MergeState {
                        conflicts: s.st.conflicts.push(insertion_conflict(o, t)),
                        ..s.st
                    },
                    table,
                }
            }
        } else {
            InsertState {
                st: keep(s.st, o, insertion_change(o, "Entity inserted only in ours branch."@)),
                table: s.table,
            }
        }
    }
}

pub open spec fn ours_insertions(s: InsertState, os: Seq<EntityView>) -> InsertState
    decreases os.len(),
{
    if os.len() == 0 {
        s
    } else {
        ours_insertion(ours_insertions(s, os.drop_last()), os.last())
    }
}

/// Their remaining insertions, kept unless their id is kept already.
pub open spec fn theirs_insertions(st: MergeState, ts: Seq<EntityView>) -> MergeState
    decreases ts.len(),
{
    if ts.len() == 0 {
        st
    } else {
        let prev = theirs_insertions(st, ts.drop_last());
        let t = ts.last();
        if prev.applied.contains(t.id) {
            prev
        } else {
            keep(prev, t, insertion_change(t, "Entity inserted only in theirs branch."@))
        }
    }
}

/// Entities sort by path.
impl SortKeyed for SemanticEntity {
    open spec fn goes_first(a: EntityView, b: EntityView) -> bool {
        chars_lt(a.path, b.path)
    }

    fn goes_first_exec(a: &Self, b: &Self) -> (r: bool) {
        str_lt(a.path.as_str(), b.path.as_str())
    }
}

/// Ordering entities by path is a strict weak order.
pub proof fn entity_order_is_strict_weak()
    ensures
        strict_weak_order::<SemanticEntity>(),
{
    assert forall|a: EntityView, b: EntityView| #[trigger]
        SemanticEntity::goes_first(a, b) implies !SemanticEntity::goes_first(b, a) by {
        lemma_chars_lt_asymmetric(a.path, b.path);
    }
    assert forall|a: EntityView, b: EntityView, c: EntityView|
        #[trigger] SemanticEntity::goes_first(a, b) && !#[trigger] SemanticEntity::goes_first(
            c,
            b,
        ) implies SemanticEntity::goes_first(a, c) by {
        if c.path != b.path {
            lemma_chars_lt_total(c.path, b.path);
            lemma_chars_lt_transitive(a.path, b.path, c.path);
        }
    }
}

/// The last entity of `table` with path `path`.
fn find_path(table: &Vec<SemanticEntity>, path: &str) -> (r: Option<usize>)
    ensures
        r is None ==> path_index(vec_view(table@), path@) == -1,
        r matches Some(i) ==> i == path_index(vec_view(table@), path@),
{
    let ghost v = vec_view(table@);
    let mut j = table.len();
    assert(v.take(j as int) =~= v);
    while j > 0
        invariant
            0 <= j <= table@.len(),
            v == vec_view(table@),
            path_index(v, path@) == path_index(v.take(j as int), path@),
        decreases j,
    {
        let ghost t = v.take(j as int);
        assert(t.drop_last() =~= v.take(j - 1));
        assert(t.last() == table@[j - 1]@);
        if str_equal(table[j - 1].path.as_str(), path) {
            return Some(j - 1);
        }
        j = j - 1;
    }
    None
}

fn build_path_table(es: &Vec<&SemanticEntity>) -> (r: Vec<SemanticEntity>)
    ensures
        vec_view(r@) == path_table(vec_view(es@)),
{
    let ghost v = vec_view(es@);
    let mut table: Vec<SemanticEntity> = Vec::new();
    let n = es.len();
    let mut i: usize = 0;
    while i < n
        invariant
            n == es@.len(),
            v == vec_view(es@),
            0 <= i <= n,
            vec_view(table@) == path_table(v.take(i as int)),
        decreases n - i,
    {
        let e = es[i];
        assert(v.take(i + 1).drop_last() =~= v.take(i as int));
        assert(v.take(i + 1).last() == e@);
        let ghost prev = vec_view(table@);
        proof {
            lemma_path_index(prev, e@.path);
        }
        match find_path(&table, e.path.as_str()) {
            Some(k) => {
                table.set(k, e.clone());
                assert(vec_view(table@) =~= prev.update(k as int, e@));
            },
            None => {
                table.push(e.clone());
                assert(vec_view(table@) =~= prev.push(e@));
            },
        }
        i = i + 1;
    }
    assert(v.take(n as int) =~= v);
    table
}

fn insertion_change_exec(e: &SemanticEntity, explanation: &str) -> (r: SemanticChange)
    ensures
        r@ == insertion_change(e@, explanation@),
{
    let r = SemanticChange {
        anchor_id: e.id.clone(),
        kinds: vec![SemanticChangeKind::Inserted],
        previous: None,
        current: Some(e.snapshot()),
        related_entities: Vec::new(),
        context: None,
        explanation: explanation.to_owned(),
    };
    assert(r@.kinds =~= seq![SemanticChangeKind::Inserted]);
    assert(r@.related_entities =~= seq![]);
    r
}

fn merge_insertions(
    ours: &FileSemanticIndex,
    theirs: &FileSemanticIndex,
    ours_changes: &Vec<SemanticChange>,
    theirs_changes: &Vec<SemanticChange>,
    acc: &mut MergeAccumulator,
)
    ensures
        ({
            let s1 = ours_insertions(
                InsertState {
                    st: old(acc)@,
                    table: path_table(inserted_in(theirs@.entities, vec_view(theirs_changes@))),
                },
                inserted_in(ours@.entities, vec_view(ours_changes@)),
            );
            final(acc)@ == theirs_insertions(s1.st, sort_stable::<SemanticEntity>(s1.table))
        }),
{
    let ours_inserted = inserted_entities(ours, ours_changes);
    let theirs_inserted = inserted_entities(theirs, theirs_changes);
    let mut table = build_path_table(&theirs_inserted);
    let ghost os = vec_view(ours_inserted@);
    let ghost s0 = InsertState { st: acc@, table: vec_view(table@) };
    proof {
        reveal_strlit("Both branches inserted the same semantic entity.");
        reveal_strlit("Both branches inserted different entities at the same semantic path.");
        reveal_strlit("Entity inserted only in ours branch.");
        reveal_strlit("Entity inserted only in theirs branch.");
    }
    let n = ours_inserted.len();
    let mut i: usize = 0;
    while i < n
        invariant
            n == ours_inserted@.len(),
            os == vec_view(ours_inserted@),
            0 <= i <= n,
            ours_insertions(s0, os.take(i as int)) == (InsertState { st: acc@, table: vec_view(table@) }),
        decreases n - i,
    {
        let o = ours_inserted[i];
        let ghost s = InsertState { st: acc@, table: vec_view(table@) };
        assert(os.take(i + 1).drop_last() =~= os.take(i as int));
        assert(os.take(i + 1).last() == o@);
        proof {
            lemma_path_index(s.table, o@.path);
        }
        if !acc.is_applied(o.id.as_str()) {
            match find_path(&table, o.path.as_str()) {
                Some(k) => {
                    let t = table.remove(k);
                    assert(vec_view(table@) =~= s.table.remove(k as int));
                    if o.full_hash == t.full_hash {
                        let change = insertion_change_exec(
                            o,
                            "Both branches inserted the same semantic entity.",
                        );
                        acc.keep(o.clone(), change);
                    } else {
                        let conflict = SemanticConflict {
                            anchor_id: o.path.clone(),
                            cause: ConflictCause::ConcurrentInsertion,
                            base: None,
                            ours: Some(o.snapshot()),
                            theirs: Some(t.snapshot()),
                            context: None,
                            message: "Both branches inserted different entities at the same semantic path.".to_owned(),
                        };
                        let ghost before = acc@;
                        acc.conflicts.push(conflict);
                        assert(acc@.conflicts =~= before.conflicts.push(insertion_conflict(o@, t@)));
                        assert(acc@ == MergeState { conflicts: before.conflicts.push(insertion_conflict(o@, t@)), ..before });
                    }
                },
                None => {
                    let change = insertion_change_exec(o, "Entity inserted only in ours branch.");
                    acc.keep(o.clone(), change);
                },
            }
        }
        i = i + 1;
    }
    assert(os.take(n as int) =~= os);
    let ghost s1 = InsertState { st: acc@, table: vec_view(table@) };
    let sorted = stable_sort(table);
    let ghost ts = vec_view(sorted@);
    let ghost st1 = acc@;
    let m = sorted.len();
    let mut k: usize = 0;
    while k < m
        invariant
            m == sorted@.len(),
            ts == vec_view(sorted@),
            0 <= k <= m,
            acc@ == theirs_insertions(st1, ts.take(k as int)),
        decreases m - k,
    {
        let t = &sorted[k];
        assert(ts.take(k + 1).drop_last() =~= ts.take(k as int));
        assert(ts.take(k + 1).last() == t@);
        if !acc.is_applied(t.id.as_str()) {
            let change = insertion_change_exec(t, "Entity inserted only in theirs branch.");
            acc.keep(t.clone(), change);
        }
        k = k + 1;
    }
    assert(ts.take(m as int) =~= ts);
}


// ---------------------------------------------------------------------------------------------
// Exports
// ---------------------------------------------------------------------------------------------

pub open spec fn has_entity_id(es: Seq<EntityView>, id: Seq<char>) -> bool {
    exists|j: int| 0 <= j < es.len() && #[trigger] es[j].id == id
}

pub open spec fn has_entity_name(es: Seq<EntityView>, name: Seq<char>) -> bool {
    exists|j: int| 0 <= j < es.len() && #[trigger] es[j].name == name
}

/// An export is kept when it re-exports from another module, names a kept entity by id, or
/// names a kept entity by local name.
pub open spec fn export_kept(e: ExportView, live: Seq<EntityView>) -> bool {
    ||| e.source is Some
    ||| (e.entity_id matches Some(id) && has_entity_id(live, id))
    ||| has_entity_name(live, e.local_name)
}

/// "<exported>:<local>:<source>", the key that identifies an export.
pub open spec fn export_key(e: ExportView) -> Seq<char> {
    e.exported_name + ":"@ + e.local_name + ":"@ + or_empty(e.source)
}

pub open spec fn table_has_key(t: Seq<(Seq<char>, ExportView)>, key: Seq<char>) -> bool {
    exists|j: int| 0 <= j < t.len() && #[trigger] t[j].0 == key
}

/// The kept exports keyed by `export_key`, the first export of each key winning.
pub open spec fn export_table(es: Seq<ExportView>, live: Seq<EntityView>) -> Seq<
    (Seq<char>, ExportView),
>
    decreases es.len(),
{
    if es.len() == 0 {
        seq![]
    } else {
        let prev = export_table(es.drop_last(), live);
        let e = es.last();
        if export_kept(e, live) && !table_has_key(prev, export_key(e)) {
            prev.push((export_key(e), e))
        } else {
            prev
        }
    }
}

/// An export with its key.
pub struct KeyedExport {
    pub key: String,
    pub export: ExportBinding,
}

impl View for KeyedExport {
    type V = (Seq<char>, ExportView);

    open spec fn view(&self) -> (Seq<char>, ExportView) {
        (self.key@, self.export@)
    }
}

/// Exports sort by key.
impl SortKeyed for KeyedExport {
    open spec fn goes_first(a: (Seq<char>, ExportView), b: (Seq<char>, ExportView)) -> bool {
        chars_lt(a.0, b.0)
    }

    fn goes_first_exec(a: &Self, b: &Self) -> (r: bool) {
        str_lt(a.key.as_str(), b.key.as_str())
    }
}

/// The exports of the merged index: ours then theirs, kept and deduplicated by key, in key
/// order.
pub open spec fn merged_exports(
    ours: Seq<ExportView>,
    theirs: Seq<ExportView>,
    live: Seq<EntityView>,
) -> Seq<ExportView> {
    sort_stable::<KeyedExport>(export_table(ours + theirs, live)).map_values(
        |p: (Seq<char>, ExportView)| p.1,
    )
}

fn live_has_id(live: &Vec<SemanticEntity>, id: &str) -> (r: bool)
    ensures
        r == has_entity_id(vec_view(live@), id@),
{
    let ghost v = vec_view(live@);
    let n = live.len();
    let mut i: usize = 0;
    while i < n
        invariant
            n == live@.len(),
            v == vec_view(live@),
            0 <= i <= n,
            forall|j: int| 0 <= j < i ==> v[j].id != id@,
        decreases n - i,
    {
        assert(v[i as int] == live@[i as int]@);
        if str_equal(live[i].id.as_str(), id) {
            assert(v[i as int].id == id@);
            return true;
        }
        i = i + 1;
    }
    false
}

fn live_has_name(live: &Vec<SemanticEntity>, name: &str) -> (r: bool)
    ensures
        r == has_entity_name(vec_view(live@), name@),
{
    let ghost v = vec_view(live@);
    let n = live.len();
    let mut i: usize = 0;
    while i < n
        invariant
            n == live@.len(),
            v == vec_view(live@),
            0 <= i <= n,
            forall|j: int| 0 <= j < i ==> v[j].name != name@,
        decreases n - i,
    {
        assert(v[i as int] == live@[i as int]@);
        if str_equal(live[i].name.as_str(), name) {
            assert(v[i as int].name == name@);
            return true;
        }
        i = i + 1;
    }
    false
}

fn keys_contain(table: &Vec<KeyedExport>, key: &str) -> (r: bool)
    ensures
        r == table_has_key(vec_view(table@), key@),
{
    let ghost v = vec_view(table@);
    let n = table.len();
    let mut i: usize = 0;
    while i < n
        invariant
            n == table@.len(),
            v == vec_view(table@),
            0 <= i <= n,
            forall|j: int| 0 <= j < i ==> v[j].0 != key@,
        decreases n - i,
    {
        assert(v[i as int] == table@[i as int]@);
        if str_equal(table[i].key.as_str(), key) {
            assert(v[i as int].0 == key@);
            return true;
        }
        i = i + 1;
    }
    false
}

fn export_key_exec(e: &ExportBinding) -> (r: String)
    ensures
        r@ == export_key(e@),
{
    proof {
        reveal_strlit(":");
        reveal_strlit("");
    }
    let mut key = concat3(e.exported_name.as_str(), ":", e.local_name.as_str());
    key.append(":");
    match &e.source {
        Some(source) => key.append(source.as_str()),
        None => key.append(""),
    }
    key
}

/// Adds `exports` to a key table built from `prefix`.
fn extend_export_table(
    table: &mut Vec<KeyedExport>,
    Ghost(prefix): Ghost<Seq<ExportView>>,
    exports: &Vec<ExportBinding>,
    merged_entities: &Vec<SemanticEntity>,
)
    requires
        vec_view(old(table)@) == export_table(prefix, vec_view(merged_entities@)),
    ensures
        vec_view(final(table)@) == export_table(
            prefix + vec_view(exports@),
            vec_view(merged_entities@),
        ),
{
    let ghost live = vec_view(merged_entities@);
    let ghost ev = vec_view(exports@);
    let n = exports.len();
    let mut i: usize = 0;
    assert(prefix + ev.take(0) =~= prefix);
    while i < n
        invariant
            n == exports@.len(),
            live == vec_view(merged_entities@),
            ev == vec_view(exports@),
            0 <= i <= n,
            vec_view(table@) == export_table(prefix + ev.take(i as int), live),
        decreases n - i,
    {
        let export = &exports[i];
        assert((prefix + ev.take(i + 1)).drop_last() =~= prefix + ev.take(i as int));
        assert((prefix + ev.take(i + 1)).last() == export@);
        let by_id = match &export.entity_id {
            Some(id) => live_has_id(merged_entities, id.as_str()),
            None => false,
        };
        let keep = export.source.is_some() || by_id || live_has_name(
            merged_entities,
            export.local_name.as_str(),
        );
        if keep {
            let key = export_key_exec(export);
            if !keys_contain(table, key.as_str()) {
                let ghost prev = vec_view(table@);
                let entry = KeyedExport { key, export: export.clone() };
                table.push(entry);
                assert(vec_view(table@) =~= prev.push((export_key(export@), export@)));
            }
        }
        i = i + 1;
    }
    assert(ev.take(n as int) =~= ev);
}

fn unkeyed(sorted: &Vec<KeyedExport>) -> (r: Vec<ExportBinding>)
    ensures
        vec_view(r@) == vec_view(sorted@).map_values(|p: (Seq<char>, ExportView)| p.1),
{
    let ghost sv = vec_view(sorted@);
    let mut out: Vec<ExportBinding> = Vec::new();
    let m = sorted.len();
    let mut k: usize = 0;
    while k < m
        invariant
            m == sorted@.len(),
            sv == vec_view(sorted@),
            0 <= k <= m,
            out@.len() == k,
            forall|j: int| 0 <= j < k ==> #[trigger] out@[j]@ == sv[j].1,
        decreases m - k,
    {
        let e = sorted[k].export.clone();
        assert(sv[k as int] == sorted@[k as int]@);
        out.push(e);
        k = k + 1;
    }
    assert(vec_view(out@) =~= sv.map_values(|p: (Seq<char>, ExportView)| p.1));
    out
}

fn merge_exports(
    ours: &FileSemanticIndex,
    theirs: &FileSemanticIndex,
    merged_entities: &Vec<SemanticEntity>,
) -> (r: Vec<ExportBinding>)
    ensures
        vec_view(r@) == merged_exports(ours@.exports, theirs@.exports, vec_view(merged_entities@)),
{
    let mut table: Vec<KeyedExport> = Vec::new();
    assert(vec_view(table@) =~= export_table(seq![], vec_view(merged_entities@)));
    extend_export_table(&mut table, Ghost(Seq::empty()), &ours.exports, merged_entities);
    assert(seq![] + ours@.exports =~= ours@.exports);
    extend_export_table(&mut table, Ghost(ours@.exports), &theirs.exports, merged_entities);
    let sorted = stable_sort(table);
    unkeyed(&sorted)
}


// ---------------------------------------------------------------------------------------------
// The merge
// ---------------------------------------------------------------------------------------------

/// The sorted changes of the diff from `base` to a branch.
pub open spec fn branch_changes(base: IndexView, branch: IndexView) -> Seq<ChangeView> {
    sort_stable::<SemanticChange>(raw_changes(base.entities, branch.entities))
}

/// The state after resolving the base entities, then our insertions, then theirs.
pub open spec fn merge_state(base: IndexView, ours: IndexView, theirs: IndexView) -> MergeState {
    let oc = branch_changes(base, ours);
    let tc = branch_changes(base, theirs);
    let s1 = ours_insertions(
        InsertState {
            st: base_phase(base.entities, oc, tc),
            table: path_table(inserted_in(theirs.entities, tc)),
        },
        inserted_in(ours.entities, oc),
    );
    theirs_insertions(s1.st, sort_stable::<SemanticEntity>(s1.table))
}

/// The ids of the entities without a parent, in order.
pub open spec fn root_ids(es: Seq<EntityView>) -> Seq<Seq<char>>
    decreases es.len(),
{
    if es.len() == 0 {
        seq![]
    } else {
        let prev = root_ids(es.drop_last());
        if es.last().parent is None {
            prev.push(es.last().id)
        } else {
            prev
        }
    }
}

/// The index of a clean merge, over the kept entities sorted by path.
pub open spec fn merged_index_of(
    base: IndexView,
    ours: IndexView,
    theirs: IndexView,
    entities: Seq<EntityView>,
) -> IndexView {
    IndexView {
        language: base.language,
        path: base.path + " (semantic merge)"@,
        entities,
        root_entities: root_ids(entities),
        exports: merged_exports(ours.exports, theirs.exports, entities),
        parser_version: "semantic-merge<"@ + base.parser_version + ">"@,
    }
}

/// The entities of a clean merge are ordered by path, and its exports come from a table ordered
/// by export key.
pub proof fn merged_index_is_ordered(base: IndexView, ours: IndexView, theirs: IndexView)
    ensures
        sorted_by::<SemanticEntity>(sort_stable::<SemanticEntity>(merge_state(base, ours, theirs).merged)),
        sorted_by::<KeyedExport>(
            sort_stable::<KeyedExport>(
                export_table(
                    ours.exports + theirs.exports,
                    sort_stable::<SemanticEntity>(merge_state(base, ours, theirs).merged),
                ),
            ),
        ),
{
    entity_order_is_strict_weak();
    sorting_sorts::<SemanticEntity>(merge_state(base, ours, theirs).merged);
    assert forall|a: (Seq<char>, ExportView), b: (Seq<char>, ExportView)| #[trigger]
        KeyedExport::goes_first(a, b) implies !KeyedExport::goes_first(b, a) by {
        lemma_chars_lt_asymmetric(a.0, b.0);
    }
    assert forall|a: (Seq<char>, ExportView), b: (Seq<char>, ExportView), c: (Seq<char>, ExportView)|
        #[trigger] KeyedExport::goes_first(a, b) && !#[trigger] KeyedExport::goes_first(
            c,
            b,
        ) implies KeyedExport::goes_first(a, c) by {
        if c.0 != b.0 {
            lemma_chars_lt_total(c.0, b.0);
            lemma_chars_lt_transitive(a.0, b.0, c.0);
        }
    }
    sorting_sorts::<KeyedExport>(
        export_table(
            ours.exports + theirs.exports,
            sort_stable::<SemanticEntity>(merge_state(base, ours, theirs).merged),
        ),
    );
}

pub open spec fn merge_note() -> Seq<char> {
    "Merged index is semantic-only and may contain synthetic hashes for auto-resolved rename+implementation cases."@
}

fn root_ids_exec(es: &Vec<SemanticEntity>) -> (r: Vec<String>)
    ensures
        crate::model::str_seq(r@) == root_ids(vec_view(es@)),
{
    let ghost v = vec_view(es@);
    let mut out: Vec<String> = Vec::new();
    let n = es.len();
    let mut i: usize = 0;
    while i < n
        invariant
            n == es@.len(),
            v == vec_view(es@),
            0 <= i <= n,
            crate::model::str_seq(out@) == root_ids(v.take(i as int)),
        decreases n - i,
    {
        assert(v.take(i + 1).drop_last() =~= v.take(i as int));
        assert(v.take(i + 1).last() == es@[i as int]@);
        if es[i].parent.is_none() {
            let ghost prev = out@;
            out.push(es[i].id.clone());
            assert(crate::model::str_seq(out@) =~= crate::model::str_seq(prev).push(es@[i as int]@.id));
        }
        i = i + 1;
    }
    assert(v.take(n as int) =~= v);
    out
}

/// Every change reports its entity as unchanged.
pub open spec fn all_unchanged(cs: Seq<ChangeView>) -> bool {
    forall|i: int| 0 <= i < cs.len() ==> (#[trigger] cs[i]).kinds == seq![SemanticChangeKind::Unchanged]
}

proof fn lemma_change_for_unchanged(cs: Seq<ChangeView>, id: Seq<char>)
    requires
        all_unchanged(cs),
    ensures
        change_for(cs, id) matches Some(c) ==> c.kinds == seq![SemanticChangeKind::Unchanged],
{
    lemma_change_for_member(cs, id);
}

proof fn lemma_unchanged_kinds(c: ChangeView)
    requires
        c.kinds == seq![SemanticChangeKind::Unchanged],
    ensures
        forall|k: SemanticChangeKind| has_kind(c, k) <==> k == SemanticChangeKind::Unchanged,
{
    assert forall|k: SemanticChangeKind| has_kind(c, k) <==> k == SemanticChangeKind::Unchanged by {
        if k == SemanticChangeKind::Unchanged {
            assert(c.kinds[0] == k);
        }
    }
}

proof fn lemma_nothing_inserted(es: Seq<EntityView>, cs: Seq<ChangeView>)
    requires
        all_unchanged(cs),
    ensures
        inserted_in(es, cs) == Seq::<EntityView>::empty(),
    decreases es.len(),
{
    if es.len() > 0 {
        lemma_nothing_inserted(es.drop_last(), cs);
        lemma_change_for_unchanged(cs, es.last().id);
        if let Some(c) = change_for(cs, es.last().id) {
            lemma_unchanged_kinds(c);
        }
    }
}

/// A change that only one branch made is taken as it is, whichever branch made it, unless it
/// deletes the entity (a deletion against an unchanged entity is a conflict).
pub proof fn one_sided_change_is_taken(base: EntityView, changed: ChangeView, unchanged: ChangeView)
    requires
        unchanged.kinds == seq![SemanticChangeKind::Unchanged],
        changed.kinds != seq![SemanticChangeKind::Unchanged],
        !has_kind(changed, SemanticChangeKind::Deleted),
    ensures
        concurrent_resolution(base, changed, unchanged) == single_resolution(base, changed),
        concurrent_resolution(base, unchanged, changed) == single_resolution(base, changed),
{
    lemma_unchanged_kinds(unchanged);
    assert(unchanged.kinds != seq![SemanticChangeKind::Moved]) by {
        assert(unchanged.kinds[0] != SemanticChangeKind::Moved);
    }
}

/// When both branches change the implementation of the same entity (and neither deletes it
/// nor do they rename it apart), the merge reports a concurrent modification.
pub proof fn concurrent_implementation_changes_conflict(base: EntityView, ours: ChangeView, theirs: ChangeView)
    requires
        has_kind(ours, SemanticChangeKind::ImplementationChanged),
        has_kind(theirs, SemanticChangeKind::ImplementationChanged),
        !has_kind(ours, SemanticChangeKind::Deleted),
        !has_kind(theirs, SemanticChangeKind::Deleted),
        !(has_kind(ours, SemanticChangeKind::Renamed) && has_kind(theirs, SemanticChangeKind::Renamed)
            && opt_name(ours.current) != opt_name(theirs.current)),
    ensures
        concurrent_resolution(base, ours, theirs) matches ResolutionView::Conflict(c)
            && c.cause == ConflictCause::ConcurrentModification && c.anchor_id == base.id,
{
}

/// A rename in one branch and an implementation change in the other combine: the merge takes
/// the renamed entity with the new implementation, whichever branch made which change.
pub proof fn rename_and_implementation_change_combine(
    base: EntityView,
    renaming: ChangeView,
    implementing: ChangeView,
)
    requires
        has_kind(renaming, SemanticChangeKind::Renamed),
        !has_kind(renaming, SemanticChangeKind::ImplementationChanged),
        !has_kind(renaming, SemanticChangeKind::Deleted),
        has_kind(implementing, SemanticChangeKind::ImplementationChanged),
        !touches_signature(implementing),
        !has_kind(implementing, SemanticChangeKind::Deleted),
    ensures
        concurrent_resolution(base, renaming, implementing) == ResolutionView::Take(
            synthesized_entity(base, renaming, implementing),
            combined_change(base, renaming, implementing),
        ),
        concurrent_resolution(base, implementing, renaming) == ResolutionView::Take(
            synthesized_entity(base, implementing, renaming),
            combined_change(base, implementing, renaming),
        ),
{
}

/// A split in one branch against any other change of the same entity in the other branch
/// (neither a deletion nor a mere move) is left for manual review as an ambiguous split.
pub proof fn split_against_another_change_is_ambiguous(base: EntityView, split: ChangeView, other: ChangeView)
    requires
        split.kinds == seq![SemanticChangeKind::Split],
        other.kinds != seq![SemanticChangeKind::Unchanged],
        other.kinds != seq![SemanticChangeKind::Moved],
        !has_kind(other, SemanticChangeKind::Deleted),
    ensures
        concurrent_resolution(base, split, other) matches ResolutionView::Conflict(c) && c.cause
            == ConflictCause::AmbiguousSplit,
        concurrent_resolution(base, other, split) matches ResolutionView::Conflict(c) && c.cause
            == ConflictCause::AmbiguousSplit,
{
    assert forall|k: SemanticChangeKind| has_kind(split, k) <==> k == SemanticChangeKind::Split by {
        if k == SemanticChangeKind::Split {
            assert(split.kinds[0] == k);
        }
    }
    assert(split.kinds != seq![SemanticChangeKind::Moved]) by {
        assert(split.kinds[0] != SemanticChangeKind::Moved);
    }
    assert(split.kinds != seq![SemanticChangeKind::Unchanged]) by {
        assert(split.kinds[0] != SemanticChangeKind::Unchanged);
    }
}

proof fn lemma_change_for_anchor(cs: Seq<ChangeView>, id: Seq<char>)
    ensures
        change_for(cs, id) matches Some(c) ==> c.anchor_id == id,
    decreases cs.len(),
{
    if cs.len() > 0 {
        lemma_change_for_anchor(cs.drop_last(), id);
    }
}

/// Every change reports one of the entities `es` matched with itself.
pub open spec fn self_matches(cs: Seq<ChangeView>, es: Seq<EntityView>) -> bool {
    forall|i: int|
        0 <= i < cs.len() ==> exists|k: int|
            0 <= k < es.len() && #[trigger] cs[i] == crate::diff::classified(es[k], es[k], false)
}

proof fn lemma_from_own_snapshot(b: EntityView)
    ensures
        from_snapshot(b, snapshot_of(b)) == b,
{
}

proof fn lemma_base_phase_keeps_base(bs: Seq<EntityView>, es: Seq<EntityView>, cs: Seq<ChangeView>)
    requires
        unique_ids(es),
        forall|i: int| 0 <= i < bs.len() ==> es.contains(#[trigger] bs[i]),
        all_unchanged(cs),
        self_matches(cs, es),
    ensures
        base_phase(bs, cs, cs).merged == bs,
        base_phase(bs, cs, cs).conflicts.len() == 0,
        base_phase(bs, cs, cs).resolved.len() == bs.len(),
        all_unchanged(base_phase(bs, cs, cs).resolved),
    decreases bs.len(),
{
    if bs.len() > 0 {
        let d = bs.drop_last();
        assert forall|i: int| 0 <= i < d.len() implies es.contains(#[trigger] d[i]) by {
            assert(d[i] == bs[i]);
        }
        lemma_base_phase_keeps_base(d, es, cs);
        let b = bs.last();
        assert(es.contains(bs[bs.len() - 1]));
        let prev = base_phase(d, cs, cs);
        lemma_change_for_unchanged(cs, b.id);
        lemma_change_for_anchor(cs, b.id);
        lemma_change_for_member(cs, b.id);
        if let Some(c) = change_for(cs, b.id) {
            lemma_unchanged_kinds(c);
            assert(c.kinds != seq![SemanticChangeKind::Moved]) by {
                assert(c.kinds[0] != SemanticChangeKind::Moved);
            }
            let i = choose|i: int| 0 <= i < cs.len() && cs[i] == c;
            let k = choose|k: int|
                0 <= k < es.len() && cs[i] == crate::diff::classified(es[k], es[k], false);
            let m = choose|m: int| 0 <= m < es.len() && es[m] == b;
            if k != m {
                if k < m {
                    assert(es[k].id != es[m].id);
                } else {
                    assert(es[m].id != es[k].id);
                }
            }
            lemma_from_own_snapshot(b);
            assert(entity_after(b, c) == b);
        }
        let st = base_phase(bs, cs, cs);
        assert(st.merged =~= bs);
        assert forall|i: int| 0 <= i < st.resolved.len() implies (#[trigger] st.resolved[i]).kinds
            == seq![SemanticChangeKind::Unchanged] by {
            if i < prev.resolved.len() {
                assert(st.resolved[i] == prev.resolved[i]);
            }
        }
    }
}

/// Merging two branches that left the base as it was (all ids distinct) is clean and gives the
/// base back: every base entity is kept as it was, in order, each with one change that reports
/// it unchanged, and nothing is inserted; the merged index holds the base entities sorted by
/// path.
pub proof fn merging_unchanged_branches_keeps_the_base(base: IndexView)
    requires
        unique_ids(base.entities),
    ensures
        merge_state(base, base, base).conflicts.len() == 0,
        merge_state(base, base, base).merged == base.entities,
        merge_state(base, base, base).resolved.len() == base.entities.len(),
        all_unchanged(merge_state(base, base, base).resolved),
{
    let es = base.entities;
    let raw = raw_changes(es, es);
    diffing_against_itself_changes_nothing(es);
    sorting_keeps_members::<SemanticChange>(raw);
    let oc = branch_changes(base, base);
    assert(all_unchanged(oc) && self_matches(oc, es)) by {
        assert forall|i: int| 0 <= i < oc.len() implies (#[trigger] oc[i]).kinds == seq![
            SemanticChangeKind::Unchanged,
        ] by {
            assert(raw.contains(oc[i]));
            let j = choose|j: int| 0 <= j < raw.len() && raw[j] == oc[i];
            assert(raw[j].kinds == seq![SemanticChangeKind::Unchanged]);
        }
        assert forall|i: int| 0 <= i < oc.len() implies exists|k: int|
            0 <= k < es.len() && #[trigger] oc[i] == crate::diff::classified(es[k], es[k], false) by {
            assert(raw.contains(oc[i]));
            let j = choose|j: int| 0 <= j < raw.len() && raw[j] == oc[i];
            assert(raw[j] == crate::diff::classified(es[j], es[j], false));
        }
    }
    assert forall|i: int| 0 <= i < es.len() implies es.contains(#[trigger] es[i]) by {}
    lemma_base_phase_keeps_base(es, es, oc);
    lemma_nothing_inserted(es, oc);
    let empty = Seq::<EntityView>::empty();
    assert(path_table(empty) == empty);
    let s0 = InsertState { st: base_phase(es, oc, oc), table: path_table(inserted_in(es, oc)) };
    assert(ours_insertions(s0, empty) == s0);
    assert(sort_stable::<SemanticEntity>(empty) =~= empty);
    assert(theirs_insertions(s0.st, empty) == s0.st);
}


/// The entity of `xs` that the diff matches with `b` by id: the last one with `b`'s id.
pub open spec fn id_partner(xs: Seq<EntityView>, b: EntityView) -> EntityView {
    xs[last_index_with_id(xs, b.id)]
}

/// Whether `a` and `b` hold the same ids.
pub open spec fn same_id_set(a: Seq<EntityView>, b: Seq<EntityView>) -> bool {
    &&& forall|i: int| 0 <= i < a.len() ==> #[trigger] has_id(b, a[i].id)
    &&& forall|j: int| 0 <= j < b.len() ==> #[trigger] has_id(a, b[j].id)
}

pub(crate) proof fn lemma_change_for_unique(cs: Seq<ChangeView>, id: Seq<char>, c: ChangeView)
    requires
        cs.contains(c),
        c.anchor_id == id,
        forall|j: int| 0 <= j < cs.len() && (#[trigger] cs[j]).anchor_id == id ==> cs[j] == c,
    ensures
        change_for(cs, id) == Some(c),
    decreases cs.len(),
{
    if cs.last().anchor_id != id {
        let d = cs.drop_last();
        let k = choose|k: int| 0 <= k < cs.len() && cs[k] == c;
        if k == cs.len() - 1 {
            assert(cs[cs.len() - 1] == cs.last());
        }
        assert(d[k] == c);
        assert forall|j: int| 0 <= j < d.len() && (#[trigger] d[j]).anchor_id == id implies d[j]
            == c by {
            assert(d[j] == cs[j]);
        }
        lemma_change_for_unique(d, id, c);
    } else {
        assert(cs[cs.len() - 1] == cs.last());
    }
}

proof fn lemma_nothing_inserted_by(es: Seq<EntityView>, cs: Seq<ChangeView>)
    requires
        forall|i: int| 0 <= i < cs.len() ==> !has_kind(#[trigger] cs[i], SemanticChangeKind::Inserted),
    ensures
        inserted_in(es, cs) == Seq::<EntityView>::empty(),
    decreases es.len(),
{
    if es.len() > 0 {
        lemma_nothing_inserted_by(es.drop_last(), cs);
        lemma_change_for_member(cs, es.last().id);
        if let Some(c) = change_for(cs, es.last().id) {
            let i = choose|i: int| 0 <= i < cs.len() && cs[i] == c;
            assert(!has_kind(cs[i], SemanticChangeKind::Inserted));
        }
    }
}

/// With the same ids on both sides, each entity of `es` finds in the sorted changes the change
/// that classifies it against its partner by id, and no change reports an insertion.
pub(crate) proof fn lemma_changes_by_id(es: Seq<EntityView>, xs: Seq<EntityView>)
    requires
        unique_ids(es),
        same_id_set(es, xs),
    ensures
        forall|i: int|
            0 <= i < es.len() ==> #[trigger] change_for(
                sort_stable::<SemanticChange>(raw_changes(es, xs)),
                es[i].id,
            ) == Some(classified(es[i], id_partner(xs, es[i]), false)),
        forall|ys: Seq<EntityView>|
            #[trigger] inserted_in(ys, sort_stable::<SemanticChange>(raw_changes(es, xs)))
                == Seq::<EntityView>::empty(),
{
    same_ids_match_by_id(es, xs);
    let raw = raw_changes(es, xs);
    let sorted = sort_stable::<SemanticChange>(raw);
    sorting_keeps_members::<SemanticChange>(raw);
    sorting_loses_nothing::<SemanticChange>(raw);
    assert forall|i: int| 0 <= i < es.len() implies #[trigger] change_for(sorted, es[i].id) == Some(
        classified(es[i], id_partner(xs, es[i]), false),
    ) by {
        let c = raw[i];
        assert(sorted.contains(raw[i]));
        assert forall|j: int| 0 <= j < sorted.len() && (#[trigger] sorted[j]).anchor_id
            == es[i].id implies sorted[j] == c by {
            let k = choose|k: int| 0 <= k < raw.len() && raw[k] == sorted[j];
            assert(raw[k].anchor_id == es[k].id);
            if k != i {
                if k < i {
                    assert(es[k].id != es[i].id);
                } else {
                    assert(es[i].id != es[k].id);
                }
            }
        }
        lemma_change_for_unique(sorted, es[i].id, c);
    }
    assert forall|j: int| 0 <= j < sorted.len() implies !has_kind(
        #[trigger] sorted[j],
        SemanticChangeKind::Inserted,
    ) by {
        let k = choose|k: int| 0 <= k < raw.len() && raw[k] == sorted[j];
        matched_by_id_has_no_unmatched_kind(es[k], id_partner(xs, es[k]), SemanticChangeKind::Inserted);
    }
    assert forall|ys: Seq<EntityView>| #[trigger] inserted_in(ys, sorted) == Seq::<
        EntityView,
    >::empty() by {
        lemma_nothing_inserted_by(ys, sorted);
    }
}

/// What merging our changed branch against their unchanged one keeps of base entity `b`: `b`
/// itself when our branch left it unchanged, else `b` rebuilt from our version.
pub open spec fn kept_against_unchanged(b: EntityView, ours: EntityView) -> EntityView {
    if change_kinds(b, ours, false) == seq![SemanticChangeKind::Unchanged] {
        b
    } else {
        from_snapshot(b, snapshot_of(ours))
    }
}

pub(crate) proof fn lemma_unchanged_against(b: EntityView, p: EntityView)
    ensures
        concurrent_resolution(b, classified(b, p, false), classified(b, b, false))
            == ResolutionView::Take(
            kept_against_unchanged(b, p),
            if change_kinds(b, p, false) == seq![SemanticChangeKind::Unchanged] {
                classified(b, b, false)
            } else {
                classified(b, p, false)
            },
        ),
        concurrent_resolution(b, classified(b, b, false), classified(b, p, false))
            == ResolutionView::Take(from_snapshot(b, snapshot_of(p)), classified(b, p, false)),
{
    let c = classified(b, p, false);
    let u = classified(b, b, false);
    assert(change_kinds(b, b, false) =~= seq![SemanticChangeKind::Unchanged]);
    lemma_unchanged_kinds(u);
    assert(u.kinds != seq![SemanticChangeKind::Moved]) by {
        assert(u.kinds[0] != SemanticChangeKind::Moved);
    }
    matched_by_id_has_no_unmatched_kind(b, p, SemanticChangeKind::Deleted);
    matched_by_id_has_no_unmatched_kind(b, p, SemanticChangeKind::Renamed);
    matched_by_id_has_no_unmatched_kind(b, p, SemanticChangeKind::Split);
    lemma_from_own_snapshot(b);
}

pub(crate) proof fn lemma_base_phase_against_unchanged(
    bs: Seq<EntityView>,
    es: Seq<EntityView>,
    xs: Seq<EntityView>,
    oc: Seq<ChangeView>,
    tc: Seq<ChangeView>,
    ours_changed: bool,
)
    requires
        forall|i: int| 0 <= i < bs.len() ==> es.contains(#[trigger] bs[i]),
        forall|i: int|
            0 <= i < es.len() ==> #[trigger] change_for(oc, es[i].id) == Some(
                if ours_changed {
                    classified(es[i], id_partner(xs, es[i]), false)
                } else {
                    classified(es[i], es[i], false)
                },
            ),
        forall|i: int|
            0 <= i < es.len() ==> #[trigger] change_for(tc, es[i].id) == Some(
                if ours_changed {
                    classified(es[i], es[i], false)
                } else {
                    classified(es[i], id_partner(xs, es[i]), false)
                },
            ),
    ensures
        base_phase(bs, oc, tc).conflicts.len() == 0,
        base_phase(bs, oc, tc).merged.len() == bs.len(),
        forall|i: int|
            0 <= i < bs.len() ==> #[trigger] base_phase(bs, oc, tc).merged[i] == if ours_changed {
                kept_against_unchanged(bs[i], id_partner(xs, bs[i]))
            } else {
                from_snapshot(bs[i], snapshot_of(id_partner(xs, bs[i])))
            },
    decreases bs.len(),
{
    if bs.len() > 0 {
        let d = bs.drop_last();
        assert forall|i: int| 0 <= i < d.len() implies es.contains(#[trigger] d[i]) by {
            assert(d[i] == bs[i]);
        }
        lemma_base_phase_against_unchanged(d, es, xs, oc, tc, ours_changed);
        let b = bs.last();
        assert(es.contains(bs[bs.len() - 1]));
        let m = choose|m: int| 0 <= m < es.len() && es[m] == b;
        assert(change_for(oc, es[m].id) == change_for(oc, b.id));
        assert(change_for(tc, es[m].id) == change_for(tc, b.id));
        lemma_unchanged_against(b, id_partner(xs, b));
        let prev = base_phase(d, oc, tc);
        let st = base_phase(bs, oc, tc);
        assert forall|i: int| 0 <= i < bs.len() implies #[trigger] st.merged[i] == if ours_changed {
            kept_against_unchanged(bs[i], id_partner(xs, bs[i]))
        } else {
            from_snapshot(bs[i], snapshot_of(id_partner(xs, bs[i])))
        } by {
            if i < d.len() {
                assert(st.merged[i] == prev.merged[i]);
                assert(d[i] == bs[i]);
            }
        }
    }
}

pub(crate) proof fn lemma_kept_carries_partner(b: EntityView, p: EntityView)
    requires
        b.id == p.id,
    ensures
        kept_against_unchanged(b, p).id == p.id,
        kept_against_unchanged(b, p).signature_hash == p.signature_hash,
        kept_against_unchanged(b, p).body_hash == p.body_hash,
{
    let k1 = Seq::<SemanticChangeKind>::empty();
    let k2 = if b.span.start != p.span.start {
        k1.push(SemanticChangeKind::Moved)
    } else {
        k1
    };
    let k3 = if b.signature_hash != p.signature_hash {
        k2.push(SemanticChangeKind::SignatureChanged)
    } else {
        k2
    };
    let k4 = if b.body_hash != p.body_hash {
        k3.push(SemanticChangeKind::ImplementationChanged)
    } else {
        k3
    };
    if k4.len() > 0 {
        assert(k4.last() != SemanticChangeKind::Unchanged);
        assert(seq![SemanticChangeKind::Unchanged].last() == SemanticChangeKind::Unchanged);
        assert(change_kinds(b, p, false) == k4);
        assert(change_kinds(b, p, false) != seq![SemanticChangeKind::Unchanged]);
    }
}

/// Both merges against an unchanged branch reduce to the base phase: nothing is inserted.
proof fn lemma_insertions_against_unchanged(base: IndexView, x: IndexView)
    requires
        unique_ids(base.entities),
        same_id_set(base.entities, x.entities),
    ensures
        merge_state(base, x, base).conflicts.len() == 0,
        merge_state(base, base, x).conflicts.len() == 0,
        merge_state(base, x, base).merged.len() == base.entities.len(),
        merge_state(base, base, x).merged.len() == base.entities.len(),
        forall|i: int|
            0 <= i < base.entities.len() ==> #[trigger] merge_state(base, base, x).merged[i]
                == from_snapshot(base.entities[i], snapshot_of(id_partner(x.entities, base.entities[i]))),
        forall|i: int|
            0 <= i < base.entities.len() ==> #[trigger] merge_state(base, x, base).merged[i]
                == kept_against_unchanged(base.entities[i], id_partner(x.entities, base.entities[i])),
{
    let es = base.entities;
    let xs = x.entities;
    assert(same_id_set(es, es)) by {
        assert forall|i: int| 0 <= i < es.len() implies #[trigger] has_id(es, es[i].id) by {
            assert(es[i].id == es[i].id);
        }
    }
    lemma_changes_by_id(es, xs);
    lemma_changes_by_id(es, es);
    crate::diff::lemma_last_index_unique_all(es);
    let xc = branch_changes(base, x);
    let bc = branch_changes(base, base);
    assert forall|i: int| 0 <= i < es.len() implies #[trigger] change_for(bc, es[i].id) == Some(
        classified(es[i], es[i], false),
    ) by {
        assert(id_partner(es, es[i]) == es[i]);
    }
    assert forall|i: int| 0 <= i < es.len() implies es.contains(#[trigger] es[i]) by {}
    lemma_base_phase_against_unchanged(es, es, xs, xc, bc, true);
    lemma_base_phase_against_unchanged(es, es, xs, bc, xc, false);
    let empty = Seq::<EntityView>::empty();
    assert(inserted_in(xs, xc) == empty);
    assert(inserted_in(es, bc) == empty);
    assert(inserted_in(xs, bc) == empty);
    assert(path_table(empty) == empty);
    assert(sort_stable::<SemanticEntity>(empty) =~= empty);
    let s1 = InsertState { st: base_phase(es, xc, bc), table: path_table(empty) };
    assert(ours_insertions(s1, empty) == s1);
    assert(theirs_insertions(s1.st, empty) == s1.st);
    let s2 = InsertState { st: base_phase(es, bc, xc), table: path_table(empty) };
    assert(ours_insertions(s2, empty) == s2);
    assert(theirs_insertions(s2.st, empty) == s2.st);
}

proof fn lemma_partners_carried(es: Seq<EntityView>, xs: Seq<EntityView>, merged: Seq<EntityView>)
    requires
        same_id_set(es, xs),
        merged.len() == es.len(),
        forall|i: int|
            0 <= i < es.len() ==> #[trigger] merged[i] == kept_against_unchanged(es[i], id_partner(xs, es[i])),
    ensures
        forall|i: int|
            0 <= i < es.len() ==> {
                let p = id_partner(xs, es[i]);
                let e = #[trigger] merged[i];
                &&& e.id == p.id
                &&& e.signature_hash == p.signature_hash
                &&& e.body_hash == p.body_hash
            },
{
    assert forall|i: int| 0 <= i < es.len() implies {
        let p = id_partner(xs, es[i]);
        let e = #[trigger] merged[i];
        &&& e.id == p.id
        &&& e.signature_hash == p.signature_hash
        &&& e.body_hash == p.body_hash
    } by {
        assert(has_id(xs, es[i].id));
        crate::diff::lemma_last_index_with_id(xs, es[i].id);
        lemma_kept_carries_partner(es[i], id_partner(xs, es[i]));
    }
}

proof fn lemma_every_partner_taken(es: Seq<EntityView>, xs: Seq<EntityView>)
    requires
        unique_ids(xs),
        same_id_set(es, xs),
    ensures
        forall|j: int|
            #![trigger xs[j]]
            0 <= j < xs.len() ==> exists|i: int|
                0 <= i < es.len() && #[trigger] id_partner(xs, es[i]) == xs[j],
{
    assert forall|j: int| #![trigger xs[j]] 0 <= j < xs.len() implies exists|i: int|
        0 <= i < es.len() && #[trigger] id_partner(xs, es[i]) == xs[j] by {
        assert(has_id(es, xs[j].id));
        let i = choose|i: int| 0 <= i < es.len() && #[trigger] es[i].id == xs[j].id;
        crate::diff::lemma_last_index_unique(xs, j);
        assert(id_partner(xs, es[i]) == xs[j]);
    }
}

/// Merging a branch `x` that keeps the base's ids (so that every entity of it is at most moved
/// or changed in signature or implementation: nothing is renamed, inserted, deleted, split or
/// merged) against a branch that left the base unchanged is clean, on whichever side `x`
/// stands. It keeps one entity per base entity, in base order. As their branch, `x` gives every
/// entity its own id, path, text and hashes; as our branch it does so for every entity it
/// changed, and an entity it left unchanged (same position and hashes) stays as in the base.
/// Either way every kept entity carries the id and hashes of its counterpart in `x`, and every
/// entity of `x` is the counterpart of one base entity.
#[verifier::spinoff_prover]
#[verifier::rlimit(60)]
pub proof fn merging_against_an_unchanged_branch_takes_the_branch(base: IndexView, x: IndexView)
    requires
        unique_ids(base.entities),
        unique_ids(x.entities),
        same_id_set(base.entities, x.entities),
    ensures
        merge_state(base, x, base).conflicts.len() == 0,
        merge_state(base, base, x).conflicts.len() == 0,
        merge_state(base, x, base).merged.len() == base.entities.len(),
        merge_state(base, base, x).merged.len() == base.entities.len(),
        forall|i: int|
            0 <= i < base.entities.len() ==> #[trigger] merge_state(base, base, x).merged[i]
                == from_snapshot(base.entities[i], snapshot_of(id_partner(x.entities, base.entities[i]))),
        forall|i: int|
            0 <= i < base.entities.len() ==> #[trigger] merge_state(base, x, base).merged[i]
                == kept_against_unchanged(base.entities[i], id_partner(x.entities, base.entities[i])),
        forall|i: int|
            0 <= i < base.entities.len() ==> {
                let p = id_partner(x.entities, base.entities[i]);
                let e = #[trigger] merge_state(base, x, base).merged[i];
                &&& e.id == p.id
                &&& e.signature_hash == p.signature_hash
                &&& e.body_hash == p.body_hash
            },
        forall|j: int|
            #![trigger x.entities[j]]
            0 <= j < x.entities.len() ==> exists|i: int|
                0 <= i < base.entities.len() && #[trigger] id_partner(x.entities, base.entities[i])
                    == x.entities[j],
{
    lemma_insertions_against_unchanged(base, x);
    lemma_partners_carried(base.entities, x.entities, merge_state(base, x, base).merged);
    lemma_every_partner_taken(base.entities, x.entities);
}


/// The three-way semantic merge of two branches of `base`. Each base entity is resolved from
/// the changes that each branch made to it; insertions of both branches are added; the merged
/// index exists exactly when no conflict arose.
pub fn merge_indices(
    base: &FileSemanticIndex,
    ours: &FileSemanticIndex,
    theirs: &FileSemanticIndex,
) -> (r: MergeResult)
    ensures
        ({
            let m = merge_state(base@, ours@, theirs@);
            &&& r@.status == if m.conflicts.len() == 0 {
                MergeStatus::Clean
            } else {
                MergeStatus::Conflicted
            }
            &&& r@.resolved_changes == m.resolved
            &&& r@.conflicts == m.conflicts
            &&& r@.merged_index == if m.conflicts.len() == 0 {
                Some(
                    merged_index_of(
                        base@,
                        ours@,
                        theirs@,
                        sort_stable::<SemanticEntity>(m.merged),
                    ),
                )
            } else {
                None
            }
            &&& r@.notes == seq![merge_note()]
        }),
        r@.status == MergeStatus::Clean <==> r@.conflicts.len() == 0,
        r@.merged_index is Some <==> r@.conflicts.len() == 0,
{
    let ours_diff = diff_indices(base, ours);
    let theirs_diff = diff_indices(base, theirs);
    let mut acc = resolve_base(base, &ours_diff.changes, &theirs_diff.changes);
    merge_insertions(ours, theirs, &ours_diff.changes, &theirs_diff.changes, &mut acc);
    let ghost m = acc@;
    assert(m == merge_state(base@, ours@, theirs@));
    let MergeAccumulator { merged, resolved, conflicts, applied: _ } = acc;
    let merged = stable_sort(merged);
    let clean = conflicts.len() == 0;
    proof {
        reveal_strlit(" (semantic merge)");
        reveal_strlit("semantic-merge<");
        reveal_strlit(">");
        reveal_strlit(
            "Merged index is semantic-only and may contain synthetic hashes for auto-resolved rename+implementation cases.",
        );
    }
    let merged_index = if clean {
        let root_entities = root_ids_exec(&merged);
        let exports = merge_exports(ours, theirs, &merged);
        let index = FileSemanticIndex {
            language: base.language,
            path: concat(base.path.as_str(), " (semantic merge)"),
            entities: merged,
            root_entities,
            exports,
            parser_version: concat3("semantic-merge<", base.parser_version.as_str(), ">"),
        };
        Some(index)
    } else {
        None
    };
    let note = "Merged index is semantic-only and may contain synthetic hashes for auto-resolved rename+implementation cases.";
    let notes = vec![note.to_owned()];
    assert(crate::model::str_seq(notes@) =~= seq![merge_note()]);
    MergeResult {
        status: if clean {
            MergeStatus::Clean
        } else {
            MergeStatus::Conflicted
        },
        resolved_changes: resolved,
        conflicts,
        merged_index,
        notes,
    }
}

} // verus!
