use vstd::prelude::*;
use vstd::string::StringExecFns;

use crate::model::{
    opt_str, opt_view, snapshot_of, str_equal, vec_view, ChangeView, ContextDiff, ContextView,
    DiffSummary, EntityView, FileSemanticIndex, SemanticChange, SemanticChangeKind, SemanticDiff,
    SemanticEntity, SnapshotView,
};
use crate::sort::{chars_lt, sort_stable, stable_sort, str_lt, SortKeyed};
use crate::text::{as_opt_ref, concat, concat3, opt_ref, or_empty};

verus! {

// ---------------------------------------------------------------------------------------------
// Similarity scores
// ---------------------------------------------------------------------------------------------
//
// `strsim::jaro_winkler` yields a similarity in [0, 1]. It is carried here as the IEEE-754 bit
// pattern of that value: for non-negative values the patterns, read as unsigned integers, order
// exactly as the values do, so every comparison and maximum below is the one on similarities.

/// The bit pattern of the Jaro-Winkler similarity of `a` and `b`.
pub uninterp spec fn jaro_winkler_bits(a: Seq<char>, b: Seq<char>) -> u64;

/// Bit pattern of the similarity 0.0.
pub const NO_SIMILARITY: u64 = 0x0000_0000_0000_0000;

/// Bit pattern of the similarity 1.0, given to bodies with equal hashes.
pub const EXACT_SIMILARITY: u64 = 0x3FF0_0000_0000_0000;

/// Bit pattern of 0.55: least body similarity for a same-name match.
pub const SAME_NAME_THRESHOLD: u64 = 0x3FE1_9999_9999_999A;

/// Bit pattern of 0.92: least score for a rename.
pub const RENAME_THRESHOLD: u64 = 0x3FED_70A3_D70A_3D71;

/// Bit pattern of 0.70: least body similarity for a split or merge candidate.
pub const SPLIT_MERGE_THRESHOLD: u64 = 0x3FE6_6666_6666_6666;

/// Calls `strsim::jaro_winkler(a, b)` and hands back the result's bit pattern (`f64::to_bits`).
/// Trusted: the pattern is `jaro_winkler_bits` of the two strings, and the similarity lies in
/// [0, 1], so its pattern is at most that of 1.0.
#[verifier::external_body]
fn jaro_winkler_score(a: &str, b: &str) -> (r: u64)
    ensures
        r == jaro_winkler_bits(a@, b@),
        r <= EXACT_SIMILARITY,
{
    strsim::jaro_winkler(a, b).to_bits()
}

/// Similarity of two optional bodies: zero unless both are present.
pub open spec fn body_similarity(left: EntityView, right: EntityView) -> u64 {
    match (left.body, right.body) {
        (Some(l), Some(r)) => jaro_winkler_bits(l, r),
        _ => NO_SIMILARITY,
    }
}

fn body_similarity_exec(left: &SemanticEntity, right: &SemanticEntity) -> (r: u64)
    ensures
        r == body_similarity(left@, right@),
{
    match (&left.body, &right.body) {
        (Some(l), Some(r)) => jaro_winkler_score(l.as_str(), r.as_str()),
        _ => NO_SIMILARITY,
    }
}

// ---------------------------------------------------------------------------------------------
// Context diffs
// ---------------------------------------------------------------------------------------------

/// The unified line diff of `before` and `after` that `similar` renders with the given number
/// of context lines and the given header names.
pub uninterp spec fn unified_line_diff(
    before: Seq<char>,
    after: Seq<char>,
    context_radius: usize,
    old_header: Seq<char>,
    new_header: Seq<char>,
) -> Seq<char>;

/// Renders `similar::TextDiff::from_lines(before, after).unified_diff()` with the context
/// radius and header names given. Trusted: the text is `unified_line_diff` of the arguments.
#[verifier::external_body]
fn unified_diff_text(
    before: &str,
    after: &str,
    context_radius: usize,
    old_header: &str,
    new_header: &str,
) -> (r: String)
    ensures
        r@ == unified_line_diff(before@, after@, context_radius, old_header@, new_header@),
{
    similar::TextDiff::from_lines(before, after).unified_diff().context_radius(
        context_radius,
    ).header(old_header, new_header).to_string()
}

/// The context of a change: none when neither side has text, else both sides with their
/// unified diff (two lines of context, headers `before` and `after`).
pub open spec fn context_of(before: Option<Seq<char>>, after: Option<Seq<char>>) -> Option<
    ContextView,
> {
    if before is None && after is None {
        None
    } else {
        Some(
            ContextView {
                before,
                after,
                unified_diff: unified_line_diff(
                    or_empty(before),
                    or_empty(after),
                    2,
                    "before"@,
                    "after"@,
                ),
            },
        )
    }
}

pub fn build_context(before: Option<&str>, after: Option<&str>) -> (r: Option<ContextDiff>)
    ensures
        opt_view(r) == context_of(opt_ref(before), opt_ref(after)),
{
    if before.is_none() && after.is_none() {
        return None;
    }
    let empty = "";
    proof {
        reveal_strlit("");
        reveal_strlit("before");
        reveal_strlit("after");
    }
    let before_value = match before {
        Some(b) => b,
        None => empty,
    };
    let after_value = match after {
        Some(a) => a,
        None => empty,
    };
    assert(before_value@ == or_empty(opt_ref(before)));
    assert(after_value@ == or_empty(opt_ref(after)));
    let unified = unified_diff_text(before_value, after_value, 2, "before", "after");
    let before_owned = match before {
        Some(b) => Some(b.to_owned()),
        None => None,
    };
    let after_owned = match after {
        Some(a) => Some(a.to_owned()),
        None => None,
    };
    Some(ContextDiff { before: before_owned, after: after_owned, unified_diff: unified })
}

// ---------------------------------------------------------------------------------------------
// Explanations
// ---------------------------------------------------------------------------------------------

/// "Entity `<path>`" followed by `rest`.
pub open spec fn entity_sentence(path: Seq<char>, rest: Seq<char>) -> Seq<char> {
    "Entity `"@ + path + rest
}

pub fn entity_sentence_exec(path: &str, rest: &str) -> (r: String)
    ensures
        r@ == entity_sentence(path@, rest@),
{
    proof {
        reveal_strlit("Entity `");
    }
    concat3("Entity `", path, rest)
}

pub open spec fn kind_label(k: SemanticChangeKind) -> Seq<char> {
    match k {
        SemanticChangeKind::Moved => "moved"@,
        SemanticChangeKind::SignatureChanged => "signature changed"@,
        SemanticChangeKind::ImplementationChanged => "implementation changed"@,
        SemanticChangeKind::Renamed => "renamed"@,
        SemanticChangeKind::Unchanged => "unchanged"@,
        SemanticChangeKind::Inserted => "inserted"@,
        SemanticChangeKind::Deleted => "deleted"@,
        SemanticChangeKind::Split => "split"@,
        SemanticChangeKind::Merged => "merged"@,
    }
}

fn kind_label_exec(k: SemanticChangeKind) -> (r: &'static str)
    ensures
        r@ == kind_label(k),
{
    match k {
        SemanticChangeKind::Moved => {
            proof {
                reveal_strlit("moved");
            }
            "moved"
        },
        SemanticChangeKind::SignatureChanged => {
            proof {
                reveal_strlit("signature changed");
            }
            "signature changed"
        },
        SemanticChangeKind::ImplementationChanged => {
            proof {
                reveal_strlit("implementation changed");
            }
            "implementation changed"
        },
        SemanticChangeKind::Renamed => {
            proof {
                reveal_strlit("renamed");
            }
            "renamed"
        },
        SemanticChangeKind::Unchanged => {
            proof {
                reveal_strlit("unchanged");
            }
            "unchanged"
        },
        SemanticChangeKind::Inserted => {
            proof {
                reveal_strlit("inserted");
            }
            "inserted"
        },
        SemanticChangeKind::Deleted => {
            proof {
                reveal_strlit("deleted");
            }
            "deleted"
        },
        SemanticChangeKind::Split => {
            proof {
                reveal_strlit("split");
            }
            "split"
        },
        SemanticChangeKind::Merged => {
            proof {
                reveal_strlit("merged");
            }
            "merged"
        },
    }
}

/// The labels of `kinds` joined by ", ".
pub open spec fn joined_labels(kinds: Seq<SemanticChangeKind>) -> Seq<char>
    decreases kinds.len(),
{
    if kinds.len() == 0 {
        seq![]
    } else if kinds.len() == 1 {
        kind_label(kinds[0])
    } else {
        joined_labels(kinds.drop_last()) + ", "@ + kind_label(kinds.last())
    }
}

/// "Entity `<old>` -> `<new>` was <labels>."
pub open spec fn change_description(
    old_path: Seq<char>,
    new_path: Seq<char>,
    kinds: Seq<SemanticChangeKind>,
) -> Seq<char> {
    entity_sentence(old_path, "` -> `"@ + new_path + "` was "@ + joined_labels(kinds) + "."@)
}

fn describe_change(
    old_entity: &SemanticEntity,
    new_entity: &SemanticEntity,
    kinds: &Vec<SemanticChangeKind>,
) -> (r: String)
    ensures
        r@ == change_description(old_entity@.path, new_entity@.path, kinds@),
{
    proof {
        reveal_strlit(", ");
        reveal_strlit("` -> `");
        reveal_strlit("` was ");
        reveal_strlit(".");
    }
    let mut labels = String::new();
    let n = kinds.len();
    let mut i: usize = 0;
    while i < n
        invariant
            n == kinds@.len(),
            0 <= i <= n,
            labels@ == joined_labels(kinds@.take(i as int)),
        decreases n - i,
    {
        let ghost prefix = kinds@.take(i + 1);
        assert(prefix.drop_last() =~= kinds@.take(i as int));
        if i > 0 {
            labels.append(", ");
        }
        labels.append(kind_label_exec(kinds[i]));
        proof {
            if i == 0 {
                assert(labels@ =~= joined_labels(prefix));
            }
        }
        i = i + 1;
    }
    assert(kinds@.take(n as int) =~= kinds@);
    let mut rest = concat3("` -> `", new_entity.path.as_str(), "` was ");
    rest.append(labels.as_str());
    rest.append(".");
    let r = entity_sentence_exec(old_entity.path.as_str(), rest.as_str());
    assert(rest@ =~= "` -> `"@ + new_entity@.path + "` was "@ + joined_labels(kinds@) + "."@);
    r
}

// ---------------------------------------------------------------------------------------------
// Classifying a matched pair
// ---------------------------------------------------------------------------------------------

/// The kinds of change between two matched entities, in the order they are reported.
pub open spec fn change_kinds(old: EntityView, new: EntityView, renamed: bool) -> Seq<
    SemanticChangeKind,
> {
    let k1 = if renamed {
        seq![SemanticChangeKind::Renamed]
    } else {
        seq![]
    };
    let k2 = if old.span.start != new.span.start {
        k1.push(SemanticChangeKind::Moved)
    } else {
        k1
    };
    let k3 = if old.signature_hash != new.signature_hash {
        k2.push(SemanticChangeKind::SignatureChanged)
    } else {
        k2
    };
    let k4 = if old.body_hash != new.body_hash {
        k3.push(SemanticChangeKind::ImplementationChanged)
    } else {
        k3
    };
    if k4.len() == 0 {
        seq![SemanticChangeKind::Unchanged]
    } else {
        k4
    }
}

pub open spec fn first_context(a: Option<ContextView>, b: Option<ContextView>) -> Option<
    ContextView,
> {
    if a is Some {
        a
    } else {
        b
    }
}

/// The change that reports a matched pair of entities.
pub open spec fn classified(old: EntityView, new: EntityView, renamed: bool) -> ChangeView {
    let kinds = change_kinds(old, new, renamed);
    ChangeView {
        anchor_id: old.id,
        kinds,
        previous: Some(snapshot_of(old)),
        current: Some(snapshot_of(new)),
        related_entities: seq![],
        context: if old.body_hash != new.body_hash {
            first_context(context_of(old.body, new.body), context_of(old.snippet, new.snippet))
        } else {
            context_of(old.snippet, new.snippet)
        },
        explanation: if kinds == seq![SemanticChangeKind::Unchanged] {
            entity_sentence(old.path, "` is unchanged."@)
        } else {
            change_description(old.path, new.path, kinds)
        },
    }
}

fn classify_matched_entities(
    old_entity: &SemanticEntity,
    new_entity: &SemanticEntity,
    renamed: bool,
) -> (r: SemanticChange)
    ensures
        r@ == classified(old_entity@, new_entity@, renamed),
{
    let ghost o = old_entity@;
    let ghost n = new_entity@;
    let mut kinds: Vec<SemanticChangeKind> = Vec::new();
    if renamed {
        kinds.push(SemanticChangeKind::Renamed);
    }
    if old_entity.span.start != new_entity.span.start {
        kinds.push(SemanticChangeKind::Moved);
    }
    if old_entity.signature_hash != new_entity.signature_hash {
        kinds.push(SemanticChangeKind::SignatureChanged);
    }
    let impl_changed = old_entity.body_hash != new_entity.body_hash;
    if impl_changed {
        kinds.push(SemanticChangeKind::ImplementationChanged);
    }
    let unchanged = kinds.len() == 0;
    if unchanged {
        kinds.push(SemanticChangeKind::Unchanged);
    }
    assert(kinds@ =~= change_kinds(o, n, renamed));
    let context = if impl_changed {
        let by_body = build_context(as_opt_ref(&old_entity.body), as_opt_ref(&new_entity.body));
        if by_body.is_some() {
            by_body
        } else {
            build_context(as_opt_ref(&old_entity.snippet), as_opt_ref(&new_entity.snippet))
        }
    } else {
        build_context(as_opt_ref(&old_entity.snippet), as_opt_ref(&new_entity.snippet))
    };
    proof {
        reveal_strlit("` is unchanged.");
        if !unchanged {
            assert(kinds@ != seq![SemanticChangeKind::Unchanged]) by {
                if kinds@ == seq![SemanticChangeKind::Unchanged] {
                    assert(kinds@[kinds@.len() - 1] != SemanticChangeKind::Unchanged);
                }
            }
        }
    }
    let explanation = if unchanged {
        entity_sentence_exec(old_entity.path.as_str(), "` is unchanged.")
    } else {
        describe_change(old_entity, new_entity, &kinds)
    };
    let r = SemanticChange {
        anchor_id: old_entity.id.clone(),
        kinds,
        previous: Some(old_entity.snapshot()),
        current: Some(new_entity.snapshot()),
        related_entities: Vec::new(),
        context,
        explanation,
    };
    assert(r@.kinds == classified(o, n, renamed).kinds);
    assert(r@.context == classified(o, n, renamed).context);
    assert(r@.explanation == classified(o, n, renamed).explanation);
    assert(r@.related_entities =~= seq![]);
    r
}


// ---------------------------------------------------------------------------------------------
// Matching by id
// ---------------------------------------------------------------------------------------------

pub open spec fn has_id(es: Seq<EntityView>, id: Seq<char>) -> bool {
    exists|j: int| 0 <= j < es.len() && #[trigger] es[j].id == id
}

/// The position of the last entity with id `id`, or -1.
pub open spec fn last_index_with_id(es: Seq<EntityView>, id: Seq<char>) -> int
    decreases es.len(),
{
    if es.len() == 0 {
        -1
    } else if es.last().id == id {
        es.len() - 1
    } else {
        last_index_with_id(es.drop_last(), id)
    }
}

pub(crate) proof fn lemma_last_index_with_id(es: Seq<EntityView>, id: Seq<char>)
    ensures
        has_id(es, id) <==> last_index_with_id(es, id) >= 0,
        last_index_with_id(es, id) < es.len(),
        last_index_with_id(es, id) >= 0 ==> es[last_index_with_id(es, id)].id == id,
    decreases es.len(),
{
    if es.len() > 0 {
        let d = es.drop_last();
        lemma_last_index_with_id(d, id);
        if es.last().id != id {
            if has_id(es, id) {
                let j = choose|j: int| 0 <= j < es.len() && #[trigger] es[j].id == id;
                assert(d[j].id == id);
            }
            if has_id(d, id) {
                let j = choose|j: int| 0 <= j < d.len() && #[trigger] d[j].id == id;
                assert(es[j].id == id);
            }
        } else {
            assert(es[es.len() - 1].id == id);
        }
    }
}

/// The last entity of `es` whose id is `id`, found from the end.
fn last_with_id(es: &Vec<SemanticEntity>, id: &str) -> (r: Option<usize>)
    ensures
        r is None ==> last_index_with_id(vec_view(es@), id@) == -1,
        r matches Some(j) ==> j == last_index_with_id(vec_view(es@), id@),
{
    let ghost v = vec_view(es@);
    let mut j = es.len();
    assert(v.take(j as int) =~= v);
    while j > 0
        invariant
            0 <= j <= es@.len(),
            v == vec_view(es@),
            last_index_with_id(v, id@) == last_index_with_id(v.take(j as int), id@),
        decreases j,
    {
        let ghost t = v.take(j as int);
        assert(t.drop_last() =~= v.take(j - 1));
        assert(t.last() == es@[j - 1]@);
        if str_equal(es[j - 1].id.as_str(), id) {
            return Some(j - 1);
        }
        j = j - 1;
    }
    None
}

/// Whether some entity of `es` has the id `id`.
fn contains_id(es: &Vec<SemanticEntity>, id: &str) -> (r: bool)
    ensures
        r == has_id(vec_view(es@), id@),
{
    proof {
        lemma_last_index_with_id(vec_view(es@), id@);
    }
    last_with_id(es, id).is_some()
}

/// The changes of the entities whose id is also in the new index, in old order; each is
/// matched with the last new entity of that id.
pub open spec fn id_changes(old: Seq<EntityView>, new: Seq<EntityView>) -> Seq<ChangeView>
    decreases old.len(),
{
    if old.len() == 0 {
        seq![]
    } else {
        let o = old.last();
        let prev = id_changes(old.drop_last(), new);
        if has_id(new, o.id) {
            prev.push(classified(o, new[last_index_with_id(new, o.id)], false))
        } else {
            prev
        }
    }
}

/// The entities of `es` whose id no entity of `others` has.
pub open spec fn absent_from(es: Seq<EntityView>, others: Seq<EntityView>) -> Seq<EntityView>
    decreases es.len(),
{
    if es.len() == 0 {
        seq![]
    } else {
        let prev = absent_from(es.drop_last(), others);
        if has_id(others, es.last().id) {
            prev
        } else {
            prev.push(es.last())
        }
    }
}

/// The entities of `es` whose id is not in `ids`.
pub open spec fn excluding(es: Seq<EntityView>, ids: Seq<Seq<char>>) -> Seq<EntityView>
    decreases es.len(),
{
    if es.len() == 0 {
        seq![]
    } else {
        let prev = excluding(es.drop_last(), ids);
        if ids.contains(es.last().id) {
            prev
        } else {
            prev.push(es.last())
        }
    }
}

/// Pairs of entities matched by one phase, with the ids each side has used up.
pub struct MatchState {
    pub pairs: Seq<(EntityView, EntityView)>,
    pub used_old: Seq<Seq<char>>,
    pub used_new: Seq<Seq<char>>,
}

pub open spec fn no_matches() -> MatchState {
    MatchState { pairs: seq![], used_old: seq![], used_new: seq![] }
}

pub open spec fn with_match(st: MatchState, o: EntityView, n: EntityView) -> MatchState {
    MatchState {
        pairs: st.pairs.push((o, n)),
        used_old: st.used_old.push(o.id),
        used_new: st.used_new.push(n.id),
    }
}

/// The changes reporting matched pairs, in match order.
pub open spec fn pair_changes(pairs: Seq<(EntityView, EntityView)>, renamed: bool) -> Seq<
    ChangeView,
>
    decreases pairs.len(),
{
    if pairs.len() == 0 {
        seq![]
    } else {
        pair_changes(pairs.drop_last(), renamed).push(
            classified(pairs.last().0, pairs.last().1, renamed),
        )
    }
}

// ---------------------------------------------------------------------------------------------
// Matching by name
// ---------------------------------------------------------------------------------------------

pub open spec fn same_name_candidate(o: EntityView, n: EntityView) -> bool {
    o.kind == n.kind && o.name == n.name && o.parent == n.parent
}

/// The unused entities of `un` with the kind, name and parent of `o`.
pub open spec fn name_candidates(o: EntityView, un: Seq<EntityView>, used_new: Seq<Seq<char>>) -> Seq<
    EntityView,
>
    decreases un.len(),
{
    if un.len() == 0 {
        seq![]
    } else {
        let prev = name_candidates(o, un.drop_last(), used_new);
        let n = un.last();
        if same_name_candidate(o, n) && !used_new.contains(n.id) {
            prev.push(n)
        } else {
            prev
        }
    }
}

/// One step of name matching: `o` is matched with its only candidate when that candidate has
/// the same body hash or a body similarity of at least 0.55.
pub open spec fn same_name_step(st: MatchState, o: EntityView, un: Seq<EntityView>) -> MatchState {
    let c = name_candidates(o, un, st.used_new);
    if c.len() != 1 || st.used_old.contains(o.id) {
        st
    } else if o.body_hash == c[0].body_hash || body_similarity(o, c[0]) >= SAME_NAME_THRESHOLD {
        with_match(st, o, c[0])
    } else {
        st
    }
}

pub open spec fn same_name_matches(uo: Seq<EntityView>, un: Seq<EntityView>) -> MatchState
    decreases uo.len(),
{
    if uo.len() == 0 {
        no_matches()
    } else {
        same_name_step(same_name_matches(uo.drop_last(), un), uo.last(), un)
    }
}

/// Whether `ids` holds `id`.
fn ids_contain(ids: &Vec<String>, id: &str) -> (r: bool)
    ensures
        r == crate::model::str_seq(ids@).contains(id@),
{
    let ghost v = crate::model::str_seq(ids@);
    let n = ids.len();
    let mut i: usize = 0;
    while i < n
        invariant
            n == ids@.len(),
            0 <= i <= n,
            v == crate::model::str_seq(ids@),
            forall|j: int| 0 <= j < i ==> v[j] != id@,
        decreases n - i,
    {
        if str_equal(ids[i].as_str(), id) {
            assert(v[i as int] == id@);
            return true;
        }
        i = i + 1;
    }
    false
}

/// The result of matching by name, as references into the unmatched lists.
fn detect_same_name_matches<'a>(
    unmatched_old: &Vec<&'a SemanticEntity>,
    unmatched_new: &Vec<&'a SemanticEntity>,
) -> (r: (Vec<(&'a SemanticEntity, &'a SemanticEntity)>, Vec<String>, Vec<String>))
    ensures
        pair_views(r.0@) == same_name_matches(vec_view(unmatched_old@), vec_view(unmatched_new@)).pairs,
        crate::model::str_seq(r.1@) == same_name_matches(
            vec_view(unmatched_old@),
            vec_view(unmatched_new@),
        ).used_old,
        crate::model::str_seq(r.2@) == same_name_matches(
            vec_view(unmatched_old@),
            vec_view(unmatched_new@),
        ).used_new,
{
    let ghost uo = vec_view(unmatched_old@);
    let ghost un = vec_view(unmatched_new@);
    let mut matches: Vec<(&'a SemanticEntity, &'a SemanticEntity)> = Vec::new();
    let mut used_old: Vec<String> = Vec::new();
    let mut used_new: Vec<String> = Vec::new();
    let n_old = unmatched_old.len();
    let n_new = unmatched_new.len();
    let mut i: usize = 0;
    while i < n_old
        invariant
            n_old == unmatched_old@.len(),
            n_new == unmatched_new@.len(),
            uo == vec_view(unmatched_old@),
            un == vec_view(unmatched_new@),
            0 <= i <= n_old,
            pair_views(matches@) == same_name_matches(uo.take(i as int), un).pairs,
            crate::model::str_seq(used_old@) == same_name_matches(uo.take(i as int), un).used_old,
            crate::model::str_seq(used_new@) == same_name_matches(uo.take(i as int), un).used_new,
        decreases n_old - i,
    {
        let o = unmatched_old[i];
        let ghost st = same_name_matches(uo.take(i as int), un);
        assert(uo.take(i + 1).drop_last() =~= uo.take(i as int));
        assert(uo.take(i + 1).last() == o@);
        // Count the candidates and remember the first.
        let mut count: usize = 0;
        let mut first: Option<&'a SemanticEntity> = None;
        let mut j: usize = 0;
        while j < n_new
            invariant
                n_new == unmatched_new@.len(),
                un == vec_view(unmatched_new@),
                0 <= j <= n_new,
                count == name_candidates(o@, un.take(j as int), st.used_new).len(),
                count <= j,
                count > 0 ==> (first matches Some(f) && f@ == name_candidates(
                    o@,
                    un.take(j as int),
                    st.used_new,
                )[0]),
                crate::model::str_seq(used_new@) == st.used_new,
            decreases n_new - j,
        {
            let c = unmatched_new[j];
            let ghost t = un.take(j + 1);
            assert(t.drop_last() =~= un.take(j as int));
            assert(t.last() == c@);
            if c.kind == o.kind && c.name == o.name && opt_string_eq(&c.parent, &o.parent)
                && !ids_contain(&used_new, c.id.as_str()) {
                if count == 0 {
                    first = Some(c);
                }
                count = count + 1;
            }
            j = j + 1;
        }
        assert(un.take(n_new as int) =~= un);
        if count == 1 && !ids_contain(&used_old, o.id.as_str()) {
            let candidate = first.unwrap();
            let same_body = o.body_hash == candidate.body_hash;
            if same_body || body_similarity_exec(o, candidate) >= SAME_NAME_THRESHOLD {
                used_old.push(o.id.clone());
                used_new.push(candidate.id.clone());
                matches.push((o, candidate));
                proof {
                    assert(pair_views(matches@) =~= st.pairs.push((o@, candidate@)));
                    assert(crate::model::str_seq(used_old@) =~= st.used_old.push(o@.id));
                    assert(crate::model::str_seq(used_new@) =~= st.used_new.push(candidate@.id));
                }
            }
        }
        i = i + 1;
    }
    assert(uo.take(n_old as int) =~= uo);
    (matches, used_old, used_new)
}

/// The views of matched pairs.
pub open spec fn pair_views(v: Seq<(&SemanticEntity, &SemanticEntity)>) -> Seq<
    (EntityView, EntityView),
> {
    v.map_values(|p: (&SemanticEntity, &SemanticEntity)| (p.0@, p.1@))
}

/// Whether two optional strings are equal.
pub fn opt_string_eq(a: &Option<String>, b: &Option<String>) -> (r: bool)
    ensures
        r == (opt_str(*a) == opt_str(*b)),
{
    match (a, b) {
        (Some(x), Some(y)) => str_equal(x.as_str(), y.as_str()),
        (None, None) => true,
        _ => false,
    }
}


// ---------------------------------------------------------------------------------------------
// Matching renames
// ---------------------------------------------------------------------------------------------

/// The rename score of a pair: exact when the bodies hash alike, else the larger of the
/// signature and body similarities.
pub open spec fn rename_score(o: EntityView, n: EntityView) -> u64 {
    if o.body_hash == n.body_hash {
        EXACT_SIMILARITY
    } else {
        let sig = jaro_winkler_bits(o.signature, n.signature);
        let body = body_similarity(o, n);
        if sig >= body {
            sig
        } else {
            body
        }
    }
}

pub open spec fn rename_eligible(o: EntityView, n: EntityView) -> bool {
    &&& o.kind == n.kind
    &&& o.parent == n.parent
    &&& o.shape_hash == n.shape_hash
    &&& rename_score(o, n) >= RENAME_THRESHOLD
}

/// The rename candidates of `o` among `un`, in `un` order.
pub open spec fn rename_row(o: EntityView, un: Seq<EntityView>) -> Seq<(u64, EntityView, EntityView)>
    decreases un.len(),
{
    if un.len() == 0 {
        seq![]
    } else {
        let prev = rename_row(o, un.drop_last());
        let n = un.last();
        if rename_eligible(o, n) {
            prev.push((rename_score(o, n), o, n))
        } else {
            prev
        }
    }
}

/// All rename candidates, row by row in `uo` order.
pub open spec fn rename_candidates(uo: Seq<EntityView>, un: Seq<EntityView>) -> Seq<
    (u64, EntityView, EntityView),
>
    decreases uo.len(),
{
    if uo.len() == 0 {
        seq![]
    } else {
        rename_candidates(uo.drop_last(), un) + rename_row(uo.last(), un)
    }
}

/// Takes candidates in order, skipping those whose old or new id is already used.
pub open spec fn greedy_matches(cands: Seq<(u64, EntityView, EntityView)>) -> MatchState
    decreases cands.len(),
{
    if cands.len() == 0 {
        no_matches()
    } else {
        let st = greedy_matches(cands.drop_last());
        let (_, o, n) = cands.last();
        if st.used_old.contains(o.id) || st.used_new.contains(n.id) {
            st
        } else {
            with_match(st, o, n)
        }
    }
}

/// The renames: candidates by decreasing score (ties in candidate order), taken greedily.
pub open spec fn rename_matches(uo: Seq<EntityView>, un: Seq<EntityView>) -> MatchState {
    greedy_matches(sort_stable::<RenameCandidate>(rename_candidates(uo, un)))
}

/// A possible rename of `old` into `new`, with its score.
pub struct RenameCandidate<'a> {
    pub score: u64,
    pub old: &'a SemanticEntity,
    pub new: &'a SemanticEntity,
}

impl<'a> View for RenameCandidate<'a> {
    type V = (u64, EntityView, EntityView);

    open spec fn view(&self) -> (u64, EntityView, EntityView) {
        (self.score, self.old@, self.new@)
    }
}

impl<'a> SortKeyed for RenameCandidate<'a> {
    /// Higher scores come first.
    open spec fn goes_first(a: (u64, EntityView, EntityView), b: (u64, EntityView, EntityView)) -> bool {
        a.0 > b.0
    }

    fn goes_first_exec(a: &Self, b: &Self) -> (r: bool) {
        a.score > b.score
    }
}

fn detect_renames<'a>(
    unmatched_old: &Vec<&'a SemanticEntity>,
    unmatched_new: &Vec<&'a SemanticEntity>,
) -> (r: (Vec<(&'a SemanticEntity, &'a SemanticEntity)>, Vec<String>, Vec<String>))
    ensures
        pair_views(r.0@) == rename_matches(vec_view(unmatched_old@), vec_view(unmatched_new@)).pairs,
        crate::model::str_seq(r.1@) == rename_matches(
            vec_view(unmatched_old@),
            vec_view(unmatched_new@),
        ).used_old,
        crate::model::str_seq(r.2@) == rename_matches(
            vec_view(unmatched_old@),
            vec_view(unmatched_new@),
        ).used_new,
{
    let ghost uo = vec_view(unmatched_old@);
    let ghost un = vec_view(unmatched_new@);
    let mut candidates: Vec<RenameCandidate<'a>> = Vec::new();
    let n_old = unmatched_old.len();
    let n_new = unmatched_new.len();
    let mut i: usize = 0;
    while i < n_old
        invariant
            n_old == unmatched_old@.len(),
            n_new == unmatched_new@.len(),
            uo == vec_view(unmatched_old@),
            un == vec_view(unmatched_new@),
            0 <= i <= n_old,
            vec_view(candidates@) == rename_candidates(uo.take(i as int), un),
        decreases n_old - i,
    {
        let o = unmatched_old[i];
        assert(uo.take(i + 1).drop_last() =~= uo.take(i as int));
        assert(uo.take(i + 1).last() == o@);
        let ghost before = vec_view(candidates@);
        let mut j: usize = 0;
        while j < n_new
            invariant
                n_new == unmatched_new@.len(),
                un == vec_view(unmatched_new@),
                0 <= j <= n_new,
                vec_view(candidates@) == before + rename_row(o@, un.take(j as int)),
            decreases n_new - j,
        {
            let n = unmatched_new[j];
            let ghost t = un.take(j + 1);
            assert(t.drop_last() =~= un.take(j as int));
            assert(t.last() == n@);
            if o.kind == n.kind && opt_string_eq(&o.parent, &n.parent) && o.shape_hash
                == n.shape_hash {
                let score = if o.body_hash == n.body_hash {
                    EXACT_SIMILARITY
                } else {
                    let sig = jaro_winkler_score(o.signature.as_str(), n.signature.as_str());
                    let body = body_similarity_exec(o, n);
                    if sig >= body {
                        sig
                    } else {
                        body
                    }
                };
                if score >= RENAME_THRESHOLD {
                    let ghost prev = candidates@;
                    candidates.push(RenameCandidate { score, old: o, new: n });
                    assert(vec_view(candidates@) =~= vec_view(prev).push((score, o@, n@)));
                }
            }
            j = j + 1;
        }
        assert(un.take(n_new as int) =~= un);
        i = i + 1;
    }
    assert(uo.take(n_old as int) =~= uo);
    let sorted = stable_sort(candidates);
    let ghost sv = vec_view(sorted@);
    let mut matches: Vec<(&'a SemanticEntity, &'a SemanticEntity)> = Vec::new();
    let mut used_old: Vec<String> = Vec::new();
    let mut used_new: Vec<String> = Vec::new();
    let m = sorted.len();
    let mut k: usize = 0;
    while k < m
        invariant
            m == sorted@.len(),
            sv == vec_view(sorted@),
            0 <= k <= m,
            pair_views(matches@) == greedy_matches(sv.take(k as int)).pairs,
            crate::model::str_seq(used_old@) == greedy_matches(sv.take(k as int)).used_old,
            crate::model::str_seq(used_new@) == greedy_matches(sv.take(k as int)).used_new,
        decreases m - k,
    {
        let c = &sorted[k];
        let ghost st = greedy_matches(sv.take(k as int));
        assert(sv.take(k + 1).drop_last() =~= sv.take(k as int));
        assert(sv.take(k + 1).last() == c@);
        if !ids_contain(&used_old, c.old.id.as_str()) && !ids_contain(&used_new, c.new.id.as_str()) {
            used_old.push(c.old.id.clone());
            used_new.push(c.new.id.clone());
            matches.push((c.old, c.new));
            proof {
                assert(pair_views(matches@) =~= st.pairs.push((c.old@, c.new@)));
                assert(crate::model::str_seq(used_old@) =~= st.used_old.push(c.old@.id));
                assert(crate::model::str_seq(used_new@) =~= st.used_new.push(c.new@.id));
            }
        }
        k = k + 1;
    }
    assert(sv.take(m as int) =~= sv);
    (matches, used_old, used_new)
}


// ---------------------------------------------------------------------------------------------
// Filtering the unmatched entities
// ---------------------------------------------------------------------------------------------

fn absent_refs<'a>(es: &'a Vec<SemanticEntity>, others: &Vec<SemanticEntity>) -> (r: Vec<
    &'a SemanticEntity,
>)
    ensures
        vec_view(r@) == absent_from(vec_view(es@), vec_view(others@)),
{
    let ghost v = vec_view(es@);
    let mut out: Vec<&'a SemanticEntity> = Vec::new();
    let n = es.len();
    let mut i: usize = 0;
    while i < n
        invariant
            n == es@.len(),
            v == vec_view(es@),
            0 <= i <= n,
            vec_view(out@) == absent_from(v.take(i as int), vec_view(others@)),
        decreases n - i,
    {
        let e = &es[i];
        assert(v.take(i + 1).drop_last() =~= v.take(i as int));
        assert(v.take(i + 1).last() == e@);
        if !contains_id(others, e.id.as_str()) {
            let ghost prev = out@;
            out.push(e);
            assert(vec_view(out@) =~= vec_view(prev).push(e@));
        }
        i = i + 1;
    }
    assert(v.take(n as int) =~= v);
    out
}

fn exclude_ids<'a>(es: &Vec<&'a SemanticEntity>, ids: &Vec<String>) -> (r: Vec<&'a SemanticEntity>)
    ensures
        vec_view(r@) == excluding(vec_view(es@), crate::model::str_seq(ids@)),
{
    let ghost v = vec_view(es@);
    let mut out: Vec<&'a SemanticEntity> = Vec::new();
    let n = es.len();
    let mut i: usize = 0;
    while i < n
        invariant
            n == es@.len(),
            v == vec_view(es@),
            0 <= i <= n,
            vec_view(out@) == excluding(v.take(i as int), crate::model::str_seq(ids@)),
        decreases n - i,
    {
        let e = es[i];
        assert(v.take(i + 1).drop_last() =~= v.take(i as int));
        assert(v.take(i + 1).last() == e@);
        if !ids_contain(ids, e.id.as_str()) {
            let ghost prev = out@;
            out.push(e);
            assert(vec_view(out@) =~= vec_view(prev).push(e@));
        }
        i = i + 1;
    }
    assert(v.take(n as int) =~= v);
    out
}

// ---------------------------------------------------------------------------------------------
// Splits, merges, deletions and insertions
// ---------------------------------------------------------------------------------------------

pub open spec fn split_merge_candidate(left: EntityView, right: EntityView) -> bool {
    &&& left.kind == right.kind
    &&& left.parent == right.parent
    &&& body_similarity(left, right) >= SPLIT_MERGE_THRESHOLD
}

/// The entities of `rn` that `o` may have been split into.
pub open spec fn split_targets(o: EntityView, rn: Seq<EntityView>) -> Seq<EntityView>
    decreases rn.len(),
{
    if rn.len() == 0 {
        seq![]
    } else {
        let prev = split_targets(o, rn.drop_last());
        if split_merge_candidate(o, rn.last()) {
            prev.push(rn.last())
        } else {
            prev
        }
    }
}

/// The entities of `ro` that may have been merged into `n`.
pub open spec fn merge_sources(n: EntityView, ro: Seq<EntityView>) -> Seq<EntityView>
    decreases ro.len(),
{
    if ro.len() == 0 {
        seq![]
    } else {
        let prev = merge_sources(n, ro.drop_last());
        if split_merge_candidate(ro.last(), n) {
            prev.push(ro.last())
        } else {
            prev
        }
    }
}

pub open spec fn snapshots(es: Seq<EntityView>) -> Seq<SnapshotView> {
    es.map_values(|e: EntityView| snapshot_of(e))
}

pub open spec fn split_change(o: EntityView, targets: Seq<EntityView>) -> ChangeView {
    ChangeView {
        anchor_id: o.id,
        kinds: seq![SemanticChangeKind::Split],
        previous: Some(snapshot_of(o)),
        current: None,
        related_entities: snapshots(targets),
        context: None,
        explanation: entity_sentence(
            o.path,
            "` may have been split into multiple semantic entities."@,
        ),
    }
}

pub open spec fn merge_change(n: EntityView, sources: Seq<EntityView>) -> ChangeView {
    ChangeView {
        anchor_id: n.id,
        kinds: seq![SemanticChangeKind::Merged],
        previous: None,
        current: Some(snapshot_of(n)),
        related_entities: snapshots(sources),
        context: None,
        explanation: entity_sentence(
            n.path,
            "` may be the result of a semantic merge of multiple entities."@,
        ),
    }
}

pub open spec fn deleted_change(o: EntityView) -> ChangeView {
    ChangeView {
        anchor_id: o.id,
        kinds: seq![SemanticChangeKind::Deleted],
        previous: Some(snapshot_of(o)),
        current: None,
        related_entities: seq![],
        context: context_of(o.snippet, None),
        explanation: entity_sentence(o.path, "` was deleted."@),
    }
}

pub open spec fn inserted_change(n: EntityView) -> ChangeView {
    ChangeView {
        anchor_id: n.id,
        kinds: seq![SemanticChangeKind::Inserted],
        previous: None,
        current: Some(snapshot_of(n)),
        related_entities: seq![],
        context: context_of(None, n.snippet),
        explanation: entity_sentence(n.path, "` was inserted."@),
    }
}

/// Split reports for the remaining old entities with more than one split target.
pub open spec fn split_changes(ro: Seq<EntityView>, rn: Seq<EntityView>) -> Seq<ChangeView>
    decreases ro.len(),
{
    if ro.len() == 0 {
        seq![]
    } else {
        let prev = split_changes(ro.drop_last(), rn);
        let targets = split_targets(ro.last(), rn);
        if targets.len() > 1 {
            prev.push(split_change(ro.last(), targets))
        } else {
            prev
        }
    }
}

/// The ids of the old entities reported as split.
pub open spec fn split_ids(ro: Seq<EntityView>, rn: Seq<EntityView>) -> Seq<Seq<char>>
    decreases ro.len(),
{
    if ro.len() == 0 {
        seq![]
    } else {
        let prev = split_ids(ro.drop_last(), rn);
        if split_targets(ro.last(), rn).len() > 1 {
            prev.push(ro.last().id)
        } else {
            prev
        }
    }
}

/// Merge reports for the remaining new entities with more than one merge source.
pub open spec fn merge_changes(ro: Seq<EntityView>, rn: Seq<EntityView>) -> Seq<ChangeView>
    decreases rn.len(),
{
    if rn.len() == 0 {
        seq![]
    } else {
        let prev = merge_changes(ro, rn.drop_last());
        let sources = merge_sources(rn.last(), ro);
        if sources.len() > 1 {
            prev.push(merge_change(rn.last(), sources))
        } else {
            prev
        }
    }
}

/// The ids of the new entities reported as merged.
pub open spec fn merge_ids(ro: Seq<EntityView>, rn: Seq<EntityView>) -> Seq<Seq<char>>
    decreases rn.len(),
{
    if rn.len() == 0 {
        seq![]
    } else {
        let prev = merge_ids(ro, rn.drop_last());
        if merge_sources(rn.last(), ro).len() > 1 {
            prev.push(rn.last().id)
        } else {
            prev
        }
    }
}

/// Deletion reports for the remaining old entities not reported as split.
pub open spec fn deleted_changes(ro: Seq<EntityView>, split: Seq<Seq<char>>) -> Seq<ChangeView>
    decreases ro.len(),
{
    if ro.len() == 0 {
        seq![]
    } else {
        let prev = deleted_changes(ro.drop_last(), split);
        if split.contains(ro.last().id) {
            prev
        } else {
            prev.push(deleted_change(ro.last()))
        }
    }
}

/// Insertion reports for the remaining new entities not reported as merged.
pub open spec fn inserted_changes(rn: Seq<EntityView>, merged: Seq<Seq<char>>) -> Seq<ChangeView>
    decreases rn.len(),
{
    if rn.len() == 0 {
        seq![]
    } else {
        let prev = inserted_changes(rn.drop_last(), merged);
        if merged.contains(rn.last().id) {
            prev
        } else {
            prev.push(inserted_change(rn.last()))
        }
    }
}

fn split_merge_candidate_exec(left: &SemanticEntity, right: &SemanticEntity) -> (r: bool)
    ensures
        r == split_merge_candidate(left@, right@),
{
    if left.kind != right.kind || !opt_string_eq(&left.parent, &right.parent) {
        return false;
    }
    body_similarity_exec(left, right) >= SPLIT_MERGE_THRESHOLD
}

fn snapshots_of(es: &Vec<&SemanticEntity>) -> (r: Vec<crate::model::EntitySnapshot>)
    ensures
        vec_view(r@) == snapshots(vec_view(es@)),
{
    let mut out: Vec<crate::model::EntitySnapshot> = Vec::new();
    let n = es.len();
    let mut i: usize = 0;
    while i < n
        invariant
            n == es@.len(),
            0 <= i <= n,
            vec_view(out@) == snapshots(vec_view(es@).take(i as int)),
        decreases n - i,
    {
        let ghost prev = out@;
        let snap = es[i].snapshot();
        out.push(snap);
        proof {
            let t = vec_view(es@).take(i + 1);
            assert(t =~= vec_view(es@).take(i as int).push(es@[i as int]@));
            assert(snapshots(t) =~= snapshots(vec_view(es@).take(i as int)).push(snap@));
            assert(vec_view(out@) =~= vec_view(prev).push(snap@));
        }
        i = i + 1;
    }
    assert(vec_view(es@).take(n as int) =~= vec_view(es@));
    out
}

/// Appends the split reports to `changes` and returns the split ids.
fn push_splits(
    remaining_old: &Vec<&SemanticEntity>,
    remaining_new: &Vec<&SemanticEntity>,
    changes: &mut Vec<SemanticChange>,
) -> (r: Vec<String>)
    ensures
        vec_view(final(changes)@) == vec_view(old(changes)@) + split_changes(
            vec_view(remaining_old@),
            vec_view(remaining_new@),
        ),
        crate::model::str_seq(r@) == split_ids(vec_view(remaining_old@), vec_view(remaining_new@)),
        well_reported(vec_view(old(changes)@)) ==> well_reported(vec_view(final(changes)@)),
{
    let ghost ro = vec_view(remaining_old@);
    let ghost rn = vec_view(remaining_new@);
    let ghost start = vec_view(changes@);
    let mut anchors: Vec<String> = Vec::new();
    let n_old = remaining_old.len();
    let n_new = remaining_new.len();
    let mut i: usize = 0;
    while i < n_old
        invariant
            n_old == remaining_old@.len(),
            n_new == remaining_new@.len(),
            ro == vec_view(remaining_old@),
            rn == vec_view(remaining_new@),
            0 <= i <= n_old,
            vec_view(changes@) == start + split_changes(ro.take(i as int), rn),
            well_reported(start) ==> well_reported(vec_view(changes@)),
            crate::model::str_seq(anchors@) == split_ids(ro.take(i as int), rn),
        decreases n_old - i,
    {
        let o = remaining_old[i];
        assert(ro.take(i + 1).drop_last() =~= ro.take(i as int));
        assert(ro.take(i + 1).last() == o@);
        let mut targets: Vec<&SemanticEntity> = Vec::new();
        let mut j: usize = 0;
        while j < n_new
            invariant
                n_new == remaining_new@.len(),
                rn == vec_view(remaining_new@),
                0 <= j <= n_new,
                vec_view(targets@) == split_targets(o@, rn.take(j as int)),
            decreases n_new - j,
        {
            let c = remaining_new[j];
            assert(rn.take(j + 1).drop_last() =~= rn.take(j as int));
            assert(rn.take(j + 1).last() == c@);
            if split_merge_candidate_exec(o, c) {
                let ghost prev = targets@;
                targets.push(c);
                assert(vec_view(targets@) =~= vec_view(prev).push(c@));
            }
            j = j + 1;
        }
        assert(rn.take(n_new as int) =~= rn);
        if targets.len() > 1 {
            proof {
                reveal_strlit("` may have been split into multiple semantic entities.");
            }
            let change = SemanticChange {
                anchor_id: o.id.clone(),
                kinds: vec![SemanticChangeKind::Split],
                previous: Some(o.snapshot()),
                current: None,
                related_entities: snapshots_of(&targets),
                context: None,
                explanation: entity_sentence_exec(
                    o.path.as_str(),
                    "` may have been split into multiple semantic entities.",
                ),
            };
            assert(change@.kinds =~= seq![SemanticChangeKind::Split]);
            assert(change@ == split_change(o@, vec_view(targets@)));
            let ghost prev = changes@;
            changes.push(change);
            anchors.push(o.id.clone());
            proof {
                lemma_single_kind_reported(change@, SemanticChangeKind::Split);
                if well_reported(vec_view(prev)) {
                    lemma_reported_push(vec_view(prev), change@);
                }
                assert(vec_view(changes@) =~= vec_view(prev).push(change@));
                assert(crate::model::str_seq(anchors@) =~= split_ids(ro.take(i + 1), rn));
            }
        }
        i = i + 1;
    }
    assert(ro.take(n_old as int) =~= ro);
    anchors
}

/// Appends the merge reports to `changes` and returns the merged ids.
fn push_merges(
    remaining_old: &Vec<&SemanticEntity>,
    remaining_new: &Vec<&SemanticEntity>,
    changes: &mut Vec<SemanticChange>,
) -> (r: Vec<String>)
    ensures
        vec_view(final(changes)@) == vec_view(old(changes)@) + merge_changes(
            vec_view(remaining_old@),
            vec_view(remaining_new@),
        ),
        crate::model::str_seq(r@) == merge_ids(vec_view(remaining_old@), vec_view(remaining_new@)),
        well_reported(vec_view(old(changes)@)) ==> well_reported(vec_view(final(changes)@)),
{
    let ghost ro = vec_view(remaining_old@);
    let ghost rn = vec_view(remaining_new@);
    let ghost start = vec_view(changes@);
    let mut anchors: Vec<String> = Vec::new();
    let n_old = remaining_old.len();
    let n_new = remaining_new.len();
    let mut i: usize = 0;
    while i < n_new
        invariant
            n_old == remaining_old@.len(),
            n_new == remaining_new@.len(),
            ro == vec_view(remaining_old@),
            rn == vec_view(remaining_new@),
            0 <= i <= n_new,
            vec_view(changes@) == start + merge_changes(ro, rn.take(i as int)),
            well_reported(start) ==> well_reported(vec_view(changes@)),
            crate::model::str_seq(anchors@) == merge_ids(ro, rn.take(i as int)),
        decreases n_new - i,
    {
        let n = remaining_new[i];
        assert(rn.take(i + 1).drop_last() =~= rn.take(i as int));
        assert(rn.take(i + 1).last() == n@);
        let mut sources: Vec<&SemanticEntity> = Vec::new();
        let mut j: usize = 0;
        while j < n_old
            invariant
                n_old == remaining_old@.len(),
                ro == vec_view(remaining_old@),
                0 <= j <= n_old,
                vec_view(sources@) == merge_sources(n@, ro.take(j as int)),
            decreases n_old - j,
        {
            let c = remaining_old[j];
            assert(ro.take(j + 1).drop_last() =~= ro.take(j as int));
            assert(ro.take(j + 1).last() == c@);
            if split_merge_candidate_exec(c, n) {
                let ghost prev = sources@;
                sources.push(c);
                assert(vec_view(sources@) =~= vec_view(prev).push(c@));
            }
            j = j + 1;
        }
        assert(ro.take(n_old as int) =~= ro);
        if sources.len() > 1 {
            proof {
                reveal_strlit("` may be the result of a semantic merge of multiple entities.");
            }
            let change = SemanticChange {
                anchor_id: n.id.clone(),
                kinds: vec![SemanticChangeKind::Merged],
                previous: None,
                current: Some(n.snapshot()),
                related_entities: snapshots_of(&sources),
                context: None,
                explanation: entity_sentence_exec(
                    n.path.as_str(),
                    "` may be the result of a semantic merge of multiple entities.",
                ),
            };
            assert(change@.kinds =~= seq![SemanticChangeKind::Merged]);
            assert(change@ == merge_change(n@, vec_view(sources@)));
            let ghost prev = changes@;
            changes.push(change);
            anchors.push(n.id.clone());
            proof {
                lemma_single_kind_reported(change@, SemanticChangeKind::Merged);
                if well_reported(vec_view(prev)) {
                    lemma_reported_push(vec_view(prev), change@);
                }
                assert(vec_view(changes@) =~= vec_view(prev).push(change@));
                assert(crate::model::str_seq(anchors@) =~= merge_ids(ro, rn.take(i + 1)));
            }
        }
        i = i + 1;
    }
    assert(rn.take(n_new as int) =~= rn);
    anchors
}

/// Appends the deletion reports for the remaining old entities not in `split`.
fn push_deletions(
    remaining_old: &Vec<&SemanticEntity>,
    split: &Vec<String>,
    changes: &mut Vec<SemanticChange>,
)
    ensures
        vec_view(final(changes)@) == vec_view(old(changes)@) + deleted_changes(
            vec_view(remaining_old@),
            crate::model::str_seq(split@),
        ),
        well_reported(vec_view(old(changes)@)) ==> well_reported(vec_view(final(changes)@)),
{
    let ghost ro = vec_view(remaining_old@);
    let ghost start = vec_view(changes@);
    let n = remaining_old.len();
    let mut i: usize = 0;
    while i < n
        invariant
            n == remaining_old@.len(),
            ro == vec_view(remaining_old@),
            0 <= i <= n,
            vec_view(changes@) == start + deleted_changes(
                ro.take(i as int),
                crate::model::str_seq(split@),
            ),
            well_reported(start) ==> well_reported(vec_view(changes@)),
        decreases n - i,
    {
        let o = remaining_old[i];
        assert(ro.take(i + 1).drop_last() =~= ro.take(i as int));
        assert(ro.take(i + 1).last() == o@);
        if !ids_contain(split, o.id.as_str()) {
            proof {
                reveal_strlit("` was deleted.");
            }
            let change = SemanticChange {
                anchor_id: o.id.clone(),
                kinds: vec![SemanticChangeKind::Deleted],
                previous: Some(o.snapshot()),
                current: None,
                related_entities: Vec::new(),
                context: build_context(as_opt_ref(&o.snippet), None),
                explanation: entity_sentence_exec(o.path.as_str(), "` was deleted."),
            };
            assert(change@.kinds =~= seq![SemanticChangeKind::Deleted]);
            assert(change@.related_entities =~= seq![]);
            assert(change@ == deleted_change(o@));
            let ghost prev = changes@;
            changes.push(change);
            assert(vec_view(changes@) =~= vec_view(prev).push(change@));
            proof {
                lemma_single_kind_reported(change@, SemanticChangeKind::Deleted);
                if well_reported(vec_view(prev)) {
                    lemma_reported_push(vec_view(prev), change@);
                }
            }
        }
        i = i + 1;
    }
    assert(ro.take(n as int) =~= ro);
}

/// Appends the insertion reports for the remaining new entities not in `merged`.
fn push_insertions(
    remaining_new: &Vec<&SemanticEntity>,
    merged: &Vec<String>,
    changes: &mut Vec<SemanticChange>,
)
    ensures
        vec_view(final(changes)@) == vec_view(old(changes)@) + inserted_changes(
            vec_view(remaining_new@),
            crate::model::str_seq(merged@),
        ),
        well_reported(vec_view(old(changes)@)) ==> well_reported(vec_view(final(changes)@)),
{
    let ghost rn = vec_view(remaining_new@);
    let ghost start = vec_view(changes@);
    let n = remaining_new.len();
    let mut i: usize = 0;
    while i < n
        invariant
            n == remaining_new@.len(),
            rn == vec_view(remaining_new@),
            0 <= i <= n,
            vec_view(changes@) == start + inserted_changes(
                rn.take(i as int),
                crate::model::str_seq(merged@),
            ),
            well_reported(start) ==> well_reported(vec_view(changes@)),
        decreases n - i,
    {
        let e = remaining_new[i];
        assert(rn.take(i + 1).drop_last() =~= rn.take(i as int));
        assert(rn.take(i + 1).last() == e@);
        if !ids_contain(merged, e.id.as_str()) {
            proof {
                reveal_strlit("` was inserted.");
            }
            let change = SemanticChange {
                anchor_id: e.id.clone(),
                kinds: vec![SemanticChangeKind::Inserted],
                previous: None,
                current: Some(e.snapshot()),
                related_entities: Vec::new(),
                context: build_context(None, as_opt_ref(&e.snippet)),
                explanation: entity_sentence_exec(e.path.as_str(), "` was inserted."),
            };
            assert(change@.kinds =~= seq![SemanticChangeKind::Inserted]);
            assert(change@.related_entities =~= seq![]);
            assert(change@ == inserted_change(e@));
            let ghost prev = changes@;
            changes.push(change);
            assert(vec_view(changes@) =~= vec_view(prev).push(change@));
            proof {
                lemma_single_kind_reported(change@, SemanticChangeKind::Inserted);
                if well_reported(vec_view(prev)) {
                    lemma_reported_push(vec_view(prev), change@);
                }
            }
        }
        i = i + 1;
    }
    assert(rn.take(n as int) =~= rn);
}


// ---------------------------------------------------------------------------------------------
// Counting kinds
// ---------------------------------------------------------------------------------------------

/// How often `k` occurs in `kinds`.
pub open spec fn kind_count(kinds: Seq<SemanticChangeKind>, k: SemanticChangeKind) -> nat
    decreases kinds.len(),
{
    if kinds.len() == 0 {
        0
    } else {
        kind_count(kinds.drop_last(), k) + if kinds.last() == k {
            1nat
        } else {
            0nat
        }
    }
}

/// How often `k` occurs over the kinds of all `changes`.
pub open spec fn occurrences(changes: Seq<ChangeView>, k: SemanticChangeKind) -> nat
    decreases changes.len(),
{
    if changes.len() == 0 {
        0
    } else {
        occurrences(changes.drop_last(), k) + kind_count(changes.last().kinds, k)
    }
}

/// A change lists each kind at most once, and carries its new snapshot when it reports a
/// rename.
pub open spec fn change_well_reported(c: ChangeView) -> bool {
    &&& forall|k: SemanticChangeKind| #[trigger] kind_count(c.kinds, k) <= 1
    &&& c.kinds.contains(SemanticChangeKind::Renamed) ==> c.current is Some
}

pub open spec fn well_reported(changes: Seq<ChangeView>) -> bool {
    forall|i: int| 0 <= i < changes.len() ==> #[trigger] change_well_reported(changes[i])
}

pub(crate) proof fn lemma_kind_count_push(s: Seq<SemanticChangeKind>, x: SemanticChangeKind, k: SemanticChangeKind)
    ensures
        kind_count(s.push(x), k) == kind_count(s, k) + if x == k {
            1nat
        } else {
            0nat
        },
{
    assert(s.push(x).drop_last() =~= s);
}

proof fn lemma_single_kind_reported(c: ChangeView, x: SemanticChangeKind)
    requires
        c.kinds == seq![x],
        x != SemanticChangeKind::Renamed,
    ensures
        change_well_reported(c),
{
    assert forall|k: SemanticChangeKind| #[trigger] kind_count(seq![x], k) <= 1 by {
        lemma_kind_count_push(seq![], x, k);
        assert(seq![].push(x) =~= seq![x]);
    }
    assert(!c.kinds.contains(SemanticChangeKind::Renamed)) by {
        if c.kinds.contains(SemanticChangeKind::Renamed) {
            let i = choose|i: int| 0 <= i < c.kinds.len() && c.kinds[i] == SemanticChangeKind::Renamed;
            assert(c.kinds[i] == x);
        }
    }
}

proof fn lemma_reported_push(cs: Seq<ChangeView>, c: ChangeView)
    requires
        well_reported(cs),
        change_well_reported(c),
    ensures
        well_reported(cs.push(c)),
{
    assert forall|i: int| 0 <= i < cs.push(c).len() implies #[trigger] change_well_reported(
        cs.push(c)[i],
    ) by {
        if i < cs.len() {
            assert(cs.push(c)[i] == cs[i]);
        }
    }
}

pub open spec fn no_dup(s: Seq<SemanticChangeKind>) -> bool {
    forall|i: int, j: int| 0 <= i < j < s.len() ==> s[i] != s[j]
}

pub(crate) proof fn lemma_kind_count_absent(s: Seq<SemanticChangeKind>, k: SemanticChangeKind)
    requires
        !s.contains(k),
    ensures
        kind_count(s, k) == 0,
    decreases s.len(),
{
    if s.len() > 0 {
        let d = s.drop_last();
        assert(!d.contains(k)) by {
            if d.contains(k) {
                let i = choose|i: int| 0 <= i < d.len() && d[i] == k;
                assert(s[i] == k);
            }
        }
        lemma_kind_count_absent(d, k);
        assert(s[s.len() - 1] != k);
    }
}

proof fn lemma_no_dup_once(s: Seq<SemanticChangeKind>, k: SemanticChangeKind)
    requires
        no_dup(s),
    ensures
        kind_count(s, k) <= 1,
    decreases s.len(),
{
    if s.len() > 0 {
        let d = s.drop_last();
        assert(no_dup(d)) by {
            assert forall|i: int, j: int| 0 <= i < j < d.len() implies d[i] != d[j] by {
                assert(d[i] == s[i] && d[j] == s[j]);
            }
        }
        lemma_no_dup_once(d, k);
        if s.last() == k {
            assert(!d.contains(k)) by {
                if d.contains(k) {
                    let i = choose|i: int| 0 <= i < d.len() && d[i] == k;
                    assert(s[i] == s[s.len() - 1]);
                }
            }
            lemma_kind_count_absent(d, k);
        }
    }
}

proof fn lemma_classified_once(o: EntityView, n: EntityView, renamed: bool)
    ensures
        change_well_reported(classified(o, n, renamed)),
{
    let ks = classified(o, n, renamed).kinds;
    assert(no_dup(ks));
    assert forall|k: SemanticChangeKind| #[trigger] kind_count(ks, k) <= 1 by {
        lemma_no_dup_once(ks, k);
    }
}

proof fn lemma_kind_count_prefix(s: Seq<SemanticChangeKind>, j: int, k: SemanticChangeKind)
    requires
        0 <= j <= s.len(),
    ensures
        kind_count(s.take(j), k) <= kind_count(s, k),
    decreases s.len() - j,
{
    if j < s.len() {
        lemma_kind_count_prefix(s, j + 1, k);
        assert(s.take(j + 1).drop_last() =~= s.take(j));
    } else {
        assert(s.take(j) =~= s);
    }
}

proof fn lemma_occurrences_bound(cs: Seq<ChangeView>, k: SemanticChangeKind)
    requires
        well_reported(cs),
    ensures
        occurrences(cs, k) <= cs.len(),
    decreases cs.len(),
{
    if cs.len() > 0 {
        let d = cs.drop_last();
        assert forall|i: int| 0 <= i < d.len() implies #[trigger] change_well_reported(d[i]) by {
            assert(d[i] == cs[i]);
        }
        lemma_occurrences_bound(d, k);
        assert(change_well_reported(cs[cs.len() - 1]));
        assert(kind_count(cs[cs.len() - 1].kinds, k) <= 1);
    }
}

/// Counts the kinds of `changes` into a summary.
fn summarize(changes: &Vec<SemanticChange>) -> (r: DiffSummary)
    requires
        well_reported(vec_view(changes@)),
    ensures
        forall|k: SemanticChangeKind| #[trigger] r.count(k) == occurrences(vec_view(changes@), k),
{
    let ghost cs = vec_view(changes@);
    let mut summary = DiffSummary::zero();
    let n = changes.len();
    let mut i: usize = 0;
    while i < n
        invariant
            n == changes@.len(),
            cs == vec_view(changes@),
            well_reported(cs),
            0 <= i <= n,
            forall|k: SemanticChangeKind| #[trigger] summary.count(k) == occurrences(cs.take(i as int), k),
            forall|k: SemanticChangeKind| occurrences(cs.take(i as int), k) <= i,
        decreases n - i,
    {
        let kinds = &changes[i].kinds;
        let ghost base = summary;
        assert(cs[i as int].kinds == kinds@);
        assert(change_well_reported(cs[i as int]));
        let m = kinds.len();
        let mut j: usize = 0;
        while j < m
            invariant
                n == changes@.len(),
                cs == vec_view(changes@),
                well_reported(cs),
                0 <= i < n,
                m == kinds@.len(),
                cs[i as int].kinds == kinds@,
                change_well_reported(cs[i as int]),
                0 <= j <= m,
                forall|k: SemanticChangeKind| #[trigger] summary.count(k) == occurrences(
                    cs.take(i as int),
                    k,
                ) + kind_count(kinds@.take(j as int), k),
                forall|k: SemanticChangeKind| occurrences(cs.take(i as int), k) <= i,
            decreases m - j,
        {
            let k = kinds[j];
            proof {
                assert(kinds@.take(j + 1).drop_last() =~= kinds@.take(j as int));
                lemma_kind_count_prefix(kinds@, j + 1, k);
                assert(kind_count(kinds@, k) <= 1);
                assert(kind_count(kinds@.take(j as int), k) == 0);
            }
            summary.record(&k);
            j = j + 1;
        }
        proof {
            assert(kinds@.take(m as int) =~= kinds@);
            assert(cs.take(i + 1).drop_last() =~= cs.take(i as int));
            let t = cs.take(i + 1);
            assert forall|i2: int| 0 <= i2 < t.len() implies #[trigger] change_well_reported(t[i2]) by {
                assert(t[i2] == cs[i2]);
            }
            assert forall|k: SemanticChangeKind| occurrences(t, k) <= i + 1 by {
                lemma_occurrences_bound(t, k);
            }
        }
        i = i + 1;
    }
    assert(cs.take(n as int) =~= cs);
    summary
}


// ---------------------------------------------------------------------------------------------
// The diff
// ---------------------------------------------------------------------------------------------

/// Changes sort by anchor id.
impl SortKeyed for SemanticChange {
    open spec fn goes_first(a: ChangeView, b: ChangeView) -> bool {
        chars_lt(a.anchor_id, b.anchor_id)
    }

    fn goes_first_exec(a: &Self, b: &Self) -> (r: bool) {
        str_lt(a.anchor_id.as_str(), b.anchor_id.as_str())
    }
}

/// The old entities left after id matching, name matching and rename matching, and the new
/// ones, with the match states of the two similarity phases.
pub open spec fn name_phase(old: Seq<EntityView>, new: Seq<EntityView>) -> MatchState {
    same_name_matches(absent_from(old, new), absent_from(new, old))
}

pub open spec fn rename_phase(old: Seq<EntityView>, new: Seq<EntityView>) -> MatchState {
    let s2 = name_phase(old, new);
    rename_matches(
        excluding(absent_from(old, new), s2.used_old),
        excluding(absent_from(new, old), s2.used_new),
    )
}

pub open spec fn remaining_old(old: Seq<EntityView>, new: Seq<EntityView>) -> Seq<EntityView> {
    excluding(
        excluding(absent_from(old, new), name_phase(old, new).used_old),
        rename_phase(old, new).used_old,
    )
}

pub open spec fn remaining_new(old: Seq<EntityView>, new: Seq<EntityView>) -> Seq<EntityView> {
    excluding(
        excluding(absent_from(new, old), name_phase(old, new).used_new),
        rename_phase(old, new).used_new,
    )
}

/// Every change of the diff before sorting: id matches, name matches, renames, splits,
/// merges, deletions and insertions, each group in the order it is found.
pub open spec fn raw_changes(old: Seq<EntityView>, new: Seq<EntityView>) -> Seq<ChangeView> {
    let ro = remaining_old(old, new);
    let rn = remaining_new(old, new);
    id_changes(old, new) + pair_changes(name_phase(old, new).pairs, false) + pair_changes(
        rename_phase(old, new).pairs,
        true,
    ) + split_changes(ro, rn) + merge_changes(ro, rn) + deleted_changes(ro, split_ids(ro, rn))
        + inserted_changes(rn, merge_ids(ro, rn))
}

pub(crate) proof fn lemma_occurrences_push(cs: Seq<ChangeView>, c: ChangeView, k: SemanticChangeKind)
    ensures
        occurrences(cs.push(c), k) == occurrences(cs, k) + kind_count(c.kinds, k),
{
    assert(cs.push(c).drop_last() =~= cs);
}

proof fn lemma_occurrences_insert(s: Seq<ChangeView>, x: ChangeView, k: SemanticChangeKind)
    ensures
        occurrences(crate::sort::insert_stable::<SemanticChange>(s, x), k) == occurrences(s, k)
            + kind_count(x.kinds, k),
    decreases s.len(),
{
    if s.len() == 0 {
        lemma_occurrences_push(s, x, k);
        assert(s.push(x) =~= seq![x]);
    } else if <SemanticChange as SortKeyed>::goes_first(x, s.last()) {
        lemma_occurrences_insert(s.drop_last(), x, k);
        lemma_occurrences_push(
            crate::sort::insert_stable::<SemanticChange>(s.drop_last(), x),
            s.last(),
            k,
        );
        lemma_occurrences_push(s.drop_last(), s.last(), k);
        assert(s.drop_last().push(s.last()) =~= s);
    } else {
        lemma_occurrences_push(s, x, k);
    }
}

/// Sorting changes keeps how often each kind occurs.
pub proof fn sorting_keeps_kind_occurrences(s: Seq<ChangeView>, k: SemanticChangeKind)
    ensures
        occurrences(sort_stable::<SemanticChange>(s), k) == occurrences(s, k),
    decreases s.len(),
{
    if s.len() > 0 {
        sorting_keeps_kind_occurrences(s.drop_last(), k);
        lemma_occurrences_insert(sort_stable::<SemanticChange>(s.drop_last()), s.last(), k);
    }
}

/// Appends the changes of matched pairs.
fn push_pair_changes(
    pairs: &Vec<(&SemanticEntity, &SemanticEntity)>,
    renamed: bool,
    changes: &mut Vec<SemanticChange>,
)
    ensures
        vec_view(final(changes)@) == vec_view(old(changes)@) + pair_changes(pair_views(pairs@), renamed),
        well_reported(vec_view(old(changes)@)) ==> well_reported(vec_view(final(changes)@)),
{
    let ghost pv = pair_views(pairs@);
    let ghost start = vec_view(changes@);
    let n = pairs.len();
    let mut i: usize = 0;
    while i < n
        invariant
            n == pairs@.len(),
            pv == pair_views(pairs@),
            0 <= i <= n,
            vec_view(changes@) == start + pair_changes(pv.take(i as int), renamed),
            well_reported(start) ==> well_reported(vec_view(changes@)),
        decreases n - i,
    {
        let (o, e) = pairs[i];
        assert(pv.take(i + 1).drop_last() =~= pv.take(i as int));
        assert(pv.take(i + 1).last() == (o@, e@));
        let change = classify_matched_entities(o, e, renamed);
        let ghost prev = changes@;
        changes.push(change);
        proof {
            assert(vec_view(changes@) =~= vec_view(prev).push(change@));
            lemma_classified_once(o@, e@, renamed);
            if well_reported(vec_view(prev)) {
                lemma_reported_push(vec_view(prev), change@);
            }
        }
        i = i + 1;
    }
    assert(pv.take(n as int) =~= pv);
}

/// Whether no two entities of `es` share an id.
pub open spec fn unique_ids(es: Seq<EntityView>) -> bool {
    forall|i: int, j: int| 0 <= i < j < es.len() ==> (#[trigger] es[i]).id != (#[trigger] es[j]).id
}

pub(crate) proof fn lemma_absent_from_none(es: Seq<EntityView>, others: Seq<EntityView>)
    requires
        forall|i: int| 0 <= i < es.len() ==> has_id(others, (#[trigger] es[i]).id),
    ensures
        absent_from(es, others) == Seq::<EntityView>::empty(),
    decreases es.len(),
{
    if es.len() > 0 {
        assert(has_id(others, es[es.len() - 1].id));
        lemma_absent_from_none(es.drop_last(), others);
    }
}

pub(crate) proof fn lemma_last_index_unique(es: Seq<EntityView>, k: int)
    requires
        unique_ids(es),
        0 <= k < es.len(),
    ensures
        last_index_with_id(es, es[k].id) == k,
    decreases es.len(),
{
    if k < es.len() - 1 {
        assert(es[k].id != es[es.len() - 1].id);
        let d = es.drop_last();
        assert(unique_ids(d)) by {
            assert forall|i: int, j: int| 0 <= i < j < d.len() implies (#[trigger] d[i]).id != (
            #[trigger] d[j]).id by {
                assert(d[i] == es[i] && d[j] == es[j]);
            }
        }
        assert(d[k] == es[k]);
        lemma_last_index_unique(d, k);
    }
}

pub(crate) proof fn lemma_last_index_unique_all(es: Seq<EntityView>)
    requires
        unique_ids(es),
    ensures
        forall|k: int| 0 <= k < es.len() ==> #[trigger] last_index_with_id(es, es[k].id) == k,
{
    assert forall|k: int| 0 <= k < es.len() implies #[trigger] last_index_with_id(es, es[k].id) == k by {
        lemma_last_index_unique(es, k);
    }
}

proof fn lemma_id_changes_of_itself(es: Seq<EntityView>, n: int)
    requires
        unique_ids(es),
        0 <= n <= es.len(),
    ensures
        id_changes(es.take(n), es).len() == n,
        forall|i: int|
            0 <= i < n ==> (#[trigger] id_changes(es.take(n), es)[i]).kinds == seq![
                SemanticChangeKind::Unchanged,
            ],
        forall|i: int|
            0 <= i < n ==> #[trigger] id_changes(es.take(n), es)[i] == classified(es[i], es[i], false),
    decreases n,
{
    if n > 0 {
        let t = es.take(n);
        assert(t.drop_last() =~= es.take(n - 1));
        assert(t.last() == es[n - 1]);
        lemma_id_changes_of_itself(es, n - 1);
        lemma_last_index_unique(es, n - 1);
        assert(has_id(es, es[n - 1].id));
        let c = classified(es[n - 1], es[n - 1], false);
        assert(change_kinds(es[n - 1], es[n - 1], false) =~= seq![SemanticChangeKind::Unchanged]);
        assert(id_changes(t, es) == id_changes(es.take(n - 1), es).push(c));
        assert(es[last_index_with_id(es, es[n - 1].id)] == es[n - 1]);
    }
}

proof fn lemma_unchanged_occurrences(cs: Seq<ChangeView>, k: SemanticChangeKind)
    requires
        forall|i: int| 0 <= i < cs.len() ==> (#[trigger] cs[i]).kinds == seq![
            SemanticChangeKind::Unchanged,
        ],
    ensures
        occurrences(cs, k) == if k == SemanticChangeKind::Unchanged {
            cs.len()
        } else {
            0
        },
    decreases cs.len(),
{
    if cs.len() > 0 {
        let d = cs.drop_last();
        assert forall|i: int| 0 <= i < d.len() implies (#[trigger] d[i]).kinds == seq![
            SemanticChangeKind::Unchanged,
        ] by {
            assert(d[i] == cs[i]);
        }
        lemma_unchanged_occurrences(d, k);
        let last = cs.last().kinds;
        assert(last == cs[cs.len() - 1].kinds);
        assert(last.drop_last() =~= Seq::<SemanticChangeKind>::empty());
        assert(kind_count(last.drop_last(), k) == 0);
        assert(last.last() == SemanticChangeKind::Unchanged);
        assert(kind_count(last, k) == if k == SemanticChangeKind::Unchanged {
            1nat
        } else {
            0nat
        });
    }
}

/// The kinds that only the phases after matching by id report.
pub open spec fn unmatched_kind(k: SemanticChangeKind) -> bool {
    ||| k == SemanticChangeKind::Renamed
    ||| k == SemanticChangeKind::Inserted
    ||| k == SemanticChangeKind::Deleted
    ||| k == SemanticChangeKind::Split
    ||| k == SemanticChangeKind::Merged
}

proof fn lemma_matched_kinds(o: EntityView, n: EntityView, k: SemanticChangeKind)
    requires
        unmatched_kind(k),
    ensures
        kind_count(change_kinds(o, n, false), k) == 0,
{
    let k1 = Seq::<SemanticChangeKind>::empty();
    assert(kind_count(k1, k) == 0);
    let k2 = if o.span.start != n.span.start {
        k1.push(SemanticChangeKind::Moved)
    } else {
        k1
    };
    lemma_kind_count_push(k1, SemanticChangeKind::Moved, k);
    let k3 = if o.signature_hash != n.signature_hash {
        k2.push(SemanticChangeKind::SignatureChanged)
    } else {
        k2
    };
    lemma_kind_count_push(k2, SemanticChangeKind::SignatureChanged, k);
    let k4 = if o.body_hash != n.body_hash {
        k3.push(SemanticChangeKind::ImplementationChanged)
    } else {
        k3
    };
    lemma_kind_count_push(k3, SemanticChangeKind::ImplementationChanged, k);
    lemma_kind_count_push(k1, SemanticChangeKind::Unchanged, k);
    assert(seq![SemanticChangeKind::Unchanged] =~= k1.push(SemanticChangeKind::Unchanged));
    assert(change_kinds(o, n, false) == if k4.len() == 0 {
        seq![SemanticChangeKind::Unchanged]
    } else {
        k4
    });
}

pub(crate) proof fn lemma_id_changes_matched_kinds(old: Seq<EntityView>, new: Seq<EntityView>, k: SemanticChangeKind)
    requires
        unmatched_kind(k),
    ensures
        occurrences(id_changes(old, new), k) == 0,
    decreases old.len(),
{
    if old.len() > 0 {
        lemma_id_changes_matched_kinds(old.drop_last(), new, k);
        let o = old.last();
        if has_id(new, o.id) {
            let c = classified(o, new[last_index_with_id(new, o.id)], false);
            lemma_matched_kinds(o, new[last_index_with_id(new, o.id)], k);
            let prev = id_changes(old.drop_last(), new);
            assert(prev.push(c).drop_last() =~= prev);
        }
    }
}

proof fn lemma_id_changes_all(old: Seq<EntityView>, new: Seq<EntityView>, n: int)
    requires
        forall|i: int| 0 <= i < old.len() ==> has_id(new, (#[trigger] old[i]).id),
        0 <= n <= old.len(),
    ensures
        id_changes(old.take(n), new).len() == n,
        forall|i: int|
            0 <= i < n ==> #[trigger] id_changes(old.take(n), new)[i] == classified(
                old[i],
                new[last_index_with_id(new, old[i].id)],
                false,
            ),
    decreases n,
{
    if n > 0 {
        let t = old.take(n);
        assert(t.drop_last() =~= old.take(n - 1));
        assert(t.last() == old[n - 1]);
        lemma_id_changes_all(old, new, n - 1);
        assert(has_id(new, old[n - 1].id));
    }
}

/// A kind that occurs in a list occurs a positive number of times.
pub proof fn lemma_kind_count_present(s: Seq<SemanticChangeKind>, k: SemanticChangeKind)
    requires
        s.contains(k),
    ensures
        kind_count(s, k) > 0,
    decreases s.len(),
{
    let d = s.drop_last();
    if s.last() != k {
        let i = choose|i: int| 0 <= i < s.len() && s[i] == k;
        assert(d[i] == k);
        lemma_kind_count_present(d, k);
    }
}

/// Two entities matched by id are never reported as renamed, inserted, deleted, split or
/// merged.
pub proof fn matched_by_id_has_no_unmatched_kind(o: EntityView, n: EntityView, k: SemanticChangeKind)
    requires
        unmatched_kind(k),
    ensures
        !classified(o, n, false).kinds.contains(k),
{
    lemma_matched_kinds(o, n, k);
    if classified(o, n, false).kinds.contains(k) {
        lemma_kind_count_present(classified(o, n, false).kinds, k);
    }
}

/// When both sides have the same ids, every entity is matched by id: the diff reports no
/// rename, insertion, deletion, split or merge (a moved entity is only moved), and reports
/// each old entity, in order, against the new entity of its id.
pub proof fn same_ids_match_by_id(old: Seq<EntityView>, new: Seq<EntityView>)
    requires
        forall|i: int| 0 <= i < old.len() ==> has_id(new, (#[trigger] old[i]).id),
        forall|j: int| 0 <= j < new.len() ==> has_id(old, (#[trigger] new[j]).id),
    ensures
        raw_changes(old, new) == id_changes(old, new),
        raw_changes(old, new).len() == old.len(),
        forall|i: int|
            0 <= i < old.len() ==> #[trigger] raw_changes(old, new)[i] == classified(
                old[i],
                new[last_index_with_id(new, old[i].id)],
                false,
            ),
        forall|k: SemanticChangeKind|
            unmatched_kind(k) ==> #[trigger] occurrences(
                sort_stable::<SemanticChange>(raw_changes(old, new)),
                k,
            ) == 0,
{
    lemma_absent_from_none(old, new);
    lemma_absent_from_none(new, old);
    let empty = Seq::<EntityView>::empty();
    assert(name_phase(old, new) == no_matches());
    assert(rename_candidates(empty, empty) =~= Seq::<(u64, EntityView, EntityView)>::empty());
    assert(sort_stable::<RenameCandidate>(Seq::<(u64, EntityView, EntityView)>::empty())
        =~= Seq::<(u64, EntityView, EntityView)>::empty());
    assert(rename_phase(old, new) == no_matches());
    assert(remaining_old(old, new) == empty);
    assert(remaining_new(old, new) == empty);
    assert(pair_changes(no_matches().pairs, false) =~= Seq::<ChangeView>::empty());
    assert(pair_changes(no_matches().pairs, true) =~= Seq::<ChangeView>::empty());
    assert(raw_changes(old, new) =~= id_changes(old, new));
    lemma_id_changes_all(old, new, old.len() as int);
    assert(old.take(old.len() as int) =~= old);
    assert forall|k: SemanticChangeKind| unmatched_kind(k) implies #[trigger] occurrences(
        sort_stable::<SemanticChange>(raw_changes(old, new)),
        k,
    ) == 0 by {
        sorting_keeps_kind_occurrences(raw_changes(old, new), k);
        lemma_id_changes_matched_kinds(old, new, k);
    }
}

/// Diffing entities with distinct ids against themselves reports each of them once, as
/// unchanged, and nothing else: the summary counts every entity as unchanged.
pub proof fn diffing_against_itself_changes_nothing(es: Seq<EntityView>)
    requires
        unique_ids(es),
    ensures
        raw_changes(es, es).len() == es.len(),
        forall|i: int|
            0 <= i < es.len() ==> (#[trigger] raw_changes(es, es)[i]).kinds == seq![
                SemanticChangeKind::Unchanged,
            ],
        forall|i: int|
            0 <= i < es.len() ==> #[trigger] raw_changes(es, es)[i] == classified(es[i], es[i], false),
        forall|k: SemanticChangeKind|
            #[trigger] occurrences(sort_stable::<SemanticChange>(raw_changes(es, es)), k) == if k
                == SemanticChangeKind::Unchanged {
                es.len()
            } else {
                0
            },
{
    assert forall|i: int| 0 <= i < es.len() implies has_id(es, (#[trigger] es[i]).id) by {
        assert(es[i].id == es[i].id);
    }
    lemma_absent_from_none(es, es);
    lemma_id_changes_of_itself(es, es.len() as int);
    assert(es.take(es.len() as int) =~= es);
    let empty = Seq::<EntityView>::empty();
    assert(name_phase(es, es) == no_matches());
    assert(rename_candidates(empty, empty) =~= Seq::<(u64, EntityView, EntityView)>::empty());
    assert(sort_stable::<RenameCandidate>(Seq::<(u64, EntityView, EntityView)>::empty())
        =~= Seq::<(u64, EntityView, EntityView)>::empty());
    assert(rename_phase(es, es) == no_matches());
    assert(remaining_old(es, es) == empty);
    assert(remaining_new(es, es) == empty);
    assert(pair_changes(no_matches().pairs, false) =~= Seq::<ChangeView>::empty());
    assert(pair_changes(no_matches().pairs, true) =~= Seq::<ChangeView>::empty());
    let ic = id_changes(es, es);
    assert(raw_changes(es, es) =~= ic);
    assert forall|k: SemanticChangeKind|
        #[trigger] occurrences(sort_stable::<SemanticChange>(raw_changes(es, es)), k) == if k
            == SemanticChangeKind::Unchanged {
            es.len()
        } else {
            0
        } by {
        sorting_keeps_kind_occurrences(raw_changes(es, es), k);
        lemma_unchanged_occurrences(raw_changes(es, es), k);
    }
}

/// The semantic diff of two indices: entities are matched by id, then by kind, name and
/// parent, then as renames; what remains is reported as split, merged, deleted or inserted.
/// Changes are sorted by anchor id, and the summary counts their kinds.
pub fn diff_indices(old_index: &FileSemanticIndex, new_index: &FileSemanticIndex) -> (r: SemanticDiff)
    ensures
        r@.old_path == old_index@.path,
        r@.new_path == new_index@.path,
        r@.matching_strategy == "id, then conservative shape/body similarity"@,
        r@.changes == sort_stable::<SemanticChange>(
            raw_changes(old_index@.entities, new_index@.entities),
        ),
        forall|k: SemanticChangeKind| #[trigger] r.summary.count(k) == occurrences(r@.changes, k),
        well_reported(r@.changes),
{
    let ghost ov = old_index@.entities;
    let ghost nv = new_index@.entities;
    let mut changes: Vec<SemanticChange> = Vec::new();
    let n_old = old_index.entities.len();
    let mut i: usize = 0;
    while i < n_old
        invariant
            n_old == old_index.entities@.len(),
            ov == old_index@.entities,
            nv == new_index@.entities,
            0 <= i <= n_old,
            vec_view(changes@) == id_changes(ov.take(i as int), nv),
            well_reported(vec_view(changes@)),
        decreases n_old - i,
    {
        let o = &old_index.entities[i];
        assert(ov.take(i + 1).drop_last() =~= ov.take(i as int));
        assert(ov.take(i + 1).last() == o@);
        proof {
            lemma_last_index_with_id(nv, o@.id);
        }
        match last_with_id(&new_index.entities, o.id.as_str()) {
            Some(j) => {
                let change = classify_matched_entities(o, &new_index.entities[j], false);
                let ghost prev = changes@;
                changes.push(change);
                proof {
                    assert(vec_view(changes@) =~= vec_view(prev).push(change@));
                    lemma_classified_once(o@, nv[j as int], false);
                    lemma_reported_push(vec_view(prev), change@);
                }
            },
            None => {},
        }
        i = i + 1;
    }
    assert(ov.take(n_old as int) =~= ov);
    let unmatched_old = absent_refs(&old_index.entities, &new_index.entities);
    let unmatched_new = absent_refs(&new_index.entities, &old_index.entities);
    let (name_pairs, name_old, name_new) = detect_same_name_matches(&unmatched_old, &unmatched_new);
    push_pair_changes(&name_pairs, false, &mut changes);
    let unmatched_old = exclude_ids(&unmatched_old, &name_old);
    let unmatched_new = exclude_ids(&unmatched_new, &name_new);
    let (rename_pairs, rename_old, rename_new) = detect_renames(&unmatched_old, &unmatched_new);
    push_pair_changes(&rename_pairs, true, &mut changes);
    let rest_old = exclude_ids(&unmatched_old, &rename_old);
    let rest_new = exclude_ids(&unmatched_new, &rename_new);
    let split = push_splits(&rest_old, &rest_new, &mut changes);
    let merged = push_merges(&rest_old, &rest_new, &mut changes);
    push_deletions(&rest_old, &split, &mut changes);
    push_insertions(&rest_new, &merged, &mut changes);
    let ghost raw = vec_view(changes@);
    assert(raw =~= raw_changes(ov, nv));
    let summary = summarize(&changes);
    let sorted = stable_sort(changes);
    proof {
        assert forall|k: SemanticChangeKind| #[trigger] summary.count(k) == occurrences(
            vec_view(sorted@),
            k,
        ) by {
            sorting_keeps_kind_occurrences(raw, k);
        }
        reveal_strlit("id, then conservative shape/body similarity");
        crate::sort::sorting_keeps_members::<SemanticChange>(raw);
        let sv = vec_view(sorted@);
        assert forall|i: int| 0 <= i < sv.len() implies #[trigger] change_well_reported(sv[i]) by {
            let j = choose|j: int| 0 <= j < raw.len() && raw[j] == sv[i];
        }
    }
    SemanticDiff {
        old_path: old_index.path.clone(),
        new_path: new_index.path.clone(),
        matching_strategy: "id, then conservative shape/body similarity".to_owned(),
        summary,
        changes: sorted,
    }
}

} // verus!
