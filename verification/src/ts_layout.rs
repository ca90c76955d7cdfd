use vstd::multiset::Multiset;
use vstd::prelude::*;

use crate::model::{
    opt_str, str_seq, ChangeView, EntityView, SemanticChange, SemanticChangeKind, SemanticEntity,
};
use crate::diff::{
    absent_from, body_similarity, change_kinds, classified, excluding, has_id, id_changes,
    kind_count, last_index_with_id, matched_by_id_has_no_unmatched_kind, name_candidates,
    name_phase, no_matches, occurrences, pair_changes, raw_changes, remaining_new, remaining_old,
    rename_candidates, rename_phase, same_ids_match_by_id, same_name_candidate,
    sorting_keeps_kind_occurrences, unique_ids, with_match, SAME_NAME_THRESHOLD,
};
use crate::sort::{sort_stable, sorting_keeps_mapped_multiset, sorting_loses_nothing};
use crate::text::normalized;
use crate::ts_entity::{entity_path, function_entity};
use crate::ts_index::{
    decl_spec, empty_state, item_spec, items_spec, typescript_index, vars_spec, IndexState,
};
use crate::ts_source::{DeclSource, DeclaratorSource, FunctionSource, ModuleItemSource, VarKind};

verus! {

// ---------------------------------------------------------------------------------------------
// What each item records
// ---------------------------------------------------------------------------------------------

/// The entities that one item records, whatever was recorded before it.
pub open spec fn item_entities(item: ModuleItemSource) -> Seq<EntityView> {
    item_spec(empty_state(), item).entities
}

/// The entities that the items record, item after item.
pub open spec fn module_entities(items: Seq<ModuleItemSource>) -> Seq<EntityView>
    decreases items.len(),
{
    if items.len() == 0 {
        seq![]
    } else {
        module_entities(items.drop_last()) + item_entities(items.last())
    }
}

proof fn lemma_vars_entities(
    st: IndexState,
    kind: VarKind,
    ds: Seq<DeclaratorSource>,
    parent: Option<(Seq<char>, Seq<char>)>,
    is_root: bool,
)
    ensures
        vars_spec(st, kind, ds, parent, is_root).0.entities == st.entities + vars_spec(
            empty_state(),
            kind,
            ds,
            parent,
            is_root,
        ).0.entities,
    decreases ds.len(),
{
    if ds.len() == 0 {
        assert(st.entities + Seq::<EntityView>::empty() =~= st.entities);
    } else {
        lemma_vars_entities(st, kind, ds.drop_last(), parent, is_root);
        lemma_vars_entities(empty_state(), kind, ds.drop_last(), parent, is_root);
        let a = vars_spec(st, kind, ds.drop_last(), parent, is_root).0.entities;
        let b = vars_spec(empty_state(), kind, ds.drop_last(), parent, is_root).0.entities;
        assert(empty_state().entities + b =~= b);
        match ds.last().binding {
            Some(name) => {
                let e = crate::ts_entity::variable_entity(
                    name@,
                    entity_path(parent, name@, false),
                    parent,
                    kind,
                    ds.last(),
                );
                assert(a.push(e) =~= st.entities + b.push(e));
            },
            None => {},
        }
    }
}

proof fn lemma_decl_entities(
    st: IndexState,
    d: DeclSource,
    parent: Option<(Seq<char>, Seq<char>)>,
    is_root: bool,
)
    ensures
        decl_spec(st, d, parent, is_root).0.entities == st.entities + decl_spec(
            empty_state(),
            d,
            parent,
            is_root,
        ).0.entities,
{
    match d {
        DeclSource::Var(v) => lemma_vars_entities(st, v.kind, v.declarators@, parent, is_root),
        DeclSource::Other => {
            assert(st.entities + Seq::<EntityView>::empty() =~= st.entities);
        },
        _ => {
            assert(decl_spec(st, d, parent, is_root).0.entities =~= st.entities + decl_spec(
                empty_state(),
                d,
                parent,
                is_root,
            ).0.entities);
        },
    }
}

proof fn lemma_item_entities(st: IndexState, item: ModuleItemSource)
    ensures
        item_spec(st, item).entities == st.entities + item_entities(item),
{
    match item {
        ModuleItemSource::Decl(d) => lemma_decl_entities(st, d, None, false),
        ModuleItemSource::ExportDecl(d) => lemma_decl_entities(st, d, None, true),
        ModuleItemSource::ExportDefaultFunction { .. } => {
            assert(item_spec(st, item).entities =~= st.entities + item_entities(item));
        },
        ModuleItemSource::ExportDefaultClass { .. } => {
            assert(item_spec(st, item).entities =~= st.entities + item_entities(item));
        },
        ModuleItemSource::ExportDefaultInterface(_) => {
            assert(item_spec(st, item).entities =~= st.entities + item_entities(item));
        },
        ModuleItemSource::ExportDefaultFunctionExpr { .. } => {
            assert(item_spec(st, item).entities =~= st.entities + item_entities(item));
        },
        ModuleItemSource::ExportDefaultClassExpr { .. } => {
            assert(item_spec(st, item).entities =~= st.entities + item_entities(item));
        },
        _ => {
            assert(item_spec(st, item).entities == st.entities);
            assert(item_entities(item) == Seq::<EntityView>::empty());
            assert(st.entities + Seq::<EntityView>::empty() =~= st.entities);
        },
    }
}

/// The items record, after what was recorded before them, the entities of each item in turn.
proof fn lemma_module_entities(st: IndexState, items: Seq<ModuleItemSource>)
    ensures
        items_spec(st, items).entities == st.entities + module_entities(items),
    decreases items.len(),
{
    if items.len() == 0 {
        assert(st.entities + Seq::<EntityView>::empty() =~= st.entities);
    } else {
        let d = items.drop_last();
        let x = items.last();
        let s1 = items_spec(st, d);
        lemma_module_entities(st, d);
        lemma_item_entities(s1, x);
        assert(items_spec(st, items) == item_spec(s1, x));
        let a = st.entities;
        let b = module_entities(d);
        let c = item_entities(x);
        assert(module_entities(items) == b + c);
        assert((a + b) + c =~= a + (b + c));
    }
}

// ---------------------------------------------------------------------------------------------
// Entities by identity and content
// ---------------------------------------------------------------------------------------------

/// What identifies an entity and its content, apart from where it stands: its id, its path and
/// its signature, body and full hashes.
pub struct EntityKey {
    pub id: Seq<char>,
    pub path: Seq<char>,
    pub signature_hash: Seq<char>,
    pub body_hash: Seq<char>,
    pub full_hash: Seq<char>,
}

pub open spec fn entity_key(e: EntityView) -> EntityKey {
    EntityKey {
        id: e.id,
        path: e.path,
        signature_hash: e.signature_hash,
        body_hash: e.body_hash,
        full_hash: e.full_hash,
    }
}

pub open spec fn keys_of(es: Seq<EntityView>) -> Seq<EntityKey> {
    es.map_values(|e: EntityView| entity_key(e))
}

/// A module item without its layout: a function declaration is reduced to whether it is
/// exported, its name, its header and its body with whitespace normalized (where it stands
/// and how its text is spaced are dropped); any other item is kept as it is.
pub enum LayoutFreeItem {
    Function {
        exported: bool,
        name: Seq<char>,
        is_async: bool,
        is_generator: bool,
        type_params: Seq<char>,
        params: Seq<Seq<char>>,
        return_type: Seq<char>,
        body: Option<Seq<char>>,
    },
    Other(ModuleItemSource),
}

pub open spec fn normalized_body(body: Option<Seq<char>>) -> Option<Seq<char>> {
    match body {
        Some(b) => Some(normalized(b)),
        None => None,
    }
}

pub open spec fn function_free(exported: bool, name: Seq<char>, f: FunctionSource) -> LayoutFreeItem {
    LayoutFreeItem::Function {
        exported,
        name,
        is_async: f.is_async,
        is_generator: f.is_generator,
        type_params: f.type_params@,
        params: str_seq(f.params@),
        return_type: f.return_type@,
        body: normalized_body(opt_str(f.body)),
    }
}

pub open spec fn layout_free(item: ModuleItemSource) -> LayoutFreeItem {
    match item {
        ModuleItemSource::Decl(DeclSource::Function { name, function, .. }) => function_free(
            false,
            name@,
            function,
        ),
        ModuleItemSource::ExportDecl(DeclSource::Function { name, function, .. }) => function_free(
            true,
            name@,
            function,
        ),
        _ => LayoutFreeItem::Other(item),
    }
}

pub open spec fn layout_free_items(items: Seq<ModuleItemSource>) -> Seq<LayoutFreeItem> {
    items.map_values(|i: ModuleItemSource| layout_free(i))
}

proof fn lemma_function_keys(
    name: Seq<char>,
    f1: FunctionSource,
    f2: FunctionSource,
    at1: crate::ts_source::SourceSpan,
    at2: crate::ts_source::SourceSpan,
    kind: Seq<char>,
)
    requires
        function_free(false, name, f1) == function_free(false, name, f2),
    ensures
        entity_key(function_entity(name, entity_path(None, name, false), None, f1, at1, kind))
            == entity_key(function_entity(name, entity_path(None, name, false), None, f2, at2, kind)),
{
    assert(crate::ts_render::function_signature(name, f1) == crate::ts_render::function_signature(
        name,
        f2,
    ));
    assert(crate::ts_render::function_signature("__NAME__"@, f1)
        == crate::ts_render::function_signature("__NAME__"@, f2));
    match (opt_str(f1.body), opt_str(f2.body)) {
        (Some(b1), Some(b2)) => {
            assert(normalized(b1) == normalized(b2));
        },
        _ => {},
    }
}

/// Two items that are the same without their layout record entities with the same keys.
proof fn lemma_layout_free_keys(a: ModuleItemSource, b: ModuleItemSource)
    requires
        layout_free(a) == layout_free(b),
    ensures
        keys_of(item_entities(a)) == keys_of(item_entities(b)),
{
    match (a, b) {
        (
            ModuleItemSource::Decl(DeclSource::Function { name: n1, function: f1, at: at1 }),
            ModuleItemSource::Decl(DeclSource::Function { name: n2, function: f2, at: at2 }),
        ) => {
            lemma_function_keys(n1@, f1, f2, at1, at2, "function_decl"@);
            assert(keys_of(item_entities(a)) =~= keys_of(item_entities(b)));
        },
        (
            ModuleItemSource::ExportDecl(DeclSource::Function { name: n1, function: f1, at: at1 }),
            ModuleItemSource::ExportDecl(DeclSource::Function { name: n2, function: f2, at: at2 }),
        ) => {
            lemma_function_keys(n1@, f1, f2, at1, at2, "function_decl"@);
            assert(keys_of(item_entities(a)) =~= keys_of(item_entities(b)));
        },
        _ => {},
    }
}

/// The keys recorded by any item without layout `x`.
pub open spec fn free_keys(x: LayoutFreeItem) -> Seq<EntityKey> {
    keys_of(item_entities(choose|i: ModuleItemSource| layout_free(i) == x))
}

proof fn lemma_free_keys(item: ModuleItemSource)
    ensures
        keys_of(item_entities(item)) == free_keys(layout_free(item)),
{
    let x = layout_free(item);
    let w = choose|i: ModuleItemSource| layout_free(i) == x;
    assert(layout_free(item) == x);
    lemma_layout_free_keys(item, w);
}

/// All the keys recorded by items without layout, as a multiset.
pub open spec fn total_keys(xs: Seq<LayoutFreeItem>) -> Multiset<EntityKey>
    decreases xs.len(),
{
    if xs.len() == 0 {
        Multiset::empty()
    } else {
        total_keys(xs.drop_last()).add(free_keys(xs.last()).to_multiset())
    }
}

proof fn lemma_total_keys_remove(xs: Seq<LayoutFreeItem>, k: int)
    requires
        0 <= k < xs.len(),
    ensures
        total_keys(xs) =~= total_keys(xs.remove(k)).add(free_keys(xs[k]).to_multiset()),
    decreases xs.len(),
{
    broadcast use vstd::multiset::group_multiset_axioms;

    let d = xs.drop_last();
    if k == xs.len() - 1 {
        assert(xs.remove(k) =~= d);
    } else {
        lemma_total_keys_remove(d, k);
        assert(xs.remove(k) =~= d.remove(k).push(xs.last()));
        assert(xs.remove(k).drop_last() =~= d.remove(k));
        assert(d[k] == xs[k]);
    }
}

/// The multiset of keys depends only on the multiset of items without layout.
proof fn lemma_total_keys_permuted(xs: Seq<LayoutFreeItem>, ys: Seq<LayoutFreeItem>)
    requires
        xs.to_multiset() == ys.to_multiset(),
    ensures
        total_keys(xs) == total_keys(ys),
    decreases xs.len(),
{
    broadcast use vstd::seq_lib::group_to_multiset_ensures;
    broadcast use vstd::multiset::group_multiset_axioms;

    if xs.len() == 0 {
        assert(xs.to_multiset().len() == 0);
        assert(ys.to_multiset().len() == ys.len());
        assert(ys =~= Seq::<LayoutFreeItem>::empty());
    } else {
        let x = xs.last();
        let d = xs.drop_last();
        assert(xs =~= d.push(x));
        assert(xs.to_multiset().count(x) > 0);
        assert(ys.contains(x));
        let k = choose|k: int| 0 <= k < ys.len() && ys[k] == x;
        assert(ys.remove(k).to_multiset() =~= ys.to_multiset().remove(x));
        assert(d.to_multiset() =~= xs.to_multiset().remove(x));
        lemma_total_keys_permuted(d, ys.remove(k));
        lemma_total_keys_remove(ys, k);
    }
}

proof fn lemma_module_keys(items: Seq<ModuleItemSource>)
    ensures
        keys_of(module_entities(items)).to_multiset() == total_keys(layout_free_items(items)),
    decreases items.len(),
{
    if items.len() == 0 {
        assert(keys_of(module_entities(items)) =~= Seq::<EntityKey>::empty());
        assert(layout_free_items(items) =~= Seq::<LayoutFreeItem>::empty());
        vstd::seq_lib::to_multiset_len(Seq::<EntityKey>::empty());
        assert(Seq::<EntityKey>::empty().to_multiset() =~= Multiset::<EntityKey>::empty());
    } else {
        let d = items.drop_last();
        lemma_module_keys(d);
        lemma_free_keys(items.last());
        let a = keys_of(module_entities(d));
        let b = keys_of(item_entities(items.last()));
        assert(keys_of(module_entities(items)) =~= a + b);
        vstd::seq_lib::lemma_multiset_commutative(a, b);
        assert(layout_free_items(items).drop_last() =~= layout_free_items(d));
        assert(layout_free_items(items).last() == layout_free(items.last()));
    }
}

proof fn lemma_index_keys(path: Seq<char>, items: Seq<ModuleItemSource>)
    ensures
        keys_of(typescript_index(path, items).entities).to_multiset() == total_keys(
            layout_free_items(items),
        ),
{
    lemma_module_entities(empty_state(), items);
    assert(empty_state().entities + module_entities(items) =~= module_entities(items));
    sorting_keeps_mapped_multiset::<SemanticEntity, EntityKey>(
        module_entities(items),
        |e: EntityView| entity_key(e),
    );
    lemma_module_keys(items);
}

/// Reordering a module's items, moving its function declarations to other lines and respacing
/// their bodies leave the index with the same entities by id, path and signature, body and full
/// hashes: modules whose items are the same without their layout, counted with multiplicity and
/// in any order, have indices with the same keys, counted with multiplicity.
pub proof fn index_keys_ignore_layout(
    path: Seq<char>,
    items1: Seq<ModuleItemSource>,
    items2: Seq<ModuleItemSource>,
)
    requires
        layout_free_items(items1).to_multiset() == layout_free_items(items2).to_multiset(),
    ensures
        keys_of(typescript_index(path, items1).entities).to_multiset() == keys_of(
            typescript_index(path, items2).entities,
        ).to_multiset(),
{
    lemma_index_keys(path, items1);
    lemma_index_keys(path, items2);
    lemma_total_keys_permuted(layout_free_items(items1), layout_free_items(items2));
}

/// Whether `a` and `b` declare the same function, exported alike, with the same body up to
/// spacing; their headers (parameters, return type, modifiers) may differ.
pub open spec fn same_function_but_header(a: ModuleItemSource, b: ModuleItemSource) -> bool {
    match (layout_free(a), layout_free(b)) {
        (
            LayoutFreeItem::Function { exported: e1, name: n1, body: b1, .. },
            LayoutFreeItem::Function { exported: e2, name: n2, body: b2, .. },
        ) => e1 == e2 && n1 == n2 && b1 == b2,
        _ => false,
    }
}

proof fn lemma_function_item(a: ModuleItemSource)
    requires
        layout_free(a) is Function,
    ensures
        item_entities(a).len() == 1,
        keys_of(item_entities(a)).to_multiset() == Multiset::<EntityKey>::empty().insert(
            entity_key(item_entities(a)[0]),
        ),
{
    match a {
        ModuleItemSource::Decl(DeclSource::Function { name, function, at }) => {
            assert(item_entities(a) =~= seq![
                function_entity(name@, entity_path(None, name@, false), None, function, at, "function_decl"@),
            ]);
        },
        ModuleItemSource::ExportDecl(DeclSource::Function { name, function, at }) => {
            assert(item_entities(a) =~= seq![
                function_entity(name@, entity_path(None, name@, false), None, function, at, "function_decl"@),
            ]);
        },
        _ => {},
    }
    let key = entity_key(item_entities(a)[0]);
    assert(keys_of(item_entities(a)) =~= Seq::<EntityKey>::empty().push(key));
    vstd::seq_lib::to_multiset_build(Seq::<EntityKey>::empty(), key);
    vstd::seq_lib::to_multiset_len(Seq::<EntityKey>::empty());
    assert(Seq::<EntityKey>::empty().to_multiset() =~= Multiset::<EntityKey>::empty());
}

proof fn lemma_same_but_header(a: ModuleItemSource, b: ModuleItemSource)
    requires
        same_function_but_header(a, b),
    ensures
        item_entities(b)[0].path == item_entities(a)[0].path,
        item_entities(b)[0].body_hash == item_entities(a)[0].body_hash,
{
    match (a, b) {
        (
            ModuleItemSource::Decl(DeclSource::Function { name: n1, function: f1, at: at1 }),
            ModuleItemSource::Decl(DeclSource::Function { name: n2, function: f2, at: at2 }),
        ) => {
            assert(item_entities(a)[0] == function_entity(n1@, entity_path(None, n1@, false), None, f1, at1, "function_decl"@));
            assert(item_entities(b)[0] == function_entity(n2@, entity_path(None, n2@, false), None, f2, at2, "function_decl"@));
        },
        (
            ModuleItemSource::ExportDecl(DeclSource::Function { name: n1, function: f1, at: at1 }),
            ModuleItemSource::ExportDecl(DeclSource::Function { name: n2, function: f2, at: at2 }),
        ) => {
            assert(item_entities(a)[0] == function_entity(n1@, entity_path(None, n1@, false), None, f1, at1, "function_decl"@));
            assert(item_entities(b)[0] == function_entity(n2@, entity_path(None, n2@, false), None, f2, at2, "function_decl"@));
        },
        _ => {},
    }
}

/// Editing the header of one function declaration while keeping its name and body changes
/// only that function's entity: every other entity of the index keeps its key (the keys of the
/// other items, counted with multiplicity), and the function's entity keeps its path and its
/// body hash; its id and its signature and full hashes are those of the new header.
pub proof fn editing_a_function_header_changes_only_its_entity(
    path: Seq<char>,
    items: Seq<ModuleItemSource>,
    k: int,
    edited: ModuleItemSource,
)
    requires
        0 <= k < items.len(),
        same_function_but_header(items[k], edited),
    ensures
        item_entities(items[k]).len() == 1,
        item_entities(edited).len() == 1,
        item_entities(edited)[0].path == item_entities(items[k])[0].path,
        item_entities(edited)[0].body_hash == item_entities(items[k])[0].body_hash,
        keys_of(typescript_index(path, items).entities).to_multiset() == total_keys(
            layout_free_items(items.remove(k)),
        ).insert(entity_key(item_entities(items[k])[0])),
        keys_of(typescript_index(path, items.update(k, edited)).entities).to_multiset()
            == total_keys(layout_free_items(items.remove(k))).insert(
            entity_key(item_entities(edited)[0]),
        ),
{
    broadcast use vstd::multiset::group_multiset_axioms;

    let items2 = items.update(k, edited);
    lemma_index_keys(path, items);
    lemma_index_keys(path, items2);
    lemma_total_keys_remove(layout_free_items(items), k);
    lemma_total_keys_remove(layout_free_items(items2), k);
    assert(layout_free_items(items).remove(k) =~= layout_free_items(items.remove(k)));
    assert(layout_free_items(items2).remove(k) =~= layout_free_items(items.remove(k)));
    assert(layout_free_items(items)[k] == layout_free(items[k]));
    assert(layout_free_items(items2)[k] == layout_free(edited));
    lemma_free_keys(items[k]);
    lemma_free_keys(edited);
    lemma_function_item(items[k]);
    lemma_function_item(edited);
    lemma_same_but_header(items[k], edited);
}

proof fn lemma_only_moves(o: EntityView, n: EntityView, k: SemanticChangeKind)
    requires
        o.signature_hash == n.signature_hash,
        o.body_hash == n.body_hash,
        k != SemanticChangeKind::Moved,
        k != SemanticChangeKind::Unchanged,
    ensures
        kind_count(change_kinds(o, n, false), k) == 0,
{
    let k1 = Seq::<SemanticChangeKind>::empty();
    assert(kind_count(k1, k) == 0);
    crate::diff::lemma_kind_count_push(k1, SemanticChangeKind::Moved, k);
    crate::diff::lemma_kind_count_push(k1, SemanticChangeKind::Unchanged, k);
    assert(seq![SemanticChangeKind::Unchanged] =~= k1.push(SemanticChangeKind::Unchanged));
    assert(seq![SemanticChangeKind::Moved] =~= k1.push(SemanticChangeKind::Moved));
}

proof fn lemma_no_occurrences(cs: Seq<ChangeView>, k: SemanticChangeKind)
    requires
        forall|i: int| 0 <= i < cs.len() ==> kind_count((#[trigger] cs[i]).kinds, k) == 0,
    ensures
        occurrences(cs, k) == 0,
    decreases cs.len(),
{
    if cs.len() > 0 {
        let d = cs.drop_last();
        assert forall|i: int| 0 <= i < d.len() implies kind_count((#[trigger] d[i]).kinds, k) == 0 by {
            assert(d[i] == cs[i]);
        }
        lemma_no_occurrences(d, k);
        assert(kind_count(cs[cs.len() - 1].kinds, k) == 0);
    }
}

proof fn lemma_keys_no_duplicates(es: Seq<EntityView>)
    requires
        unique_ids(es),
    ensures
        keys_of(es).no_duplicates(),
{
    assert forall|i: int, j: int|
        0 <= i < keys_of(es).len() && 0 <= j < keys_of(es).len() && i != j implies keys_of(es)[i]
            != keys_of(es)[j] by {
        if i < j {
            assert(es[i].id != es[j].id);
        } else {
            assert(es[j].id != es[i].id);
        }
    }
}

/// Two lists of entities with the same keys (the first with distinct ids) hold the same ids,
/// the second with distinct ids too, and each entity of the first finds in the second, as the
/// entity of its id, one with its key.
proof fn lemma_same_keys_partners(e1: Seq<EntityView>, e2: Seq<EntityView>)
    requires
        unique_ids(e1),
        keys_of(e1).to_multiset() == keys_of(e2).to_multiset(),
    ensures
        unique_ids(e2),
        forall|i: int| 0 <= i < e1.len() ==> #[trigger] has_id(e2, e1[i].id),
        forall|j: int| 0 <= j < e2.len() ==> #[trigger] has_id(e1, e2[j].id),
        forall|i: int|
            0 <= i < e1.len() ==> entity_key(#[trigger] e2[last_index_with_id(e2, e1[i].id)])
                == entity_key(e1[i]),
{
    broadcast use vstd::seq_lib::group_to_multiset_ensures;

    let k1 = keys_of(e1);
    let k2 = keys_of(e2);
    lemma_keys_no_duplicates(e1);
    k1.lemma_multiset_has_no_duplicates();
    k2.lemma_multiset_has_no_duplicates_conv();
    // Each key of one side is a key of the other.
    assert forall|j: int| #![trigger e2[j]] 0 <= j < e2.len() implies exists|i: int|
        0 <= i < e1.len() && #[trigger] entity_key(e1[i]) == entity_key(e2[j]) by {
        assert(k2[j] == entity_key(e2[j]));
        assert(k2.contains(k2[j]));
        assert(k2.to_multiset().count(k2[j]) > 0);
        assert(k1.to_multiset().count(k2[j]) > 0);
        assert(k1.contains(k2[j]));
        let i = choose|i: int| 0 <= i < k1.len() && k1[i] == k2[j];
        assert(entity_key(e1[i]) == entity_key(e2[j]));
    }
    assert forall|i: int| #![trigger e1[i]] 0 <= i < e1.len() implies exists|j: int|
        0 <= j < e2.len() && #[trigger] entity_key(e2[j]) == entity_key(e1[i]) by {
        assert(k1[i] == entity_key(e1[i]));
        assert(k1.contains(k1[i]));
        assert(k1.to_multiset().count(k1[i]) > 0);
        assert(k2.to_multiset().count(k1[i]) > 0);
        assert(k2.contains(k1[i]));
        let j = choose|j: int| 0 <= j < k2.len() && k2[j] == k1[i];
        assert(entity_key(e2[j]) == entity_key(e1[i]));
    }
    assert forall|i: int| 0 <= i < e1.len() implies #[trigger] has_id(e2, e1[i].id) by {
        let j = choose|j: int| 0 <= j < e2.len() && #[trigger] entity_key(e2[j]) == entity_key(e1[i]);
        assert(e2[j].id == e1[i].id);
    }
    assert forall|j: int| 0 <= j < e2.len() implies #[trigger] has_id(e1, e2[j].id) by {
        let i = choose|i: int| 0 <= i < e1.len() && #[trigger] entity_key(e1[i]) == entity_key(e2[j]);
        assert(e1[i].id == e2[j].id);
    }
    // An entity of the second side has the key of the entity of its id on the first side.
    assert forall|j: int, i: int| 0 <= j < e2.len() && 0 <= i < e1.len() && e2[j].id
        == e1[i].id implies #[trigger] entity_key(e2[j]) == #[trigger] entity_key(e1[i]) by {
        let m = choose|m: int| 0 <= m < e1.len() && #[trigger] entity_key(e1[m]) == entity_key(e2[j]);
        if m != i {
            if m < i {
                assert(e1[m].id != e1[i].id);
            } else {
                assert(e1[i].id != e1[m].id);
            }
        }
    }
    assert(unique_ids(e2)) by {
        assert forall|a: int, b: int| 0 <= a < b < e2.len() implies (#[trigger] e2[a]).id != (
        #[trigger] e2[b]).id by {
            if e2[a].id == e2[b].id {
                let i = choose|i: int| 0 <= i < e1.len() && #[trigger] entity_key(e1[i]) == entity_key(e2[a]);
                assert(entity_key(e2[b]) == entity_key(e1[i]));
                assert(k2[a] == k2[b]);
            }
        }
    }
    assert forall|i: int| 0 <= i < e1.len() implies entity_key(
        #[trigger] e2[last_index_with_id(e2, e1[i].id)],
    ) == entity_key(e1[i]) by {
        crate::diff::lemma_last_index_with_id(e2, e1[i].id);
        let j = last_index_with_id(e2, e1[i].id);
        assert(e2[j].id == e1[i].id);
    }
}

/// Diffing two lists of entities with the same keys (ids distinct) reports only moves: every
/// entity is matched by id, and no change is a rename, an insertion, a deletion, a split, a
/// merge, a signature change or an implementation change.
pub proof fn same_keys_diff_as_moves_only(e1: Seq<EntityView>, e2: Seq<EntityView>, k: SemanticChangeKind)
    requires
        unique_ids(e1),
        keys_of(e1).to_multiset() == keys_of(e2).to_multiset(),
        k != SemanticChangeKind::Moved,
        k != SemanticChangeKind::Unchanged,
    ensures
        occurrences(sort_stable::<SemanticChange>(raw_changes(e1, e2)), k) == 0,
{
    lemma_same_keys_partners(e1, e2);
    assert forall|i: int| 0 <= i < e1.len() implies has_id(e2, (#[trigger] e1[i]).id) by {
        assert(has_id(e2, e1[i].id));
    }
    assert forall|j: int| 0 <= j < e2.len() implies has_id(e1, (#[trigger] e2[j]).id) by {
        assert(has_id(e1, e2[j].id));
    }
    same_ids_match_by_id(e1, e2);
    let raw = raw_changes(e1, e2);
    assert forall|i: int| 0 <= i < raw.len() implies kind_count((#[trigger] raw[i]).kinds, k) == 0 by {
        let p = e2[last_index_with_id(e2, e1[i].id)];
        assert(entity_key(p) == entity_key(e1[i]));
        lemma_only_moves(e1[i], p, k);
    }
    lemma_no_occurrences(raw, k);
    sorting_keeps_kind_occurrences(raw, k);
}

/// Reordering a module's items, moving its function declarations and respacing their bodies
/// (items the same without their layout) make the diff between the two indices report only
/// moves, when the first index has distinct ids.
pub proof fn relayout_diffs_as_moves_only(
    path1: Seq<char>,
    path2: Seq<char>,
    items1: Seq<ModuleItemSource>,
    items2: Seq<ModuleItemSource>,
    k: SemanticChangeKind,
)
    requires
        layout_free_items(items1).to_multiset() == layout_free_items(items2).to_multiset(),
        unique_ids(typescript_index(path1, items1).entities),
        k != SemanticChangeKind::Moved,
        k != SemanticChangeKind::Unchanged,
    ensures
        occurrences(
            sort_stable::<SemanticChange>(
                raw_changes(
                    typescript_index(path1, items1).entities,
                    typescript_index(path2, items2).entities,
                ),
            ),
            k,
        ) == 0,
{
    lemma_index_keys(path1, items1);
    lemma_index_keys(path2, items2);
    lemma_total_keys_permuted(layout_free_items(items1), layout_free_items(items2));
    same_keys_diff_as_moves_only(
        typescript_index(path1, items1).entities,
        typescript_index(path2, items2).entities,
        k,
    );
}

proof fn lemma_absent_single(es: Seq<EntityView>, others: Seq<EntityView>, i: int, n: int)
    requires
        0 <= i < n <= es.len(),
        forall|k: int| 0 <= k < es.len() && k != i ==> #[trigger] has_id(others, es[k].id),
        !has_id(others, es[i].id),
    ensures
        absent_from(es.take(n), others) == seq![es[i]],
    decreases n,
{
    let t = es.take(n);
    assert(t.drop_last() =~= es.take(n - 1));
    assert(t.last() == es[n - 1]);
    if n - 1 == i {
        assert forall|k: int| 0 <= k < es.take(i).len() implies has_id(others, (#[trigger] es.take(i)[k]).id) by {
            assert(es.take(i)[k] == es[k]);
            assert(has_id(others, es[k].id));
        }
        crate::diff::lemma_absent_from_none(es.take(i), others);
        assert(absent_from(es.take(i), others) == Seq::<EntityView>::empty());
        assert(Seq::<EntityView>::empty().push(es[i]) =~= seq![es[i]]);
    } else {
        lemma_absent_single(es, others, i, n - 1);
        assert(has_id(others, es[n - 1].id));
    }
}

/// A function whose header changed keeps a new id, and is matched by name: when every other
/// entity keeps its id on both sides (ids distinct), the one entity `o` whose id is gone and the
/// one entity `n` whose id is new have the same kind, name and parent and the same body hash,
/// then the diff reports `o` against `n` with the change that classifies them: a signature change
/// exactly when their signature hashes differ, and never an implementation change.
pub proof fn header_edit_is_reported_as_signature_change(
    e1: Seq<EntityView>,
    e2: Seq<EntityView>,
    i: int,
    j: int,
)
    requires
        0 <= i < e1.len(),
        0 <= j < e2.len(),
        !has_id(e2, e1[i].id),
        !has_id(e1, e2[j].id),
        forall|k: int| 0 <= k < e1.len() && k != i ==> #[trigger] has_id(e2, e1[k].id),
        forall|k: int| 0 <= k < e2.len() && k != j ==> #[trigger] has_id(e1, e2[k].id),
        same_name_candidate(e1[i], e2[j]),
        e1[i].body_hash == e2[j].body_hash,
    ensures
        sort_stable::<SemanticChange>(raw_changes(e1, e2)).contains(classified(e1[i], e2[j], false)),
        classified(e1[i], e2[j], false).anchor_id == e1[i].id,
        classified(e1[i], e2[j], false).kinds.contains(SemanticChangeKind::SignatureChanged)
            <==> e1[i].signature_hash != e2[j].signature_hash,
        !classified(e1[i], e2[j], false).kinds.contains(SemanticChangeKind::ImplementationChanged),
{
    let o = e1[i];
    let n = e2[j];
    lemma_absent_single(e1, e2, i, e1.len() as int);
    lemma_absent_single(e2, e1, j, e2.len() as int);
    assert(e1.take(e1.len() as int) =~= e1);
    assert(e2.take(e2.len() as int) =~= e2);
    let used: Seq<Seq<char>> = seq![];
    assert(seq![n].drop_last() =~= Seq::<EntityView>::empty());
    assert(seq![n].last() == n);
    assert(!used.contains(n.id));
    assert(name_candidates(o, Seq::<EntityView>::empty(), used) == Seq::<EntityView>::empty());
    assert(name_candidates(o, seq![n], used) =~= Seq::<EntityView>::empty().push(n));
    assert(name_candidates(o, seq![n], used) =~= seq![n]);
    assert(seq![o].drop_last() =~= Seq::<EntityView>::empty());
    assert(seq![o].last() == o);
    assert(crate::diff::same_name_matches(Seq::<EntityView>::empty(), seq![n]) == no_matches());
    assert(!no_matches().used_old.contains(o.id));
    assert(crate::diff::same_name_matches(seq![o], seq![n]) == crate::diff::same_name_step(
        no_matches(),
        o,
        seq![n],
    ));
    assert(name_phase(e1, e2) == with_match(no_matches(), o, n));
    let c = classified(o, n, false);
    assert(pair_changes(with_match(no_matches(), o, n).pairs, false) =~= seq![c]) by {
        let ps = with_match(no_matches(), o, n).pairs;
        assert(ps =~= seq![(o, n)]);
        assert(ps.drop_last() =~= Seq::<(EntityView, EntityView)>::empty());
        assert(pair_changes(Seq::<(EntityView, EntityView)>::empty(), false) == Seq::<ChangeView>::empty());
        assert(ps.last() == (o, n));
        assert(pair_changes(ps, false) == Seq::<ChangeView>::empty().push(c));
    }
    let raw = raw_changes(e1, e2);
    let ic = id_changes(e1, e2);
    assert(raw[ic.len() as int] == c);
    sorting_loses_nothing::<SemanticChange>(raw);
    lemma_only_moves_but_signature(o, n);
}

proof fn lemma_only_moves_but_signature(o: EntityView, n: EntityView)
    requires
        o.body_hash == n.body_hash,
    ensures
        change_kinds(o, n, false).contains(SemanticChangeKind::SignatureChanged) <==> o.signature_hash
            != n.signature_hash,
        !change_kinds(o, n, false).contains(SemanticChangeKind::ImplementationChanged),
{
    let k1 = Seq::<SemanticChangeKind>::empty();
    let k2 = if o.span.start != n.span.start {
        k1.push(SemanticChangeKind::Moved)
    } else {
        k1
    };
    let k3 = if o.signature_hash != n.signature_hash {
        k2.push(SemanticChangeKind::SignatureChanged)
    } else {
        k2
    };
    assert(change_kinds(o, n, false) == if k3.len() == 0 {
        seq![SemanticChangeKind::Unchanged]
    } else {
        k3
    });
    if o.signature_hash != n.signature_hash {
        assert(k3[k3.len() - 1] == SemanticChangeKind::SignatureChanged);
    } else {
        assert forall|m: int| 0 <= m < change_kinds(o, n, false).len() implies change_kinds(o, n, false)[m]
            != SemanticChangeKind::SignatureChanged by {
        }
    }
    assert forall|m: int| 0 <= m < change_kinds(o, n, false).len() implies change_kinds(o, n, false)[m]
        != SemanticChangeKind::ImplementationChanged by {
    }
}

proof fn lemma_classified_kinds(o: EntityView, n: EntityView)
    ensures
        change_kinds(o, n, false).contains(SemanticChangeKind::SignatureChanged) <==> o.signature_hash
            != n.signature_hash,
        change_kinds(o, n, false).contains(SemanticChangeKind::ImplementationChanged) <==> o.body_hash
            != n.body_hash,
{
    let k1 = Seq::<SemanticChangeKind>::empty();
    let k2 = if o.span.start != n.span.start {
        k1.push(SemanticChangeKind::Moved)
    } else {
        k1
    };
    let k3 = if o.signature_hash != n.signature_hash {
        k2.push(SemanticChangeKind::SignatureChanged)
    } else {
        k2
    };
    let k4 = if o.body_hash != n.body_hash {
        k3.push(SemanticChangeKind::ImplementationChanged)
    } else {
        k3
    };
    let ks = change_kinds(o, n, false);
    assert(ks == if k4.len() == 0 {
        seq![SemanticChangeKind::Unchanged]
    } else {
        k4
    });
    if o.signature_hash != n.signature_hash {
        assert(k3[k3.len() - 1] == SemanticChangeKind::SignatureChanged);
        assert(k4[k3.len() - 1] == SemanticChangeKind::SignatureChanged);
    } else {
        assert forall|m: int| 0 <= m < ks.len() implies ks[m] != SemanticChangeKind::SignatureChanged by {}
    }
    if o.body_hash != n.body_hash {
        assert(k4[k4.len() - 1] == SemanticChangeKind::ImplementationChanged);
    } else {
        assert forall|m: int| 0 <= m < ks.len() implies ks[m] != SemanticChangeKind::ImplementationChanged by {}
    }
}

/// When, by kind, name and parent, an old entity whose id is gone and a new entity whose id is
/// new are each other's only counterparts (every other entity keeping its id on both sides), and
/// their bodies hash alike or have a Jaro-Winkler similarity of at least 0.55, the diff reports
/// them as one change anchored at the old id, never as a deletion and an insertion: no change of
/// the diff is a deletion or an insertion. The change reports a signature change exactly when the
/// signature hashes differ and an implementation change exactly when the body hashes differ.
pub proof fn lone_same_name_pair_is_one_change(e1: Seq<EntityView>, e2: Seq<EntityView>, i: int, j: int)
    requires
        0 <= i < e1.len(),
        0 <= j < e2.len(),
        !has_id(e2, e1[i].id),
        !has_id(e1, e2[j].id),
        forall|k: int| 0 <= k < e1.len() && k != i ==> #[trigger] has_id(e2, e1[k].id),
        forall|k: int| 0 <= k < e2.len() && k != j ==> #[trigger] has_id(e1, e2[k].id),
        same_name_candidate(e1[i], e2[j]),
        e1[i].body_hash == e2[j].body_hash || body_similarity(e1[i], e2[j]) >= SAME_NAME_THRESHOLD,
    ensures
        sort_stable::<SemanticChange>(raw_changes(e1, e2)).contains(classified(e1[i], e2[j], false)),
        classified(e1[i], e2[j], false).anchor_id == e1[i].id,
        occurrences(sort_stable::<SemanticChange>(raw_changes(e1, e2)), SemanticChangeKind::Deleted) == 0,
        occurrences(sort_stable::<SemanticChange>(raw_changes(e1, e2)), SemanticChangeKind::Inserted) == 0,
        classified(e1[i], e2[j], false).kinds.contains(SemanticChangeKind::SignatureChanged)
            <==> e1[i].signature_hash != e2[j].signature_hash,
        classified(e1[i], e2[j], false).kinds.contains(SemanticChangeKind::ImplementationChanged)
            <==> e1[i].body_hash != e2[j].body_hash,
{
    let o = e1[i];
    let n = e2[j];
    lemma_absent_single(e1, e2, i, e1.len() as int);
    lemma_absent_single(e2, e1, j, e2.len() as int);
    assert(e1.take(e1.len() as int) =~= e1);
    assert(e2.take(e2.len() as int) =~= e2);
    let used: Seq<Seq<char>> = seq![];
    assert(seq![n].drop_last() =~= Seq::<EntityView>::empty());
    assert(seq![n].last() == n);
    assert(!used.contains(n.id));
    assert(name_candidates(o, Seq::<EntityView>::empty(), used) == Seq::<EntityView>::empty());
    assert(name_candidates(o, seq![n], used) =~= Seq::<EntityView>::empty().push(n));
    assert(name_candidates(o, seq![n], used) =~= seq![n]);
    assert(seq![o].drop_last() =~= Seq::<EntityView>::empty());
    assert(seq![o].last() == o);
    assert(crate::diff::same_name_matches(Seq::<EntityView>::empty(), seq![n]) == no_matches());
    assert(!no_matches().used_old.contains(o.id));
    assert(crate::diff::same_name_matches(seq![o], seq![n]) == crate::diff::same_name_step(
        no_matches(),
        o,
        seq![n],
    ));
    let st = with_match(no_matches(), o, n);
    assert(name_phase(e1, e2) == st);
    let c = classified(o, n, false);
    let ps = st.pairs;
    assert(ps =~= seq![(o, n)]);
    assert(ps.drop_last() =~= Seq::<(EntityView, EntityView)>::empty());
    assert(pair_changes(Seq::<(EntityView, EntityView)>::empty(), false) == Seq::<ChangeView>::empty());
    assert(ps.last() == (o, n));
    assert(pair_changes(ps, false) =~= seq![c]);
    // What remains after the name phase is empty on both sides.
    let empty = Seq::<EntityView>::empty();
    assert(st.used_old =~= seq![o.id]);
    assert(st.used_new =~= seq![n.id]);
    assert(seq![o].drop_last() =~= empty);
    assert(seq![n].drop_last() =~= empty);
    assert(excluding(empty, st.used_old) == empty);
    assert(excluding(seq![o], st.used_old) =~= empty) by {
        assert(st.used_old.contains(o.id)) by {
            assert(st.used_old[0] == o.id);
        }
    }
    assert(excluding(seq![n], st.used_new) =~= empty) by {
        assert(st.used_new.contains(n.id)) by {
            assert(st.used_new[0] == n.id);
        }
        assert(seq![n].drop_last() =~= empty);
        assert(excluding(empty, st.used_new) == empty);
        assert(seq![n].last() == n);
    }
    assert(rename_candidates(empty, empty) =~= Seq::<(u64, EntityView, EntityView)>::empty());
    assert(sort_stable::<crate::diff::RenameCandidate>(Seq::<(u64, EntityView, EntityView)>::empty())
        =~= Seq::<(u64, EntityView, EntityView)>::empty());
    assert(rename_phase(e1, e2) == no_matches());
    assert(excluding(empty, seq![]) == empty);
    assert(remaining_old(e1, e2) == empty);
    assert(remaining_new(e1, e2) == empty);
    assert(pair_changes(no_matches().pairs, true) =~= Seq::<ChangeView>::empty());
    let raw = raw_changes(e1, e2);
    let ic = id_changes(e1, e2);
    assert(raw =~= ic.push(c));
    sorting_loses_nothing::<SemanticChange>(raw);
    assert(raw[ic.len() as int] == c);
    lemma_classified_kinds(o, n);
    assert forall|k: SemanticChangeKind| crate::diff::unmatched_kind(k) implies #[trigger] occurrences(
        sort_stable::<SemanticChange>(raw),
        k,
    ) == 0 by {
        crate::diff::lemma_id_changes_matched_kinds(e1, e2, k);
        matched_by_id_has_no_unmatched_kind(o, n, k);
        crate::diff::lemma_kind_count_absent(c.kinds, k);
        crate::diff::lemma_occurrences_push(ic, c, k);
        sorting_keeps_kind_occurrences(raw, k);
    }
    assert(crate::diff::unmatched_kind(SemanticChangeKind::Deleted));
    assert(crate::diff::unmatched_kind(SemanticChangeKind::Inserted));
}

} // verus!
