use vstd::prelude::*;

use crate::error::ParseError;
use crate::parser::{extension, path_extension, path_file_name, LanguageParser, ParseInput};
use crate::text::{join_with, joined};
use crate::model::{
    str_seq, clone_opt_str, opt_str, str_equal, vec_view, EntityView, ExportBinding, ExportView,
    FileSemanticIndex, LanguageId, SemanticEntity,
};
use crate::merge::entity_order_is_strict_weak;
use crate::sort::{
    chars_lt, lemma_chars_lt_asymmetric, lemma_chars_lt_irreflexive, lemma_chars_lt_total,
    lemma_chars_lt_transitive, sort_stable, sorted_by, sorting_sorts, stable_sort, str_lt,
    strict_weak_order, SortKeyed,
};
use crate::ts_entity::{
    build_class_entities, build_entity_path, build_function_entity, build_interface_entity,
    build_type_alias_entity, build_variable_entity, class_entity, class_members, entity_path,
    function_entity, interface_entity, parent_view, type_alias_entity, variable_entity,
    ParentContext,
};
use crate::ts_source::{
    ClassSource, DeclSource, DeclaratorSource, ExportSpecifierSource, FunctionSource,
    InterfaceSource, ModuleItemSource, SourceSpan, VarKind, VarSource,
};

verus! {

/// A declared name with the id of the entity it names.
#[derive(Debug)]
pub struct NameEntry {
    pub name: String,
    pub id: String,
}

impl View for NameEntry {
    type V = (Seq<char>, Seq<char>);

    open spec fn view(&self) -> (Seq<char>, Seq<char>) {
        (self.name@, self.id@)
    }
}

/// The id recorded first for `name`.
pub open spec fn name_lookup(names: Seq<(Seq<char>, Seq<char>)>, name: Seq<char>) -> Option<Seq<char>>
    decreases names.len(),
{
    if names.len() == 0 {
        None
    } else if names[0].0 == name {
        Some(names[0].1)
    } else {
        name_lookup(names.drop_first(), name)
    }
}

/// What the builder has gathered: the entities in the order they were met, the first id
/// recorded for each top-level name, and the exports in the order they were declared.
#[verifier::ext_equal]
pub struct IndexState {
    pub entities: Seq<EntityView>,
    pub names: Seq<(Seq<char>, Seq<char>)>,
    pub intents: Seq<ExportView>,
}

pub open spec fn empty_state() -> IndexState {
    IndexState { entities: seq![], names: seq![], intents: seq![] }
}

/// `st` after recording `e`; a root entity also records its name unless the name is known.
pub open spec fn push_spec(st: IndexState, e: EntityView, is_root: bool) -> IndexState {
    IndexState {
        entities: st.entities.push(e),
        names: if is_root && name_lookup(st.names, e.name) is None {
            st.names.push((e.name, e.id))
        } else {
            st.names
        },
        intents: st.intents,
    }
}

pub open spec fn push_members_spec(st: IndexState, es: Seq<EntityView>) -> IndexState {
    IndexState { entities: st.entities + es, names: st.names, intents: st.intents }
}

pub open spec fn add_intents(st: IndexState, xs: Seq<ExportView>) -> IndexState {
    IndexState { entities: st.entities, names: st.names, intents: st.intents + xs }
}

pub open spec fn export_view(
    exported_name: Seq<char>,
    local_name: Seq<char>,
    entity_id: Option<Seq<char>>,
    is_default: bool,
    type_only: bool,
    source: Option<Seq<char>>,
) -> ExportView {
    ExportView { exported_name, local_name, entity_id, is_default, type_only, source }
}

/// `st` after recording a class and its members.
pub open spec fn class_spec(
    st: IndexState,
    name: Seq<char>,
    path: Seq<char>,
    parent: Option<(Seq<char>, Seq<char>)>,
    c: ClassSource,
    at: SourceSpan,
    is_root: bool,
    source_kind: Seq<char>,
) -> IndexState {
    push_members_spec(
        push_spec(st, class_entity(name, path, parent, c, at, source_kind), is_root),
        class_members(name, path, parent, c),
    )
}

/// `st` after recording the declarators of a variable declaration, with the names they bind.
pub open spec fn vars_spec(
    st: IndexState,
    kind: VarKind,
    ds: Seq<DeclaratorSource>,
    parent: Option<(Seq<char>, Seq<char>)>,
    is_root: bool,
) -> (IndexState, Seq<(Seq<char>, Seq<char>)>)
    decreases ds.len(),
{
    if ds.len() == 0 {
        (st, seq![])
    } else {
        let (s1, c1) = vars_spec(st, kind, ds.drop_last(), parent, is_root);
        let d = ds.last();
        match d.binding {
            Some(name) => {
                let e = variable_entity(name@, entity_path(parent, name@, false), parent, kind, d);
                (push_spec(s1, e, is_root), c1.push((name@, e.id)))
            },
            None => (s1, c1),
        }
    }
}

/// `st` after recording a declaration, with the names it declares and their ids.
pub open spec fn decl_spec(
    st: IndexState,
    d: DeclSource,
    parent: Option<(Seq<char>, Seq<char>)>,
    is_root: bool,
) -> (IndexState, Seq<(Seq<char>, Seq<char>)>) {
    match d {
        DeclSource::Function { name, function, at } => {
            let e = function_entity(
                name@,
                entity_path(parent, name@, false),
                parent,
                function,
                at,
                "function_decl"@,
            );
            (push_spec(st, e, is_root), seq![(name@, e.id)])
        },
        DeclSource::Class { name, class, at } => {
            let path = entity_path(parent, name@, false);
            let e = class_entity(name@, path, parent, class, at, "class_decl"@);
            (class_spec(st, name@, path, parent, class, at, is_root, "class_decl"@), seq![(name@, e.id)])
        },
        DeclSource::Interface(i) => {
            let e = interface_entity(
                i.name@,
                entity_path(parent, i.name@, false),
                parent,
                i,
                "interface_decl"@,
            );
            (push_spec(st, e, is_root), seq![(i.name@, e.id)])
        },
        DeclSource::TypeAlias(t) => {
            let e = type_alias_entity(
                t.name@,
                entity_path(parent, t.name@, false),
                parent,
                t,
                "type_alias_decl"@,
            );
            (push_spec(st, e, is_root), seq![(t.name@, e.id)])
        },
        DeclSource::Var(v) => vars_spec(st, v.kind, v.declarators@, parent, is_root),
        DeclSource::Other => (st, seq![]),
    }
}

/// The exports of the names that an exported declaration declares.
pub open spec fn declared_exports(collected: Seq<(Seq<char>, Seq<char>)>) -> Seq<ExportView> {
    collected.map_values(
        |p: (Seq<char>, Seq<char>)| export_view(p.0, p.0, Some(p.1), false, false, None),
    )
}

/// The export that one specifier of `export { ... }` makes.
pub open spec fn specifier_export(source: Option<Seq<char>>, sp: ExportSpecifierSource) -> ExportView {
    match sp {
        ExportSpecifierSource::Named { local, exported, type_only } => export_view(
            match exported {
                Some(e) => e@,
                None => local@,
            },
            local@,
            None,
            false,
            type_only,
            source,
        ),
        ExportSpecifierSource::Default { name } => export_view(
            name@,
            "default"@,
            None,
            true,
            false,
            source,
        ),
        ExportSpecifierSource::Namespace { name } => export_view(
            name@,
            name@,
            None,
            false,
            false,
            source,
        ),
    }
}

/// The name that a default export binds: its own identifier, or `default`.
pub open spec fn default_name(ident: Option<String>) -> Seq<char> {
    match ident {
        Some(n) => n@,
        None => "default"@,
    }
}

/// `st` after a default export of a declaration (a function, a class or an interface).
pub open spec fn export_default_decl_spec(st: IndexState, item: ModuleItemSource) -> IndexState {
    match item {
        ModuleItemSource::ExportDefaultFunction { ident, function, at } => {
            let name = default_name(ident);
            let e = function_entity(name, name, None, function, at, "export_default_function"@);
            add_intents(
                push_spec(st, e, true),
                seq![export_view("default"@, name, Some(e.id), true, false, None)],
            )
        },
        ModuleItemSource::ExportDefaultClass { ident, class, at } => {
            let name = default_name(ident);
            let e = class_entity(name, name, None, class, at, "export_default_class"@);
            add_intents(
                class_spec(st, name, name, None, class, at, true, "export_default_class"@),
                seq![export_view("default"@, name, Some(e.id), true, false, None)],
            )
        },
        ModuleItemSource::ExportDefaultInterface(i) => {
            let e = interface_entity(i.name@, i.name@, None, i, "export_default_interface"@);
            add_intents(
                push_spec(st, e, true),
                seq![export_view("default"@, i.name@, Some(e.id), true, true, None)],
            )
        },
        _ => st,
    }
}

/// `st` after a default export of an expression.
pub open spec fn export_default_expr_spec(st: IndexState, item: ModuleItemSource) -> IndexState {
    match item {
        ModuleItemSource::ExportDefaultFunctionExpr { ident, function, at } => {
            let name = default_name(ident);
            let e = function_entity(name, name, None, function, at, "export_default_function_expr"@);
            add_intents(
                push_spec(st, e, true),
                seq![export_view("default"@, name, Some(e.id), true, false, None)],
            )
        },
        ModuleItemSource::ExportDefaultClassExpr { ident, class, at } => {
            let name = default_name(ident);
            let e = class_entity(name, name, None, class, at, "export_default_class_expr"@);
            add_intents(
                class_spec(st, name, name, None, class, at, true, "export_default_class_expr"@),
                seq![export_view("default"@, name, Some(e.id), true, false, None)],
            )
        },
        ModuleItemSource::ExportDefaultExpr => add_intents(
            st,
            seq![export_view("default"@, "default"@, None, true, false, None)],
        ),
        _ => st,
    }
}

/// `st` after an item that exports.
pub open spec fn module_decl_spec(st: IndexState, item: ModuleItemSource) -> IndexState {
    match item {
        ModuleItemSource::ExportDecl(d) => {
            let (s1, collected) = decl_spec(st, d, None, true);
            add_intents(s1, declared_exports(collected))
        },
        ModuleItemSource::ExportNamed { source, specifiers } => add_intents(
            st,
            specifiers@.map_values(|sp: ExportSpecifierSource| specifier_export(opt_str(source), sp)),
        ),
        ModuleItemSource::ExportDefaultFunction { .. } => export_default_decl_spec(st, item),
        ModuleItemSource::ExportDefaultClass { .. } => export_default_decl_spec(st, item),
        ModuleItemSource::ExportDefaultInterface(_) => export_default_decl_spec(st, item),
        ModuleItemSource::ExportDefaultFunctionExpr { .. } => export_default_expr_spec(st, item),
        ModuleItemSource::ExportDefaultClassExpr { .. } => export_default_expr_spec(st, item),
        ModuleItemSource::ExportDefaultExpr => export_default_expr_spec(st, item),
        ModuleItemSource::ExportAll { module, type_only } => add_intents(
            st,
            seq![export_view("*"@, "*"@, None, false, type_only, Some(module@))],
        ),
        _ => st,
    }
}

/// `st` after one item of the module body; a declaration without `export` records no name.
pub open spec fn item_spec(st: IndexState, item: ModuleItemSource) -> IndexState {
    match item {
        ModuleItemSource::Decl(d) => decl_spec(st, d, None, false).0,
        ModuleItemSource::Other => st,
        _ => module_decl_spec(st, item),
    }
}

/// `st` after the items, in order.
pub open spec fn items_spec(st: IndexState, items: Seq<ModuleItemSource>) -> IndexState
    decreases items.len(),
{
    if items.len() == 0 {
        st
    } else {
        item_spec(items_spec(st, items.drop_last()), items.last())
    }
}

/// The ids of the entities that have no parent, in order.
pub open spec fn root_ids(es: Seq<EntityView>) -> Seq<Seq<char>>
    decreases es.len(),
{
    if es.len() == 0 {
        seq![]
    } else {
        let rest = root_ids(es.drop_last());
        if es.last().parent is None {
            rest.push(es.last().id)
        } else {
            rest
        }
    }
}

/// An export whose entity is not known yet takes the id recorded for its local name.
pub open spec fn resolve_export(names: Seq<(Seq<char>, Seq<char>)>, x: ExportView) -> ExportView {
    ExportView {
        entity_id: match x.entity_id {
            Some(id) => Some(id),
            None => name_lookup(names, x.local_name),
        },
        ..x
    }
}

pub open spec fn resolved_exports(st: IndexState) -> Seq<ExportView> {
    st.intents.map_values(|x: ExportView| resolve_export(st.names, x))
}

impl SortKeyed for ExportBinding {
    /// Exports are ordered by exported name, then by local name.
    open spec fn goes_first(a: ExportView, b: ExportView) -> bool {
        chars_lt(a.exported_name, b.exported_name) || (a.exported_name == b.exported_name
            && chars_lt(a.local_name, b.local_name))
    }

    fn goes_first_exec(a: &Self, b: &Self) -> (r: bool) {
        str_lt(a.exported_name.as_str(), b.exported_name.as_str()) || (str_equal(
            a.exported_name.as_str(),
            b.exported_name.as_str(),
        ) && str_lt(a.local_name.as_str(), b.local_name.as_str()))
    }
}

/// The index of a TypeScript file from what its items recorded: entities sorted by path,
/// the ids of the top-level ones, and the exports sorted by exported and local name.
pub open spec fn finished_index(path: Seq<char>, parser_version: Seq<char>, st: IndexState) -> crate::model::IndexView {
    let entities = sort_stable::<SemanticEntity>(st.entities);
    crate::model::IndexView {
        language: LanguageId::TypeScript,
        path,
        entities,
        root_entities: root_ids(entities),
        exports: sort_stable::<ExportBinding>(resolved_exports(st)),
        parser_version,
    }
}

/// Builds the semantic index of one TypeScript module from its declarations.
pub struct TypeScriptIndexBuilder {
    path: String,
    entities: Vec<SemanticEntity>,
    name_to_id: Vec<NameEntry>,
    export_intents: Vec<ExportBinding>,
}

impl TypeScriptIndexBuilder {
    pub closed spec fn file_path(&self) -> Seq<char> {
        self.path@
    }

    pub closed spec fn state(&self) -> IndexState {
        IndexState {
            entities: vec_view(self.entities@),
            names: vec_view(self.name_to_id@),
            intents: vec_view(self.export_intents@),
        }
    }

    /// A builder for the file at `path` that has recorded nothing.
    pub fn new(path: &str) -> (r: TypeScriptIndexBuilder)
        ensures
            r.file_path() == path@,
            r.state() == empty_state(),
    {
        let r = TypeScriptIndexBuilder {
            path: path.to_owned(),
            entities: Vec::new(),
            name_to_id: Vec::new(),
            export_intents: Vec::new(),
        };
        assert(r.state() =~= empty_state()) by {
            assert(vec_view(r.entities@) =~= Seq::<EntityView>::empty());
            assert(vec_view(r.name_to_id@) =~= Seq::<(Seq<char>, Seq<char>)>::empty());
            assert(vec_view(r.export_intents@) =~= Seq::<ExportView>::empty());
        }
        r
    }

    fn lookup_name(&self, name: &str) -> (r: Option<String>)
        ensures
            opt_str(r) == name_lookup(self.state().names, name@),
    {
        let ghost v = vec_view(self.name_to_id@);
        let n = self.name_to_id.len();
        let mut i: usize = 0;
        assert(v.skip(0) =~= v);
        while i < n
            invariant
                n == self.name_to_id@.len(),
                v == vec_view(self.name_to_id@),
                0 <= i <= n,
                name_lookup(v, name@) == name_lookup(v.skip(i as int), name@),
            decreases n - i,
        {
            assert(v.skip(i as int)[0] == self.name_to_id@[i as int]@);
            if str_equal(self.name_to_id[i].name.as_str(), name) {
                return Some(self.name_to_id[i].id.clone());
            }
            assert(v.skip(i as int).drop_first() =~= v.skip(i + 1));
            i = i + 1;
        }
        None
    }

    /// Records `entity`; the first root entity of a name is the one an export of that name means.
    pub fn push_entity(&mut self, entity: SemanticEntity, is_root: bool)
        ensures
            final(self).file_path() == old(self).file_path(),
            final(self).state() == push_spec(old(self).state(), entity@, is_root),
    {
        let ghost st = self.state();
        if is_root {
            let known = self.lookup_name(entity.name.as_str());
            if known.is_none() {
                let entry = NameEntry { name: entity.name.clone(), id: entity.id.clone() };
                self.name_to_id.push(entry);
                assert(vec_view(self.name_to_id@) =~= st.names.push((entity@.name, entity@.id)));
            }
        }
        let ghost ev = entity@;
        self.entities.push(entity);
        assert(vec_view(self.entities@) =~= st.entities.push(ev));
    }

    /// Records a class and its members, and returns the class's id.
    pub fn collect_class_entity(
        &mut self,
        name: &str,
        path: &str,
        parent: Option<&ParentContext>,
        class: &ClassSource,
        at: &SourceSpan,
        is_root: bool,
        source_kind: &str,
    ) -> (r: String)
        ensures
            final(self).file_path() == old(self).file_path(),
            final(self).state() == class_spec(
                old(self).state(),
                name@,
                path@,
                parent_view(parent),
                *class,
                *at,
                is_root,
                source_kind@,
            ),
            r@ == class_entity(name@, path@, parent_view(parent), *class, *at, source_kind@).id,
    {
        let (entity, mut children) = build_class_entities(name, path, parent, class, at, source_kind);
        let id = entity.id.clone();
        self.push_entity(entity, is_root);
        let ghost st = self.state();
        let ghost kids = vec_view(children@);
        self.entities.append(&mut children);
        assert(vec_view(self.entities@) =~= st.entities + kids);
        id
    }

    /// Records the entities of a variable declaration and returns the names it binds.
    pub fn build_var_entities(&mut self, var_decl: &VarSource, parent: Option<&ParentContext>, is_root: bool) -> (r: Vec<NameEntry>)
        ensures
            final(self).file_path() == old(self).file_path(),
            (final(self).state(), vec_view(r@)) == vars_spec(
                old(self).state(),
                var_decl.kind,
                var_decl.declarators@,
                parent_view(parent),
                is_root,
            ),
    {
        let ghost st0 = self.state();
        let ghost ds = var_decl.declarators@;
        let mut collected: Vec<NameEntry> = Vec::new();
        let n = var_decl.declarators.len();
        let mut i: usize = 0;
        assert(ds.take(0) =~= Seq::<DeclaratorSource>::empty());
        assert(vec_view(collected@) =~= Seq::<(Seq<char>, Seq<char>)>::empty());
        while i < n
            invariant
                n == ds.len(),
                ds == var_decl.declarators@,
                0 <= i <= n,
                self.file_path() == old(self).file_path(),
                st0 == old(self).state(),
                (self.state(), vec_view(collected@)) == vars_spec(
                    st0,
                    var_decl.kind,
                    ds.take(i as int),
                    parent_view(parent),
                    is_root,
                ),
            decreases n - i,
        {
            let ghost t = ds.take(i + 1);
            assert(t.drop_last() =~= ds.take(i as int));
            assert(t.last() == ds[i as int]);
            let declarator = &var_decl.declarators[i];
            match &declarator.binding {
                Some(name) => {
                    let path = build_entity_path(parent, name.as_str(), false);
                    let entity = build_variable_entity(
                        name.as_str(),
                        path.as_str(),
                        parent,
                        var_decl.kind,
                        declarator,
                    );
                    let entry = NameEntry { name: name.clone(), id: entity.id.clone() };
                    let ghost before = vec_view(collected@);
                    self.push_entity(entity, is_root);
                    collected.push(entry);
                    assert(vec_view(collected@) =~= before.push(entry@));
                },
                None => {},
            }
            i = i + 1;
        }
        assert(ds.take(n as int) =~= ds);
        collected
    }

    /// Records a declaration and returns the names it declares with their ids.
    pub fn collect_decl(&mut self, decl: &DeclSource, parent: Option<&ParentContext>, is_root: bool) -> (r: Vec<NameEntry>)
        ensures
            final(self).file_path() == old(self).file_path(),
            (final(self).state(), vec_view(r@)) == decl_spec(
                old(self).state(),
                *decl,
                parent_view(parent),
                is_root,
            ),
    {
        let mut collected: Vec<NameEntry> = Vec::new();
        match decl {
            DeclSource::Function { name, function, at } => {
                let path = build_entity_path(parent, name.as_str(), false);
                let entity = build_function_entity(
                    name.as_str(),
                    path.as_str(),
                    parent,
                    function,
                    at,
                    "function_decl",
                );
                let entry = NameEntry { name: name.clone(), id: entity.id.clone() };
                self.push_entity(entity, is_root);
                collected.push(entry);
                assert(vec_view(collected@) =~= seq![entry@]);
            },
            DeclSource::Class { name, class, at } => {
                let path = build_entity_path(parent, name.as_str(), false);
                let id = self.collect_class_entity(
                    name.as_str(),
                    path.as_str(),
                    parent,
                    class,
                    at,
                    is_root,
                    "class_decl",
                );
                let entry = NameEntry { name: name.clone(), id };
                collected.push(entry);
                assert(vec_view(collected@) =~= seq![entry@]);
            },
            DeclSource::Interface(interface_decl) => {
                let path = build_entity_path(parent, interface_decl.name.as_str(), false);
                let entity = build_interface_entity(
                    interface_decl.name.as_str(),
                    path.as_str(),
                    parent,
                    interface_decl,
                    "interface_decl",
                );
                let entry = NameEntry { name: interface_decl.name.clone(), id: entity.id.clone() };
                self.push_entity(entity, is_root);
                collected.push(entry);
                assert(vec_view(collected@) =~= seq![entry@]);
            },
            DeclSource::TypeAlias(type_alias) => {
                let path = build_entity_path(parent, type_alias.name.as_str(), false);
                let entity = build_type_alias_entity(
                    type_alias.name.as_str(),
                    path.as_str(),
                    parent,
                    type_alias,
                    "type_alias_decl",
                );
                let entry = NameEntry { name: type_alias.name.clone(), id: entity.id.clone() };
                self.push_entity(entity, is_root);
                collected.push(entry);
                assert(vec_view(collected@) =~= seq![entry@]);
            },
            DeclSource::Var(var_decl) => {
                collected = self.build_var_entities(var_decl, parent, is_root);
            },
            DeclSource::Other => {
                assert(vec_view(collected@) =~= Seq::<(Seq<char>, Seq<char>)>::empty());
            },
        }
        collected
    }

    fn push_intent(
        &mut self,
        exported_name: String,
        local_name: String,
        entity_id: Option<String>,
        is_default: bool,
        type_only: bool,
        source: Option<String>,
    )
        ensures
            final(self).file_path() == old(self).file_path(),
            final(self).state() == add_intents(
                old(self).state(),
                seq![
                    export_view(
                        exported_name@,
                        local_name@,
                        opt_str(entity_id),
                        is_default,
                        type_only,
                        opt_str(source),
                    ),
                ],
            ),
    {
        let ghost st = self.state();
        let intent = ExportBinding { exported_name, local_name, entity_id, is_default, type_only, source };
        let ghost iv = intent@;
        self.export_intents.push(intent);
        assert(vec_view(self.export_intents@) =~= st.intents + seq![iv]);
    }

    /// Records an exported declaration and an export of each name it declares.
    pub fn collect_export_decl(&mut self, decl: &DeclSource)
        ensures
            final(self).file_path() == old(self).file_path(),
            final(self).state() == module_decl_spec(old(self).state(), ModuleItemSource::ExportDecl(*decl)),
    {
        let collected = self.collect_decl(decl, None, true);
        let ghost st = self.state();
        let ghost cv = vec_view(collected@);
        let n = collected.len();
        let mut i: usize = 0;
        while i < n
            invariant
                n == collected@.len(),
                cv == vec_view(collected@),
                0 <= i <= n,
                self.file_path() == old(self).file_path(),
                self.state() == add_intents(st, declared_exports(cv.take(i as int))),
            decreases n - i,
        {
            let entry = &collected[i];
            self.push_intent(
                entry.name.clone(),
                entry.name.clone(),
                Some(entry.id.clone()),
                false,
                false,
                None,
            );
            assert(declared_exports(cv.take(i + 1)) =~= declared_exports(cv.take(i as int)) + seq![
                declared_exports(cv)[i as int],
            ]);
            assert(self.state() =~= add_intents(st, declared_exports(cv.take(i + 1))));
            i = i + 1;
        }
        assert(cv.take(n as int) =~= cv);
    }

    /// Records the exports of an `export { ... }` clause.
    fn collect_named_exports(&mut self, source: &Option<String>, specifiers: &Vec<ExportSpecifierSource>)
        ensures
            final(self).file_path() == old(self).file_path(),
            final(self).state() == add_intents(
                old(self).state(),
                specifiers@.map_values(|sp: ExportSpecifierSource| specifier_export(opt_str(*source), sp)),
            ),
    {
        let ghost st = self.state();
        let ghost all = specifiers@.map_values(|sp: ExportSpecifierSource| specifier_export(opt_str(*source), sp));
        let n = specifiers.len();
        let mut i: usize = 0;
        assert(all.take(0) =~= Seq::<ExportView>::empty());
        assert(self.state() =~= add_intents(st, all.take(0)));
        while i < n
            invariant
                n == specifiers@.len(),
                all == specifiers@.map_values(|sp: ExportSpecifierSource| specifier_export(opt_str(*source), sp)),
                0 <= i <= n,
                self.file_path() == old(self).file_path(),
                self.state() == add_intents(st, all.take(i as int)),
            decreases n - i,
        {
            match &specifiers[i] {
                ExportSpecifierSource::Named { local, exported, type_only } => {
                    let exported_name = match exported {
                        Some(e) => e.clone(),
                        None => local.clone(),
                    };
                    self.push_intent(exported_name, local.clone(), None, false, *type_only, clone_opt_str(source));
                },
                ExportSpecifierSource::Default { name } => {
                    self.push_intent(name.clone(), "default".to_owned(), None, true, false, clone_opt_str(source));
                },
                ExportSpecifierSource::Namespace { name } => {
                    self.push_intent(name.clone(), name.clone(), None, false, false, clone_opt_str(source));
                },
            }
            assert(all.take(i + 1) =~= all.take(i as int) + seq![all[i as int]]);
            assert(self.state() =~= add_intents(st, all.take(i + 1)));
            i = i + 1;
        }
        assert(all.take(n as int) =~= all);
    }

    /// Records a default export of a function, a class or an interface declaration.
    pub fn collect_export_default_decl(&mut self, item: &ModuleItemSource)
        ensures
            final(self).file_path() == old(self).file_path(),
            final(self).state() == export_default_decl_spec(old(self).state(), *item),
    {
        match item {
            ModuleItemSource::ExportDefaultFunction { ident, function, at } => {
                let name = match ident {
                    Some(n) => n.clone(),
                    None => "default".to_owned(),
                };
                let entity = build_function_entity(
                    name.as_str(),
                    name.as_str(),
                    None,
                    function,
                    at,
                    "export_default_function",
                );
                let entity_id = entity.id.clone();
                self.push_entity(entity, true);
                self.push_intent("default".to_owned(), name, Some(entity_id), true, false, None);
            },
            ModuleItemSource::ExportDefaultClass { ident, class, at } => {
                let name = match ident {
                    Some(n) => n.clone(),
                    None => "default".to_owned(),
                };
                let class_id = self.collect_class_entity(
                    name.as_str(),
                    name.as_str(),
                    None,
                    class,
                    at,
                    true,
                    "export_default_class",
                );
                self.push_intent("default".to_owned(), name, Some(class_id), true, false, None);
            },
            ModuleItemSource::ExportDefaultInterface(interface_decl) => {
                let name = interface_decl.name.clone();
                let entity = build_interface_entity(
                    name.as_str(),
                    name.as_str(),
                    None,
                    interface_decl,
                    "export_default_interface",
                );
                let entity_id = entity.id.clone();
                self.push_entity(entity, true);
                self.push_intent("default".to_owned(), name, Some(entity_id), true, true, None);
            },
            _ => {},
        }
    }

    /// Records a default export of an expression.
    pub fn collect_export_default_expr(&mut self, item: &ModuleItemSource)
        ensures
            final(self).file_path() == old(self).file_path(),
            final(self).state() == export_default_expr_spec(old(self).state(), *item),
    {
        match item {
            ModuleItemSource::ExportDefaultFunctionExpr { ident, function, at } => {
                let name = match ident {
                    Some(n) => n.clone(),
                    None => "default".to_owned(),
                };
                let entity = build_function_entity(
                    name.as_str(),
                    name.as_str(),
                    None,
                    function,
                    at,
                    "export_default_function_expr",
                );
                let entity_id = entity.id.clone();
                self.push_entity(entity, true);
                self.push_intent("default".to_owned(), name, Some(entity_id), true, false, None);
            },
            ModuleItemSource::ExportDefaultClassExpr { ident, class, at } => {
                let name = match ident {
                    Some(n) => n.clone(),
                    None => "default".to_owned(),
                };
                let class_id = self.collect_class_entity(
                    name.as_str(),
                    name.as_str(),
                    None,
                    class,
                    at,
                    true,
                    "export_default_class_expr",
                );
                self.push_intent("default".to_owned(), name, Some(class_id), true, false, None);
            },
            ModuleItemSource::ExportDefaultExpr => {
                self.push_intent("default".to_owned(), "default".to_owned(), None, true, false, None);
            },
            _ => {},
        }
    }

    /// Records an item that exports.
    pub fn collect_module_decl(&mut self, item: &ModuleItemSource)
        ensures
            final(self).file_path() == old(self).file_path(),
            final(self).state() == module_decl_spec(old(self).state(), *item),
    {
        match item {
            ModuleItemSource::ExportDecl(decl) => self.collect_export_decl(decl),
            ModuleItemSource::ExportNamed { source, specifiers } => {
                self.collect_named_exports(source, specifiers)
            },
            ModuleItemSource::ExportDefaultFunction { .. } => self.collect_export_default_decl(item),
            ModuleItemSource::ExportDefaultClass { .. } => self.collect_export_default_decl(item),
            ModuleItemSource::ExportDefaultInterface(_) => self.collect_export_default_decl(item),
            ModuleItemSource::ExportDefaultFunctionExpr { .. } => self.collect_export_default_expr(item),
            ModuleItemSource::ExportDefaultClassExpr { .. } => self.collect_export_default_expr(item),
            ModuleItemSource::ExportDefaultExpr => self.collect_export_default_expr(item),
            ModuleItemSource::ExportAll { module, type_only } => {
                self.push_intent("*".to_owned(), "*".to_owned(), None, false, *type_only, Some(module.clone()));
            },
            _ => {},
        }
    }

    /// Records one item of the module body.
    pub fn collect_module_item(&mut self, item: &ModuleItemSource)
        ensures
            final(self).file_path() == old(self).file_path(),
            final(self).state() == item_spec(old(self).state(), *item),
    {
        match item {
            ModuleItemSource::Decl(decl) => {
                let _ = self.collect_decl(decl, None, false);
            },
            ModuleItemSource::Other => {},
            _ => self.collect_module_decl(item),
        }
    }

    /// Records every item, then sorts the entities by path, lists the top-level ones and
    /// resolves and sorts the exports.
    pub fn build(self, items: &Vec<ModuleItemSource>, parser_version: &str) -> (r: FileSemanticIndex)
        ensures
            r@ == finished_index(self.file_path(), parser_version@, items_spec(self.state(), items@)),
    {
        let ghost st0 = self.state();
        let ghost path = self.file_path();
        let mut this = self;
        let n = items.len();
        let mut i: usize = 0;
        assert(items@.take(0) =~= Seq::<ModuleItemSource>::empty());
        while i < n
            invariant
                n == items@.len(),
                0 <= i <= n,
                this.file_path() == path,
                this.state() == items_spec(st0, items@.take(i as int)),
            decreases n - i,
        {
            this.collect_module_item(&items[i]);
            assert(items@.take(i + 1).drop_last() =~= items@.take(i as int));
            assert(items@.take(i + 1).last() == items@[i as int]);
            i = i + 1;
        }
        assert(items@.take(n as int) =~= items@);
        let ghost st = this.state();
        let TypeScriptIndexBuilder { path: file_path, entities, name_to_id, export_intents } = this;
        let entities = stable_sort(entities);
        let roots = root_entity_ids(&entities);
        let exports = resolve_exports(export_intents, &name_to_id);
        let exports = stable_sort(exports);
        FileSemanticIndex {
            language: LanguageId::TypeScript,
            path: file_path,
            entities,
            root_entities: roots,
            exports,
            parser_version: parser_version.to_owned(),
        }
    }
}

fn root_entity_ids(entities: &Vec<SemanticEntity>) -> (r: Vec<String>)
    ensures
        crate::model::str_seq(r@) == root_ids(vec_view(entities@)),
{
    let ghost v = vec_view(entities@);
    let mut out: Vec<String> = Vec::new();
    let n = entities.len();
    let mut i: usize = 0;
    assert(v.take(0) =~= Seq::<EntityView>::empty());
    assert(crate::model::str_seq(out@) =~= Seq::<Seq<char>>::empty());
    while i < n
        invariant
            n == entities@.len(),
            v == vec_view(entities@),
            0 <= i <= n,
            crate::model::str_seq(out@) == root_ids(v.take(i as int)),
        decreases n - i,
    {
        let ghost t = v.take(i + 1);
        assert(t.drop_last() =~= v.take(i as int));
        assert(t.last() == entities@[i as int]@);
        if entities[i].parent.is_none() {
            let ghost before = crate::model::str_seq(out@);
            out.push(entities[i].id.clone());
            assert(crate::model::str_seq(out@) =~= before.push(entities@[i as int]@.id));
        }
        i = i + 1;
    }
    assert(v.take(n as int) =~= v);
    out
}

fn resolve_exports(intents: Vec<ExportBinding>, names: &Vec<NameEntry>) -> (r: Vec<ExportBinding>)
    ensures
        vec_view(r@) == vec_view(intents@).map_values(
            |x: ExportView| resolve_export(vec_view(names@), x),
        ),
{
    let ghost nv = vec_view(names@);
    let ghost all = vec_view(intents@).map_values(|x: ExportView| resolve_export(nv, x));
    let mut out: Vec<ExportBinding> = Vec::new();
    let n = intents.len();
    let mut i: usize = 0;
    assert(vec_view(out@) =~= all.take(0));
    while i < n
        invariant
            n == intents@.len(),
            nv == vec_view(names@),
            all == vec_view(intents@).map_values(|x: ExportView| resolve_export(nv, x)),
            0 <= i <= n,
            vec_view(out@) == all.take(i as int),
        decreases n - i,
    {
        let intent = &intents[i];
        let entity_id = match &intent.entity_id {
            Some(id) => Some(id.clone()),
            None => lookup_entry(names, intent.local_name.as_str()),
        };
        let resolved = ExportBinding {
            exported_name: intent.exported_name.clone(),
            local_name: intent.local_name.clone(),
            entity_id,
            is_default: intent.is_default,
            type_only: intent.type_only,
            source: clone_opt_str(&intent.source),
        };
        let ghost before = vec_view(out@);
        assert(all[i as int] == resolve_export(nv, intents@[i as int]@));
        assert(resolved@ == all[i as int]);
        out.push(resolved);
        assert(vec_view(out@) =~= before.push(all[i as int]));
        assert(vec_view(out@) =~= all.take(i + 1));
        i = i + 1;
    }
    assert(all.take(n as int) =~= all);
    out
}

fn lookup_entry(names: &Vec<NameEntry>, name: &str) -> (r: Option<String>)
    ensures
        opt_str(r) == name_lookup(vec_view(names@), name@),
{
    let ghost v = vec_view(names@);
    let n = names.len();
    let mut i: usize = 0;
    assert(v.skip(0) =~= v);
    while i < n
        invariant
            n == names@.len(),
            v == vec_view(names@),
            0 <= i <= n,
            name_lookup(v, name@) == name_lookup(v.skip(i as int), name@),
        decreases n - i,
    {
        assert(v.skip(i as int)[0] == names@[i as int]@);
        if str_equal(names[i].name.as_str(), name) {
            return Some(names[i].id.clone());
        }
        assert(v.skip(i as int).drop_first() =~= v.skip(i + 1));
        i = i + 1;
    }
    None
}

/// The version string that TypeScript indexes carry.
pub open spec fn typescript_parser_version() -> Seq<char> {
    "semantit-ts@0.1.0+swc_ecma_parser@35.0.0"@
}

/// The extensions of the TypeScript files that the parser takes.
pub open spec fn is_typescript_extension(e: Seq<char>) -> bool {
    e == "ts"@ || e == "tsx"@ || e == "mts"@ || e == "cts"@
}

/// Whether the file at `path` is a TypeScript file.
pub open spec fn typescript_accepts(path: Seq<char>) -> bool {
    match path_extension(path) {
        Some(e) => is_typescript_extension(e),
        None => false,
    }
}

/// The index of the TypeScript file at `path` whose module body is `items`.
pub open spec fn typescript_index(path: Seq<char>, items: Seq<ModuleItemSource>) -> crate::model::IndexView {
    finished_index(path, typescript_parser_version(), items_spec(empty_state(), items))
}

/// The front end that parses a TypeScript source and lowers its module body to the declarations
/// that the index builder reads; `tsx` asks for JSX syntax. The library states nothing of what
/// an implementation returns.
pub trait SourceLowering {
    fn lower_module(&self, path: &str, source: &str, tsx: bool) -> Result<Vec<ModuleItemSource>, ParseError>;
}

/// The TypeScript parser over a front end: it takes the files that `TypeScriptParser` takes and
/// indexes what the front end lowers them to.
pub struct TypeScriptLanguage<L: SourceLowering> {
    pub lowering: L,
}

impl<L: SourceLowering> TypeScriptLanguage<L> {
    pub fn new(lowering: L) -> (r: TypeScriptLanguage<L>)
        ensures
            r.lowering == lowering,
    {
        TypeScriptLanguage { lowering }
    }
}

impl<L: SourceLowering> LanguageParser for TypeScriptLanguage<L> {
    open spec fn accepts(&self, path: Seq<char>) -> bool {
        typescript_accepts(path)
    }

    fn language(&self) -> (r: LanguageId)
        ensures
            r == LanguageId::TypeScript,
    {
        TypeScriptParser.language()
    }

    fn parser_version(&self) -> (r: &'static str)
        ensures
            r@ == typescript_parser_version(),
    {
        TypeScriptParser.parser_version()
    }

    fn supports_path(&self, path: &str) -> (r: bool) {
        TypeScriptParser.supports_path(path)
    }

    /// Lowers the source (with JSX syntax for a `.tsx` file) and indexes the declarations; the
    /// front end's error is handed back as it is.
    fn parse(&self, input: ParseInput<'_>) -> (r: Result<FileSemanticIndex, ParseError>)
        ensures
            r matches Ok(index) ==> exists|items: Vec<ModuleItemSource>|
                call_ensures(
                    L::lower_module,
                    (
                        &self.lowering,
                        input.path,
                        input.source,
                        path_extension(input.path@) == Some("tsx"@),
                    ),
                    Ok(items),
                ) && index@ == typescript_index(input.path@, items@),
            r matches Err(e) ==> call_ensures(
                L::lower_module,
                (
                    &self.lowering,
                    input.path,
                    input.source,
                    path_extension(input.path@) == Some("tsx"@),
                ),
                Err(e),
            ),
    {
        let tsx = TypeScriptParser.is_tsx(input.path);
        let lowered = self.lowering.lower_module(input.path, input.source, tsx);
        match lowered {
            Ok(items) => Ok(TypeScriptParser.build_index(input.path, &items)),
            Err(e) => Err(e),
        }
    }
}

/// The TypeScript parser: which files it takes and how it indexes their declarations.
#[derive(Debug, Default, Clone, Copy)]
pub struct TypeScriptParser;

impl TypeScriptParser {
    pub fn language(&self) -> (r: LanguageId)
        ensures
            r == LanguageId::TypeScript,
    {
        LanguageId::TypeScript
    }

    pub fn parser_version(&self) -> (r: &'static str)
        ensures
            r@ == typescript_parser_version(),
    {
        "semantit-ts@0.1.0+swc_ecma_parser@35.0.0"
    }

    /// Whether the file at `path` has a `.ts`, `.tsx`, `.mts` or `.cts` extension.
    pub fn supports_path(&self, path: &str) -> (r: bool)
        ensures
            r == typescript_accepts(path@),
    {
        match extension(path) {
            Some(e) => str_equal(e.as_str(), "ts") || str_equal(e.as_str(), "tsx") || str_equal(
                e.as_str(),
                "mts",
            ) || str_equal(e.as_str(), "cts"),
            None => false,
        }
    }

    /// Whether the file at `path` is parsed with JSX syntax (a `.tsx` file).
    pub fn is_tsx(&self, path: &str) -> (r: bool)
        ensures
            r == (path_extension(path@) == Some("tsx"@)),
    {
        match extension(path) {
            Some(e) => str_equal(e.as_str(), "tsx"),
            None => false,
        }
    }

    /// What parsing the file at `path` came to, from the parser's fatal error, if any, and the
    /// errors it recovered from: the fatal error first, then the recovered ones joined by `; `.
    pub fn parse_outcome(&self, path: &str, fatal: Option<String>, recovered: &Vec<String>) -> (r: Result<(), ParseError>)
        ensures
            match fatal {
                Some(message) => r matches Err(ParseError::ParserFailure { language, path: p, message: m })
                    && language == LanguageId::TypeScript && p@ == path@ && m@ == message@,
                None => if recovered@.len() == 0 {
                    r is Ok
                } else {
                    r matches Err(ParseError::ParserFailure { language, path: p, message: m })
                        && language == LanguageId::TypeScript && p@ == path@ && m@ == joined(
                        str_seq(recovered@),
                        "; "@,
                    )
                },
            },
    {
        match fatal {
            Some(message) => Err(
                ParseError::ParserFailure { language: LanguageId::TypeScript, path: path.to_owned(), message },
            ),
            None => if recovered.len() == 0 {
                Ok(())
            } else {
                Err(
                    ParseError::ParserFailure {
                        language: LanguageId::TypeScript,
                        path: path.to_owned(),
                        message: join_with(recovered, "; "),
                    },
                )
            },
        }
    }

    /// The index of the file at `path` from the items of its module body.
    pub fn build_index(&self, path: &str, items: &Vec<ModuleItemSource>) -> (r: FileSemanticIndex)
        ensures
            r@ == typescript_index(path@, items@),
    {
        let builder = TypeScriptIndexBuilder::new(path);
        builder.build(items, self.parser_version())
    }
}

proof fn lemma_export_order()
    ensures
        strict_weak_order::<ExportBinding>(),
{
    assert forall|a: ExportView, b: ExportView| #[trigger]
        ExportBinding::goes_first(a, b) implies !ExportBinding::goes_first(b, a) by {
        if chars_lt(a.exported_name, b.exported_name) {
            lemma_chars_lt_asymmetric(a.exported_name, b.exported_name);
        } else {
            lemma_chars_lt_asymmetric(a.local_name, b.local_name);
            lemma_chars_lt_irreflexive(a.exported_name);
        }
    }
    assert forall|a: ExportView, b: ExportView, c: ExportView|
        #[trigger] ExportBinding::goes_first(a, b) && !#[trigger] ExportBinding::goes_first(
            c,
            b,
        ) implies ExportBinding::goes_first(a, c) by {
        if c.exported_name != b.exported_name {
            lemma_chars_lt_total(c.exported_name, b.exported_name);
            if chars_lt(a.exported_name, b.exported_name) {
                lemma_chars_lt_transitive(a.exported_name, b.exported_name, c.exported_name);
            }
        } else if !chars_lt(a.exported_name, b.exported_name) {
            if c.local_name != b.local_name {
                lemma_chars_lt_total(c.local_name, b.local_name);
                lemma_chars_lt_transitive(a.local_name, b.local_name, c.local_name);
            }
        }
    }
}

/// The entities of a TypeScript index are ordered by path, and its exports by exported name,
/// then local name.
pub proof fn index_is_ordered(path: Seq<char>, items: Seq<ModuleItemSource>)
    ensures
        sorted_by::<SemanticEntity>(typescript_index(path, items).entities),
        sorted_by::<ExportBinding>(typescript_index(path, items).exports),
{
    let st = items_spec(empty_state(), items);
    entity_order_is_strict_weak();
    lemma_export_order();
    sorting_sorts::<SemanticEntity>(st.entities);
    sorting_sorts::<ExportBinding>(resolved_exports(st));
}

/// A file whose name is a non-empty stem followed by `.ts`, `.tsx`, `.mts` or `.cts` is a
/// TypeScript file, whatever dots the stem holds (`app.component.ts`, `types.d.ts`).
pub proof fn typescript_suffix_is_accepted(path: Seq<char>, stem: Seq<char>, ext: Seq<char>)
    requires
        stem.len() > 0,
        is_typescript_extension(ext),
        path_file_name(path) == Some(stem + seq!['.'] + ext),
    ensures
        typescript_accepts(path),
{
    reveal_strlit("ts");
    reveal_strlit("tsx");
    reveal_strlit("mts");
    reveal_strlit("cts");
    assert forall|j: int| 0 <= j < ext.len() implies ext[j] != '.' by {}
    crate::parser::extension_of_stem_and_suffix(stem, ext);
}

} // verus!
