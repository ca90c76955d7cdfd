use vstd::prelude::*;

use crate::deps::{canonical_dependencies, dependency_list, DependencyCollector};
use crate::hash::{
    blake3_hex, build_entity_id, build_full_hash, build_shape_hash, entity_id_of, full_hash_of,
    hash_string, normalize_whitespace, shape_hash_of,
};
use crate::model::{
    clone_opt_str, metadata_insert, metadata_store, opt_str, str_seq, vec_view, EntityKind,
    EntityView, MetadataEntry, MetadataValue, MetadataValueView, SemanticEntity, SpanRange,
};
use crate::text::{as_opt_ref, concat, concat3, join_with, joined, normalized, opt_ref};
use crate::ts_render::{
    build_class_signature, build_class_signature_shape, build_constructor_signature,
    build_constructor_signature_shape, build_function_signature, build_function_signature_shape,
    build_interface_signature, build_interface_signature_shape, build_method_signature,
    build_method_signature_shape, build_private_method_signature,
    build_private_method_signature_shape, build_type_alias_signature,
    build_type_alias_signature_shape, build_variable_signature, build_variable_signature_shape,
    class_signature, constructor_signature, expression_body, function_signature,
    interface_signature, method_signature, private_method_signature, render_expression_body,
    type_alias_signature, var_kind_text, variable_shape, variable_signature,
};
use crate::ts_source::{
    ClassMemberSource, ClassSource, ConstructorSource, DeclaratorSource, FunctionSource,
    InitSource, InterfaceSource, MethodKind, MethodSource, PrivateMethodSource, SourceSpan,
    TypeAliasSource, VarKind,
};

verus! {

/// The anchor of a declaration at the top of a module.
pub open spec fn module_anchor() -> Seq<char> {
    "<module>"@
}

/// The class that a member belongs to: its id and its path.
#[derive(Debug)]
pub struct ParentContext {
    pub id: String,
    pub path: String,
}

pub open spec fn parent_view(p: Option<&ParentContext>) -> Option<(Seq<char>, Seq<char>)> {
    match p {
        Some(c) => Some((c.id@, c.path@)),
        None => None,
    }
}

/// The path of a declaration named `name` under `parent`: `Parent#name`, or `Parent.name` for
/// a static member, or the bare name at the top of the module.
pub open spec fn entity_path(parent: Option<(Seq<char>, Seq<char>)>, name: Seq<char>, is_static: bool) -> Seq<char> {
    match parent {
        Some((_, path)) => path + (if is_static {
            "."@
        } else {
            "#"@
        }) + name,
        None => name,
    }
}

/// The anchor that ids are taken relative to: the parent's path, or the module.
pub open spec fn anchor_of(parent: Option<(Seq<char>, Seq<char>)>) -> Seq<char> {
    match parent {
        Some((_, path)) => path,
        None => module_anchor(),
    }
}

pub open spec fn parent_id(parent: Option<(Seq<char>, Seq<char>)>) -> Option<Seq<char>> {
    match parent {
        Some((id, _)) => Some(id),
        None => None,
    }
}

pub fn build_entity_path(parent: Option<&ParentContext>, name: &str, is_static: bool) -> (r: String)
    ensures
        r@ == entity_path(parent_view(parent), name@, is_static),
{
    match parent {
        Some(p) => concat3(p.path.as_str(), if is_static {
            "."
        } else {
            "#"
        }, name),
        None => name.to_owned(),
    }
}

pub fn parent_anchor(parent: Option<&ParentContext>) -> (r: String)
    ensures
        r@ == anchor_of(parent_view(parent)),
{
    match parent {
        Some(p) => p.path.clone(),
        None => "<module>".to_owned(),
    }
}

/// The digest of a body's text with its whitespace normalized; no body hashes as empty text.
pub open spec fn optional_text_hash(value: Option<Seq<char>>) -> Seq<char> {
    blake3_hex(
        vstd::utf8::encode_utf8(
            match value {
                Some(t) => normalized(t),
                None => seq![],
            },
        ),
    )
}

pub fn hash_optional_text(value: Option<&str>) -> (r: String)
    ensures
        r@ == optional_text_hash(opt_ref(value)),
{
    let text = match value {
        Some(v) => normalize_whitespace(v),
        None => String::new(),
    };
    hash_string(text.as_str())
}

/// The dependencies of a declaration whose walk met `identifiers`.
pub fn collect_dependencies(identifiers: &Vec<String>) -> (r: Vec<String>)
    ensures
        str_seq(r@) == dependency_list(str_seq(identifiers@).to_set()),
        str_seq(r@).to_set() == str_seq(identifiers@).to_set(),
{
    let ids = identifiers.clone();
    assert(str_seq(ids@) == str_seq(identifiers@));
    canonical_dependencies(ids)
}

pub open spec fn str_value(s: Seq<char>) -> MetadataValueView {
    MetadataValueView::Str(s)
}

/// The metadata that every entity carries beside what its declaration adds.
pub open spec fn entity_metadata(
    metadata: Seq<(Seq<char>, MetadataValueView)>,
    shape: Seq<char>,
    anchor: Seq<char>,
) -> Seq<(Seq<char>, MetadataValueView)> {
    metadata_store(
        metadata_store(metadata, "signature_shape"@, str_value(shape)),
        "parent_anchor"@,
        str_value(anchor),
    )
}

/// The entity of a declaration, from its header, body and what it refers to: the id and the
/// shape hash are taken over the whitespace-normalized shape, the signature hash over the
/// normalized signature.
pub open spec fn entity_spec(
    kind: EntityKind,
    name: Seq<char>,
    path: Seq<char>,
    parent: Option<Seq<char>>,
    anchor: Seq<char>,
    range: SpanRange,
    signature: Seq<char>,
    shape: Seq<char>,
    body_hash: Seq<char>,
    snippet: Option<Seq<char>>,
    body: Option<Seq<char>>,
    deps: Set<Seq<char>>,
    children: Seq<Seq<char>>,
    metadata: Seq<(Seq<char>, MetadataValueView)>,
) -> EntityView {
    let signature_hash = blake3_hex(vstd::utf8::encode_utf8(normalized(signature)));
    EntityView {
        id: entity_id_of(kind, anchor, name, normalized(shape)),
        kind,
        name,
        signature,
        path,
        parent,
        body_hash,
        full_hash: full_hash_of(kind, signature_hash, body_hash),
        signature_hash,
        shape_hash: shape_hash_of(kind, anchor, normalized(shape)),
        span: range,
        semantic_span: range,
        dependencies: dependency_list(deps),
        children,
        metadata: entity_metadata(metadata, shape, anchor),
        snippet,
        body,
    }
}

pub fn build_entity_with_anchor(
    kind: EntityKind,
    name: &str,
    path: &str,
    parent: Option<String>,
    anchor: &str,
    range: SpanRange,
    signature: String,
    signature_shape: String,
    body_hash: String,
    snippet: Option<String>,
    body: Option<String>,
    dependencies: Vec<String>,
    children: Vec<String>,
    metadata: Vec<MetadataEntry>,
) -> (r: SemanticEntity)
    ensures
        r@ == entity_spec(
            kind,
            name@,
            path@,
            opt_str(parent),
            anchor@,
            range,
            signature@,
            signature_shape@,
            body_hash@,
            opt_str(snippet),
            opt_str(body),
            str_seq(dependencies@).to_set(),
            str_seq(children@),
            vec_view(metadata@),
        ),
{
    let dependencies = canonical_dependencies(dependencies);
    let normalized_signature = normalize_whitespace(signature.as_str());
    let normalized_shape = normalize_whitespace(signature_shape.as_str());
    let signature_hash = hash_string(normalized_signature.as_str());
    let id = build_entity_id(kind, anchor, name, normalized_shape.as_str());
    let shape_hash = build_shape_hash(kind, anchor, normalized_shape.as_str());
    let full_hash = build_full_hash(kind, signature_hash.as_str(), body_hash.as_str());
    let mut metadata = metadata;
    let shape_value = MetadataValue::Str(signature_shape.clone());
    metadata_insert(&mut metadata, "signature_shape".to_owned(), shape_value);
    metadata_insert(&mut metadata, "parent_anchor".to_owned(), MetadataValue::Str(anchor.to_owned()));
    SemanticEntity {
        id,
        kind,
        name: name.to_owned(),
        signature,
        path: path.to_owned(),
        parent,
        body_hash,
        full_hash,
        signature_hash,
        shape_hash,
        span: range,
        semantic_span: range,
        dependencies,
        children,
        metadata,
        snippet,
        body,
    }
}

pub fn build_entity(
    kind: EntityKind,
    name: &str,
    path: &str,
    parent: Option<&ParentContext>,
    range: SpanRange,
    signature: String,
    signature_shape: String,
    body_hash: String,
    snippet: Option<String>,
    body: Option<String>,
    dependencies: Vec<String>,
    children: Vec<String>,
    metadata: Vec<MetadataEntry>,
) -> (r: SemanticEntity)
    ensures
        r@ == entity_spec(
            kind,
            name@,
            path@,
            parent_id(parent_view(parent)),
            anchor_of(parent_view(parent)),
            range,
            signature@,
            signature_shape@,
            body_hash@,
            opt_str(snippet),
            opt_str(body),
            str_seq(dependencies@).to_set(),
            str_seq(children@),
            vec_view(metadata@),
        ),
{
    let parent_id = match parent {
        Some(p) => Some(p.id.clone()),
        None => None,
    };
    let anchor = parent_anchor(parent);
    build_entity_with_anchor(
        kind,
        name,
        path,
        parent_id,
        anchor.as_str(),
        range,
        signature,
        signature_shape,
        body_hash,
        snippet,
        body,
        dependencies,
        children,
        metadata,
    )
}

/// Metadata that names the kind of source a declaration came from.
pub open spec fn source_metadata(source_kind: Seq<char>) -> Seq<(Seq<char>, MetadataValueView)> {
    metadata_store(seq![], "source_kind"@, str_value(source_kind))
}

fn source_kind_metadata(source_kind: &str) -> (r: Vec<MetadataEntry>)
    ensures
        vec_view(r@) == source_metadata(source_kind@),
{
    let mut m: Vec<MetadataEntry> = Vec::new();
    assert(vec_view(m@) =~= Seq::<(Seq<char>, MetadataValueView)>::empty());
    metadata_insert(&mut m, "source_kind".to_owned(), MetadataValue::Str(source_kind.to_owned()));
    m
}

pub open spec fn function_entity(
    name: Seq<char>,
    path: Seq<char>,
    parent: Option<(Seq<char>, Seq<char>)>,
    f: FunctionSource,
    at: SourceSpan,
    source_kind: Seq<char>,
) -> EntityView {
    entity_spec(
        EntityKind::Function,
        name,
        path,
        parent_id(parent),
        anchor_of(parent),
        at.range,
        function_signature(name, f),
        function_signature("__NAME__"@, f),
        optional_text_hash(opt_str(f.body)),
        Some(at.snippet@),
        opt_str(f.body),
        str_seq(f.identifiers@).to_set(),
        seq![],
        source_metadata(source_kind),
    )
}

pub fn build_function_entity(
    name: &str,
    path: &str,
    parent: Option<&ParentContext>,
    function: &FunctionSource,
    at: &SourceSpan,
    source_kind: &str,
) -> (r: SemanticEntity)
    ensures
        r@ == function_entity(name@, path@, parent_view(parent), *function, *at, source_kind@),
{
    let signature = build_function_signature(name, function);
    let signature_shape = build_function_signature_shape(function);
    let body = clone_opt_str(&function.body);
    let body_hash = hash_optional_text(as_opt_ref(&body));
    let dependencies = collect_dependencies(&function.identifiers);
    let metadata = source_kind_metadata(source_kind);
    let children: Vec<String> = Vec::new();
    assert(str_seq(children@) =~= Seq::<Seq<char>>::empty());
    let r = build_entity(
        EntityKind::Function,
        name,
        path,
        parent,
        at.range,
        signature,
        signature_shape,
        body_hash,
        Some(at.snippet.clone()),
        body,
        dependencies,
        children,
        metadata,
    );
    r
}

pub open spec fn interface_entity(
    name: Seq<char>,
    path: Seq<char>,
    parent: Option<(Seq<char>, Seq<char>)>,
    i: InterfaceSource,
    source_kind: Seq<char>,
) -> EntityView {
    entity_spec(
        EntityKind::Interface,
        name,
        path,
        parent_id(parent),
        anchor_of(parent),
        i.at.range,
        interface_signature(name, i),
        interface_signature("__NAME__"@, i),
        optional_text_hash(Some(i.body@)),
        Some(i.at.snippet@),
        Some(i.body@),
        str_seq(i.identifiers@).to_set(),
        seq![],
        source_metadata(source_kind),
    )
}

pub fn build_interface_entity(
    name: &str,
    path: &str,
    parent: Option<&ParentContext>,
    interface_decl: &InterfaceSource,
    source_kind: &str,
) -> (r: SemanticEntity)
    ensures
        r@ == interface_entity(name@, path@, parent_view(parent), *interface_decl, source_kind@),
{
    let signature = build_interface_signature(name, interface_decl);
    let signature_shape = build_interface_signature_shape(interface_decl);
    let body = Some(interface_decl.body.clone());
    let body_hash = hash_optional_text(as_opt_ref(&body));
    let dependencies = collect_dependencies(&interface_decl.identifiers);
    let metadata = source_kind_metadata(source_kind);
    let children: Vec<String> = Vec::new();
    assert(str_seq(children@) =~= Seq::<Seq<char>>::empty());
    build_entity(
        EntityKind::Interface,
        name,
        path,
        parent,
        interface_decl.at.range,
        signature,
        signature_shape,
        body_hash,
        Some(interface_decl.at.snippet.clone()),
        body,
        dependencies,
        children,
        metadata,
    )
}

pub open spec fn type_alias_entity(
    name: Seq<char>,
    path: Seq<char>,
    parent: Option<(Seq<char>, Seq<char>)>,
    t: TypeAliasSource,
    source_kind: Seq<char>,
) -> EntityView {
    entity_spec(
        EntityKind::TypeAlias,
        name,
        path,
        parent_id(parent),
        anchor_of(parent),
        t.at.range,
        type_alias_signature(name, t),
        type_alias_signature("__NAME__"@, t),
        optional_text_hash(Some(t.type_ann@)),
        Some(t.at.snippet@),
        Some(t.type_ann@),
        str_seq(t.identifiers@).to_set(),
        seq![],
        source_metadata(source_kind),
    )
}

pub fn build_type_alias_entity(
    name: &str,
    path: &str,
    parent: Option<&ParentContext>,
    type_alias: &TypeAliasSource,
    source_kind: &str,
) -> (r: SemanticEntity)
    ensures
        r@ == type_alias_entity(name@, path@, parent_view(parent), *type_alias, source_kind@),
{
    let signature = build_type_alias_signature(name, type_alias);
    let signature_shape = build_type_alias_signature_shape(type_alias);
    let body = Some(type_alias.type_ann.clone());
    let body_hash = hash_optional_text(as_opt_ref(&body));
    let dependencies = collect_dependencies(&type_alias.identifiers);
    let metadata = source_kind_metadata(source_kind);
    let children: Vec<String> = Vec::new();
    assert(str_seq(children@) =~= Seq::<Seq<char>>::empty());
    build_entity(
        EntityKind::TypeAlias,
        name,
        path,
        parent,
        type_alias.at.range,
        signature,
        signature_shape,
        body_hash,
        Some(type_alias.at.snippet.clone()),
        body,
        dependencies,
        children,
        metadata,
    )
}

/// The separator between a class's path and a member's name.
pub open spec fn member_separator(is_static: bool) -> Seq<char> {
    if is_static {
        "."@
    } else {
        "#"@
    }
}

pub open spec fn constructor_entity(ctx: (Seq<char>, Seq<char>), c: ConstructorSource) -> EntityView {
    entity_spec(
        EntityKind::Method,
        "constructor"@,
        ctx.1 + "#constructor"@,
        Some(ctx.0),
        ctx.1,
        c.at.range,
        constructor_signature(c),
        constructor_signature(c),
        optional_text_hash(opt_str(c.body)),
        Some(c.at.snippet@),
        opt_str(c.body),
        str_seq(c.identifiers@).to_set(),
        seq![],
        source_metadata("constructor"@),
    )
}

pub fn build_constructor_entity(parent: &ParentContext, constructor: &ConstructorSource) -> (r:
    SemanticEntity)
    ensures
        r@ == constructor_entity((parent.id@, parent.path@), *constructor),
{
    let path = concat(parent.path.as_str(), "#constructor");
    let signature = build_constructor_signature(constructor);
    let signature_shape = build_constructor_signature_shape(constructor);
    let body = clone_opt_str(&constructor.body);
    let body_hash = hash_optional_text(as_opt_ref(&body));
    let dependencies = collect_dependencies(&constructor.identifiers);
    let metadata = source_kind_metadata("constructor");
    let children: Vec<String> = Vec::new();
    assert(str_seq(children@) =~= Seq::<Seq<char>>::empty());
    build_entity_with_anchor(
        EntityKind::Method,
        "constructor",
        path.as_str(),
        Some(parent.id.clone()),
        parent.path.as_str(),
        constructor.at.range,
        signature,
        signature_shape,
        body_hash,
        Some(constructor.at.snippet.clone()),
        body,
        dependencies,
        children,
        metadata,
    )
}

pub open spec fn method_kind_name(k: MethodKind) -> Seq<char> {
    match k {
        MethodKind::Method => "method"@,
        MethodKind::Getter => "getter"@,
        MethodKind::Setter => "setter"@,
    }
}

pub open spec fn method_metadata(k: MethodKind) -> Seq<(Seq<char>, MetadataValueView)> {
    metadata_store(
        metadata_store(source_metadata("class_method"@), "is_private"@, MetadataValueView::Bool(false)),
        "method_kind"@,
        str_value(method_kind_name(k)),
    )
}

pub open spec fn method_entity(ctx: (Seq<char>, Seq<char>), m: MethodSource) -> EntityView {
    entity_spec(
        EntityKind::Method,
        m.key@,
        ctx.1 + member_separator(m.is_static) + m.key@,
        Some(ctx.0),
        ctx.1,
        m.at.range,
        method_signature(m.key@, m),
        method_signature("__NAME__"@, m),
        optional_text_hash(opt_str(m.function.body)),
        Some(m.at.snippet@),
        opt_str(m.function.body),
        str_seq(m.function.identifiers@).to_set(),
        seq![],
        method_metadata(m.kind),
    )
}

pub fn build_method_entity(parent: &ParentContext, method: &MethodSource) -> (r: SemanticEntity)
    ensures
        r@ == method_entity((parent.id@, parent.path@), *method),
{
    let name = method.key.as_str();
    let path = concat3(parent.path.as_str(), if method.is_static {
        "."
    } else {
        "#"
    }, name);
    let signature = build_method_signature(name, method);
    let signature_shape = build_method_signature_shape(method);
    let body = clone_opt_str(&method.function.body);
    let body_hash = hash_optional_text(as_opt_ref(&body));
    let dependencies = collect_dependencies(&method.function.identifiers);
    let mut metadata = source_kind_metadata("class_method");
    metadata_insert(&mut metadata, "is_private".to_owned(), MetadataValue::Bool(false));
    let kind_text = match method.kind {
        MethodKind::Method => "method",
        MethodKind::Getter => "getter",
        MethodKind::Setter => "setter",
    };
    metadata_insert(&mut metadata, "method_kind".to_owned(), MetadataValue::Str(kind_text.to_owned()));
    let children: Vec<String> = Vec::new();
    assert(str_seq(children@) =~= Seq::<Seq<char>>::empty());
    build_entity_with_anchor(
        EntityKind::Method,
        name,
        path.as_str(),
        Some(parent.id.clone()),
        parent.path.as_str(),
        method.at.range,
        signature,
        signature_shape,
        body_hash,
        Some(method.at.snippet.clone()),
        body,
        dependencies,
        children,
        metadata,
    )
}

pub open spec fn private_method_metadata() -> Seq<(Seq<char>, MetadataValueView)> {
    metadata_store(source_metadata("private_method"@), "is_private"@, MetadataValueView::Bool(true))
}

pub open spec fn private_method_entity(ctx: (Seq<char>, Seq<char>), m: PrivateMethodSource) -> EntityView {
    let name = "#"@ + m.key@;
    entity_spec(
        EntityKind::Method,
        name,
        ctx.1 + member_separator(m.is_static) + name,
        Some(ctx.0),
        ctx.1,
        m.at.range,
        private_method_signature(name, m),
        private_method_signature("__NAME__"@, m),
        optional_text_hash(opt_str(m.function.body)),
        Some(m.at.snippet@),
        opt_str(m.function.body),
        str_seq(m.function.identifiers@).to_set(),
        seq![],
        private_method_metadata(),
    )
}

pub fn build_private_method_entity(parent: &ParentContext, method: &PrivateMethodSource) -> (r:
    SemanticEntity)
    ensures
        r@ == private_method_entity((parent.id@, parent.path@), *method),
{
    let name = concat("#", method.key.as_str());
    let path = concat3(parent.path.as_str(), if method.is_static {
        "."
    } else {
        "#"
    }, name.as_str());
    let signature = build_private_method_signature(name.as_str(), method);
    let signature_shape = build_private_method_signature_shape(method);
    let body = clone_opt_str(&method.function.body);
    let body_hash = hash_optional_text(as_opt_ref(&body));
    let dependencies = collect_dependencies(&method.function.identifiers);
    let mut metadata = source_kind_metadata("private_method");
    metadata_insert(&mut metadata, "is_private".to_owned(), MetadataValue::Bool(true));
    let children: Vec<String> = Vec::new();
    assert(str_seq(children@) =~= Seq::<Seq<char>>::empty());
    build_entity_with_anchor(
        EntityKind::Method,
        name.as_str(),
        path.as_str(),
        Some(parent.id.clone()),
        parent.path.as_str(),
        method.at.range,
        signature,
        signature_shape,
        body_hash,
        Some(method.at.snippet.clone()),
        body,
        dependencies,
        children,
        metadata,
    )
}

/// Whether an initializer is a function or an arrow function.
pub open spec fn is_callable(init: Option<InitSource>) -> bool {
    match init {
        Some(InitSource::Function(_)) => true,
        Some(InitSource::Arrow { .. }) => true,
        _ => false,
    }
}

pub open spec fn variable_metadata(kind: VarKind, init: Option<InitSource>) -> Seq<(Seq<char>, MetadataValueView)> {
    let m = metadata_store(
        source_metadata("variable_decl"@),
        "binding_kind"@,
        str_value(var_kind_text(kind)),
    );
    if is_callable(init) {
        metadata_store(m, "callable"@, MetadataValueView::Bool(true))
    } else {
        m
    }
}

pub open spec fn variable_entity_kind(kind: VarKind) -> EntityKind {
    match kind {
        VarKind::Const => EntityKind::Constant,
        _ => EntityKind::Variable,
    }
}

/// The entity of the declarator `d`, bound to `name`.
pub open spec fn variable_entity(
    name: Seq<char>,
    path: Seq<char>,
    parent: Option<(Seq<char>, Seq<char>)>,
    kind: VarKind,
    d: DeclaratorSource,
) -> EntityView {
    let body = match d.init {
        Some(init) => Some(expression_body(init)),
        None => None,
    };
    entity_spec(
        variable_entity_kind(kind),
        name,
        path,
        parent_id(parent),
        anchor_of(parent),
        d.at.range,
        variable_signature(kind, name, d),
        variable_shape(kind, d),
        optional_text_hash(body),
        Some(d.at.snippet@),
        body,
        match d.init {
            Some(_) => str_seq(d.identifiers@).to_set(),
            None => Set::empty(),
        },
        seq![],
        variable_metadata(kind, d.init),
    )
}

pub fn build_variable_entity(
    name: &str,
    path: &str,
    parent: Option<&ParentContext>,
    kind: VarKind,
    declarator: &DeclaratorSource,
) -> (r: SemanticEntity)
    ensures
        r@ == variable_entity(name@, path@, parent_view(parent), kind, *declarator),
{
    let entity_kind = match kind {
        VarKind::Const => EntityKind::Constant,
        _ => EntityKind::Variable,
    };
    let signature = build_variable_signature(kind, name, declarator);
    let signature_shape = build_variable_signature_shape(kind, declarator);
    let body = match &declarator.init {
        Some(init) => Some(render_expression_body(init)),
        None => None,
    };
    let body_hash = hash_optional_text(as_opt_ref(&body));
    let mut metadata = source_kind_metadata("variable_decl");
    let binding_kind = match kind {
        VarKind::Const => "const",
        VarKind::Let => "let",
        VarKind::Var => "var",
    };
    metadata_insert(&mut metadata, "binding_kind".to_owned(), MetadataValue::Str(binding_kind.to_owned()));
    let callable = match &declarator.init {
        Some(InitSource::Function(_)) => true,
        Some(InitSource::Arrow { .. }) => true,
        _ => false,
    };
    if callable {
        metadata_insert(&mut metadata, "callable".to_owned(), MetadataValue::Bool(true));
    }
    let dependencies = match &declarator.init {
        Some(_) => collect_dependencies(&declarator.identifiers),
        None => {
            let v: Vec<String> = Vec::new();
            assert(str_seq(v@).to_set() =~= Set::<Seq<char>>::empty());
            v
        },
    };
    let children: Vec<String> = Vec::new();
    assert(str_seq(children@) =~= Seq::<Seq<char>>::empty());
    build_entity(
        entity_kind,
        name,
        path,
        parent,
        declarator.at.range,
        signature,
        signature_shape,
        body_hash,
        Some(declarator.at.snippet.clone()),
        body,
        dependencies,
        children,
        metadata,
    )
}

/// The entity of a class member that the index records: constructors and methods.
pub open spec fn member_entity(ctx: (Seq<char>, Seq<char>), m: ClassMemberSource) -> Option<EntityView> {
    match m {
        ClassMemberSource::Constructor(c) => Some(constructor_entity(ctx, c)),
        ClassMemberSource::Method(x) => Some(method_entity(ctx, x)),
        ClassMemberSource::PrivateMethod(p) => Some(private_method_entity(ctx, p)),
        ClassMemberSource::Other { .. } => None,
    }
}

/// The entities of the members of a class, in order.
pub open spec fn class_children(ctx: (Seq<char>, Seq<char>), ms: Seq<ClassMemberSource>) -> Seq<EntityView>
    decreases ms.len(),
{
    if ms.len() == 0 {
        seq![]
    } else {
        let rest = class_children(ctx, ms.drop_last());
        match member_entity(ctx, ms.last()) {
            Some(e) => rest.push(e),
            None => rest,
        }
    }
}

/// The rendered members of a class that are neither constructors nor methods.
pub open spec fn other_parts(ms: Seq<ClassMemberSource>) -> Seq<Seq<char>>
    decreases ms.len(),
{
    if ms.len() == 0 {
        seq![]
    } else {
        let rest = other_parts(ms.drop_last());
        match ms.last() {
            ClassMemberSource::Other { text, .. } => rest.push(text@),
            _ => rest,
        }
    }
}

/// The identifiers met in the members of a class that are neither constructors nor methods.
pub open spec fn other_identifier_set(ms: Seq<ClassMemberSource>) -> Set<Seq<char>>
    decreases ms.len(),
{
    if ms.len() == 0 {
        Set::empty()
    } else {
        let rest = other_identifier_set(ms.drop_last());
        match ms.last() {
            ClassMemberSource::Other { identifiers, .. } => rest + str_seq(identifiers@).to_set(),
            _ => rest,
        }
    }
}

pub open spec fn entity_ids(es: Seq<EntityView>) -> Seq<Seq<char>> {
    es.map_values(|e: EntityView| e.id)
}

/// The id of the class `name` declared under `parent`.
pub open spec fn class_id(name: Seq<char>, parent: Option<(Seq<char>, Seq<char>)>, c: ClassSource) -> Seq<char> {
    entity_id_of(EntityKind::Class, anchor_of(parent), name, normalized(class_signature("__NAME__"@, c)))
}

/// The entities of the members of the class `name` at `path`.
pub open spec fn class_members(
    name: Seq<char>,
    path: Seq<char>,
    parent: Option<(Seq<char>, Seq<char>)>,
    c: ClassSource,
) -> Seq<EntityView> {
    class_children((class_id(name, parent, c), path), c.members@)
}

/// The body of a class as the index sees it: its other members, one per line.
pub open spec fn class_body(c: ClassSource) -> Option<Seq<char>> {
    let parts = other_parts(c.members@);
    if parts.len() == 0 {
        None
    } else {
        Some(joined(parts, "\n"@))
    }
}

pub open spec fn class_entity(
    name: Seq<char>,
    path: Seq<char>,
    parent: Option<(Seq<char>, Seq<char>)>,
    c: ClassSource,
    at: SourceSpan,
    source_kind: Seq<char>,
) -> EntityView {
    let children = class_members(name, path, parent, c);
    entity_spec(
        EntityKind::Class,
        name,
        path,
        parent_id(parent),
        anchor_of(parent),
        at.range,
        class_signature(name, c),
        class_signature("__NAME__"@, c),
        optional_text_hash(class_body(c)),
        Some(at.snippet@),
        class_body(c),
        (str_seq(c.heritage_identifiers@).to_set() + other_identifier_set(c.members@)).remove(name),
        entity_ids(children),
        metadata_store(
            source_metadata(source_kind),
            "child_method_count"@,
            MetadataValueView::UInt(children.len() as u64),
        ),
    )
}

fn collect_into(c: &mut DependencyCollector, ids: &Vec<String>)
    requires
        old(c).wf(),
    ensures
        final(c).wf(),
        final(c)@ == old(c)@ + str_seq(ids@).to_set(),
{
    let ghost s = str_seq(ids@);
    let ghost start = c@;
    let n = ids.len();
    let mut i: usize = 0;
    while i < n
        invariant
            n == ids@.len(),
            s == str_seq(ids@),
            0 <= i <= n,
            c.wf(),
            c@ == start + s.take(i as int).to_set(),
        decreases n - i,
    {
        c.insert(ids[i].clone());
        proof {
            let (a, b) = (s.take(i + 1), s.take(i as int));
            assert forall|x: Seq<char>| a.to_set().contains(x) implies b.to_set().insert(
                s[i as int],
            ).contains(x) by {
                let k = choose|k: int| 0 <= k < a.len() && a[k] == x;
                if k < i {
                    assert(b[k] == x);
                }
            }
            assert forall|x: Seq<char>| b.to_set().insert(s[i as int]).contains(x) implies a.to_set().contains(
                x,
            ) by {
                if x == s[i as int] {
                    assert(a[i as int] == x);
                } else {
                    let k = choose|k: int| 0 <= k < b.len() && b[k] == x;
                    assert(a[k] == x);
                }
            }
            assert(a.to_set() =~= b.to_set().insert(s[i as int]));
            assert(c@ =~= start + a.to_set());
        }
        i = i + 1;
    }
    assert(s.take(n as int) =~= s);
}

/// The entity of a class and the entities of its constructors and methods, in member order.
pub fn build_class_entities(
    name: &str,
    path: &str,
    parent: Option<&ParentContext>,
    class: &ClassSource,
    at: &SourceSpan,
    source_kind: &str,
) -> (r: (SemanticEntity, Vec<SemanticEntity>))
    ensures
        r.0@ == class_entity(name@, path@, parent_view(parent), *class, *at, source_kind@),
        vec_view(r.1@) == class_members(name@, path@, parent_view(parent), *class),
{
    let signature = build_class_signature(name, class);
    let signature_shape = build_class_signature_shape(class);
    let anchor = parent_anchor(parent);
    let normalized_shape = normalize_whitespace(signature_shape.as_str());
    let class_id = build_entity_id(EntityKind::Class, anchor.as_str(), name, normalized_shape.as_str());
    let class_parent = match parent {
        Some(p) => Some(p.id.clone()),
        None => None,
    };
    let ctx = ParentContext { id: class_id, path: path.to_owned() };
    let ghost cv = (ctx.id@, ctx.path@);
    let ghost ms = class.members@;
    let mut children: Vec<SemanticEntity> = Vec::new();
    let mut child_ids: Vec<String> = Vec::new();
    let mut parts: Vec<String> = Vec::new();
    let mut collector = DependencyCollector::new();
    collect_into(&mut collector, &class.heritage_identifiers);
    let n = class.members.len();
    let mut i: usize = 0;
    assert(ms.take(0) =~= Seq::<ClassMemberSource>::empty());
    assert(vec_view(children@) =~= Seq::<EntityView>::empty());
    assert(str_seq(child_ids@) =~= Seq::<Seq<char>>::empty());
    assert(str_seq(parts@) =~= Seq::<Seq<char>>::empty());
    assert(collector@ =~= str_seq(class.heritage_identifiers@).to_set() + Set::<Seq<char>>::empty());
    while i < n
        invariant
            n == ms.len(),
            ms == class.members@,
            cv == (ctx.id@, ctx.path@),
            0 <= i <= n,
            vec_view(children@) == class_children(cv, ms.take(i as int)),
            str_seq(child_ids@) == entity_ids(vec_view(children@)),
            str_seq(parts@) == other_parts(ms.take(i as int)),
            collector.wf(),
            collector@ == str_seq(class.heritage_identifiers@).to_set() + other_identifier_set(
                ms.take(i as int),
            ),
        decreases n - i,
    {
        let ghost t = ms.take(i + 1);
        assert(t.drop_last() =~= ms.take(i as int));
        assert(t.last() == ms[i as int]);
        let ghost before_children = vec_view(children@);
        let ghost before_ids = str_seq(child_ids@);
        let ghost before_parts = str_seq(parts@);
        match &class.members[i] {
            ClassMemberSource::Constructor(constructor) => {
                let entity = build_constructor_entity(&ctx, constructor);
                let id = entity.id.clone();
                proof {
                    assert(vec_view(children@.push(entity)) =~= before_children.push(entity@));
                    assert(str_seq(child_ids@.push(id)) =~= before_ids.push(entity@.id));
                }
                child_ids.push(id);
                children.push(entity);
            },
            ClassMemberSource::Method(method) => {
                let entity = build_method_entity(&ctx, method);
                let id = entity.id.clone();
                proof {
                    assert(vec_view(children@.push(entity)) =~= before_children.push(entity@));
                    assert(str_seq(child_ids@.push(id)) =~= before_ids.push(entity@.id));
                }
                child_ids.push(id);
                children.push(entity);
            },
            ClassMemberSource::PrivateMethod(method) => {
                let entity = build_private_method_entity(&ctx, method);
                let id = entity.id.clone();
                proof {
                    assert(vec_view(children@.push(entity)) =~= before_children.push(entity@));
                    assert(str_seq(child_ids@.push(id)) =~= before_ids.push(entity@.id));
                }
                child_ids.push(id);
                children.push(entity);
            },
            ClassMemberSource::Other { text, identifiers } => {
                parts.push(text.clone());
                collect_into(&mut collector, identifiers);
            },
        }
        proof {
            assert(vec_view(children@) =~= class_children(cv, t));
            assert(str_seq(child_ids@) =~= entity_ids(vec_view(children@)));
            assert(str_seq(parts@) =~= other_parts(t));
            assert(collector@ =~= str_seq(class.heritage_identifiers@).to_set() + other_identifier_set(t));
        }
        i = i + 1;
    }
    assert(ms.take(n as int) =~= ms);
    let body = if parts.len() == 0 {
        None
    } else {
        Some(join_with(&parts, "\n"))
    };
    let body_hash = hash_optional_text(as_opt_ref(&body));
    let mut metadata = source_kind_metadata(source_kind);
    let count = child_ids.len() as u64;
    metadata_insert(&mut metadata, "child_method_count".to_owned(), MetadataValue::UInt(count));
    let dependencies = collector.finish(Some(name));
    let entity = build_entity_with_anchor(
        EntityKind::Class,
        name,
        path,
        class_parent,
        anchor.as_str(),
        at.range,
        signature,
        signature_shape,
        body_hash,
        Some(at.snippet.clone()),
        body,
        dependencies,
        child_ids,
        metadata,
    );
    (entity, children)
}

/// Whether two functions have the same header: modifiers, type parameters, parameters and
/// return type.
pub open spec fn same_function_header(f1: FunctionSource, f2: FunctionSource) -> bool {
    &&& f1.is_async == f2.is_async
    &&& f1.is_generator == f2.is_generator
    &&& f1.type_params@ == f2.type_params@
    &&& str_seq(f1.params@) == str_seq(f2.params@)
    &&& f1.return_type@ == f2.return_type@
}

/// A function keeps its id when it moves: the id depends on its name, its parent and its
/// header, not on where it stands, its body or how it was declared.
pub proof fn moved_function_keeps_its_id(
    name: Seq<char>,
    path1: Seq<char>,
    path2: Seq<char>,
    parent: Option<(Seq<char>, Seq<char>)>,
    f1: FunctionSource,
    f2: FunctionSource,
    at1: SourceSpan,
    at2: SourceSpan,
    kind1: Seq<char>,
    kind2: Seq<char>,
)
    requires
        same_function_header(f1, f2),
    ensures
        function_entity(name, path1, parent, f1, at1, kind1).id == function_entity(
            name,
            path2,
            parent,
            f2,
            at2,
            kind2,
        ).id,
        function_entity(name, path1, parent, f1, at1, kind1).shape_hash == function_entity(
            name,
            path2,
            parent,
            f2,
            at2,
            kind2,
        ).shape_hash,
        function_entity(name, path1, parent, f1, at1, kind1).signature_hash == function_entity(
            name,
            path2,
            parent,
            f2,
            at2,
            kind2,
        ).signature_hash,
{
    assert(function_signature("__NAME__"@, f1) == function_signature("__NAME__"@, f2));
    assert(function_signature(name, f1) == function_signature(name, f2));
}

/// A body's hash ignores how its words are spaced: bodies with the same words hash alike.
pub proof fn body_hash_ignores_spacing(b1: Seq<char>, b2: Seq<char>)
    requires
        crate::text::words(b1) == crate::text::words(b2),
    ensures
        optional_text_hash(Some(b1)) == optional_text_hash(Some(b2)),
{
}

/// A function's signature hash changes only with its signature: two functions with the same
/// name and header have the same signature hash, whatever their bodies.
pub proof fn signature_hash_ignores_body(
    name: Seq<char>,
    path: Seq<char>,
    parent: Option<(Seq<char>, Seq<char>)>,
    f1: FunctionSource,
    f2: FunctionSource,
    at: SourceSpan,
    source_kind: Seq<char>,
)
    requires
        same_function_header(f1, f2),
    ensures
        function_entity(name, path, parent, f1, at, source_kind).signature_hash == function_entity(
            name,
            path,
            parent,
            f2,
            at,
            source_kind,
        ).signature_hash,
        function_entity(name, path, parent, f1, at, source_kind).signature_hash == blake3_hex(
            vstd::utf8::encode_utf8(normalized(function_signature(name, f1))),
        ),
{
    assert(function_signature(name, f1) == function_signature(name, f2));
}

} // verus!
