use vstd::prelude::*;

verus! {

/// The view of an optional string.
pub open spec fn opt_str(o: Option<String>) -> Option<Seq<char>> {
    match o {
        Some(s) => Some(s@),
        None => None,
    }
}

/// The views of a vector of strings.
pub open spec fn str_seq(v: Seq<String>) -> Seq<Seq<char>> {
    v.map_values(|s: String| s@)
}

pub fn clone_opt_str(o: &Option<String>) -> (r: Option<String>)
    ensures
        opt_str(r) == opt_str(*o),
{
    match o {
        Some(s) => Some(s.clone()),
        None => None,
    }
}

pub fn clone_str_vec(v: &Vec<String>) -> (r: Vec<String>)
    ensures
        str_seq(r@) == str_seq(v@),
{
    let mut out: Vec<String> = Vec::new();
    let n = v.len();
    let mut i: usize = 0;
    while i < n
        invariant
            n == v@.len(),
            0 <= i <= n,
            out@.len() == i,
            str_seq(out@) =~= str_seq(v@.take(i as int)),
        decreases n - i,
    {
        let s = v[i].clone();
        let ghost prev = out@;
        out.push(s);
        proof {
            assert(s@ == v@[i as int]@);
            assert(out@ == prev.push(s));
            assert forall|k: int| 0 <= k < i + 1 implies #[trigger] out@[k]@ == v@[k]@ by {
                if k < i {
                    assert(str_seq(prev)[k] == str_seq(v@.take(i as int))[k]);
                    assert(prev[k] == out@[k]);
                }
            }
            assert(v@.take(i + 1) =~= v@.take(i as int).push(v@[i as int]));
            assert(str_seq(out@) =~= str_seq(v@.take(i + 1)));
        }
        i = i + 1;
    }
    assert(v@.take(n as int) =~= v@);
    out
}

#[derive(Debug, Clone, Copy, PartialEq, Eq, Structural, PartialOrd, Ord, Hash)]
pub enum LanguageId {
    TypeScript,
}

pub open spec fn language_name(l: LanguageId) -> Seq<char> {
    match l {
        LanguageId::TypeScript => "typescript"@,
    }
}

impl LanguageId {
    /// The name under which the language is shown and serialised.
    pub fn as_str(self) -> (r: &'static str)
        ensures
            r@ == language_name(self),
    {
        match self {
            LanguageId::TypeScript => {
                proof {
                    reveal_strlit("typescript");
                }
                "typescript"
            },
        }
    }
}

#[derive(Debug, Clone, Copy, PartialEq, Eq, Structural, PartialOrd, Ord, Hash)]
pub enum EntityKind {
    Function,
    Class,
    Method,
    Interface,
    TypeAlias,
    Constant,
    Variable,
}

pub open spec fn kind_name(k: EntityKind) -> Seq<char> {
    match k {
        EntityKind::Function => "function"@,
        EntityKind::Class => "class"@,
        EntityKind::Method => "method"@,
        EntityKind::Interface => "interface"@,
        EntityKind::TypeAlias => "type_alias"@,
        EntityKind::Constant => "constant"@,
        EntityKind::Variable => "variable"@,
    }
}

impl EntityKind {
    pub fn as_str(self) -> (r: &'static str)
        ensures
            r@ == kind_name(self),
    {
        match self {
            EntityKind::Function => {
                proof {
                    reveal_strlit("function");
                }
                "function"
            },
            EntityKind::Class => {
                proof {
                    reveal_strlit("class");
                }
                "class"
            },
            EntityKind::Method => {
                proof {
                    reveal_strlit("method");
                }
                "method"
            },
            EntityKind::Interface => {
                proof {
                    reveal_strlit("interface");
                }
                "interface"
            },
            EntityKind::TypeAlias => {
                proof {
                    reveal_strlit("type_alias");
                }
                "type_alias"
            },
            EntityKind::Constant => {
                proof {
                    reveal_strlit("constant");
                }
                "constant"
            },
            EntityKind::Variable => {
                proof {
                    reveal_strlit("variable");
                }
                "variable"
            },
        }
    }
}

/// Distinct kinds have distinct names, so a kind's name identifies it.
pub proof fn kind_names_are_distinct(a: EntityKind, b: EntityKind)
    requires
        a != b,
    ensures
        kind_name(a) != kind_name(b),
{
    reveal_strlit("function");
    reveal_strlit("class");
    reveal_strlit("method");
    reveal_strlit("interface");
    reveal_strlit("type_alias");
    reveal_strlit("constant");
    reveal_strlit("variable");
    assert(kind_name(a).len() != kind_name(b).len() || exists|i: int|
        0 <= i < kind_name(a).len() && kind_name(a)[i] != kind_name(b)[i]) by {
        if kind_name(a).len() == kind_name(b).len() {
            assert(kind_name(a)[0] != kind_name(b)[0] || kind_name(a)[1] != kind_name(b)[1]);
        }
    }
}


#[derive(Debug, Clone, Copy, PartialEq, Eq, Structural, PartialOrd, Ord, Hash)]
pub struct SpanLocation {
    pub byte: u32,
    pub line: usize,
    pub column: usize,
}

#[derive(Debug, Clone, Copy, PartialEq, Eq, Structural, PartialOrd, Ord, Hash)]
pub struct SpanRange {
    pub start: SpanLocation,
    pub end: SpanLocation,
}

/// A metadata value: the string, boolean and unsigned forms that entities carry.
#[derive(Debug)]
pub enum MetadataValue {
    Str(String),
    Bool(bool),
    UInt(u64),
}

pub enum MetadataValueView {
    Str(Seq<char>),
    Bool(bool),
    UInt(u64),
}

impl View for MetadataValue {
    type V = MetadataValueView;

    open spec fn view(&self) -> MetadataValueView {
        match self {
            MetadataValue::Str(s) => MetadataValueView::Str(s@),
            MetadataValue::Bool(b) => MetadataValueView::Bool(*b),
            MetadataValue::UInt(u) => MetadataValueView::UInt(*u),
        }
    }
}

impl Clone for MetadataValue {
    fn clone(&self) -> (r: Self)
        ensures
            r@ == self@,
    {
        match self {
            MetadataValue::Str(s) => MetadataValue::Str(s.clone()),
            MetadataValue::Bool(b) => MetadataValue::Bool(*b),
            MetadataValue::UInt(u) => MetadataValue::UInt(*u),
        }
    }
}

/// One key of an entity's metadata with its value.
#[derive(Debug)]
pub struct MetadataEntry {
    pub key: String,
    pub value: MetadataValue,
}

impl View for MetadataEntry {
    type V = (Seq<char>, MetadataValueView);

    open spec fn view(&self) -> (Seq<char>, MetadataValueView) {
        (self.key@, self.value@)
    }
}

impl Clone for MetadataEntry {
    fn clone(&self) -> (r: Self)
        ensures
            r@ == self@,
    {
        MetadataEntry { key: self.key.clone(), value: self.value.clone() }
    }
}

pub open spec fn vec_view<T: View>(v: Seq<T>) -> Seq<T::V> {
    v.map_values(|x: T| x@)
}

pub open spec fn opt_view<T: View>(o: Option<T>) -> Option<T::V> {
    match o {
        Some(x) => Some(x@),
        None => None,
    }
}

/// The value stored under `key` in a metadata list: the first entry with that key.
pub open spec fn metadata_lookup(m: Seq<(Seq<char>, MetadataValueView)>, key: Seq<char>) -> Option<
    MetadataValueView,
>
    decreases m.len(),
{
    if m.len() == 0 {
        None
    } else if m[0].0 == key {
        Some(m[0].1)
    } else {
        metadata_lookup(m.drop_first(), key)
    }
}

/// `m` after storing `value` under `key`: the first entry with that key is replaced, or the
/// entry is appended when there is none.
pub open spec fn metadata_store(
    m: Seq<(Seq<char>, MetadataValueView)>,
    key: Seq<char>,
    value: MetadataValueView,
) -> Seq<(Seq<char>, MetadataValueView)>
    decreases m.len(),
{
    if m.len() == 0 {
        seq![(key, value)]
    } else if m[0].0 == key {
        m.update(0, (key, value))
    } else {
        seq![m[0]] + metadata_store(m.drop_first(), key, value)
    }
}

proof fn lemma_metadata_store_at(
    m: Seq<(Seq<char>, MetadataValueView)>,
    key: Seq<char>,
    value: MetadataValueView,
    i: int,
)
    requires
        0 <= i < m.len(),
        m[i].0 == key,
        forall|j: int| 0 <= j < i ==> m[j].0 != key,
    ensures
        metadata_store(m, key, value) == m.update(i, (key, value)),
    decreases m.len(),
{
    if i > 0 {
        let d = m.drop_first();
        assert forall|j: int| 0 <= j < i - 1 implies d[j].0 != key by {
            assert(d[j] == m[j + 1]);
        }
        lemma_metadata_store_at(d, key, value, i - 1);
        assert(seq![m[0]] + d.update(i - 1, (key, value)) =~= m.update(i, (key, value)));
    }
}

proof fn lemma_metadata_store_new(
    m: Seq<(Seq<char>, MetadataValueView)>,
    key: Seq<char>,
    value: MetadataValueView,
)
    requires
        forall|j: int| 0 <= j < m.len() ==> m[j].0 != key,
    ensures
        metadata_store(m, key, value) == m.push((key, value)),
    decreases m.len(),
{
    if m.len() > 0 {
        let d = m.drop_first();
        assert forall|j: int| 0 <= j < d.len() implies d[j].0 != key by {
            assert(d[j] == m[j + 1]);
        }
        lemma_metadata_store_new(d, key, value);
        assert(seq![m[0]] + d.push((key, value)) =~= m.push((key, value)));
    } else {
        assert(m.push((key, value)) =~= seq![(key, value)]);
    }
}

/// Stores `value` under `key`, replacing the value that the key had.
pub fn metadata_insert(m: &mut Vec<MetadataEntry>, key: String, value: MetadataValue)
    ensures
        vec_view(final(m)@) == metadata_store(vec_view(old(m)@), key@, value@),
{
    let ghost mv = vec_view(m@);
    let ghost kv = (key@, value@);
    let n = m.len();
    let mut i: usize = 0;
    let mut found = false;
    while i < n
        invariant_except_break
            n == m@.len(),
            mv == vec_view(m@),
            0 <= i <= n,
            !found,
            forall|j: int| 0 <= j < i ==> mv[j].0 != key@,
        ensures
            n == m@.len(),
            mv == vec_view(m@),
            0 <= i <= n,
            forall|j: int| 0 <= j < i ==> mv[j].0 != key@,
            found ==> i < n && mv[i as int].0 == key@,
            !found ==> i == n,
        decreases n - i,
    {
        if str_equal(m[i].key.as_str(), key.as_str()) {
            found = true;
            break;
        }
        i = i + 1;
    }
    if found {
        proof {
            lemma_metadata_store_at(mv, kv.0, kv.1, i as int);
        }
        m.set(i, MetadataEntry { key, value });
        assert(vec_view(m@) =~= mv.update(i as int, kv));
    } else {
        proof {
            lemma_metadata_store_new(mv, kv.0, kv.1);
        }
        m.push(MetadataEntry { key, value });
        assert(vec_view(m@) =~= mv.push(kv));
    }
}

#[derive(Debug)]
pub struct SemanticEntity {
    pub id: String,
    pub kind: EntityKind,
    pub name: String,
    pub signature: String,
    pub path: String,
    pub parent: Option<String>,
    pub body_hash: String,
    pub full_hash: String,
    pub signature_hash: String,
    pub shape_hash: String,
    pub span: SpanRange,
    pub semantic_span: SpanRange,
    pub dependencies: Vec<String>,
    pub children: Vec<String>,
    pub metadata: Vec<MetadataEntry>,
    pub snippet: Option<String>,
    pub body: Option<String>,
}

pub struct EntityView {
    pub id: Seq<char>,
    pub kind: EntityKind,
    pub name: Seq<char>,
    pub signature: Seq<char>,
    pub path: Seq<char>,
    pub parent: Option<Seq<char>>,
    pub body_hash: Seq<char>,
    pub full_hash: Seq<char>,
    pub signature_hash: Seq<char>,
    pub shape_hash: Seq<char>,
    pub span: SpanRange,
    pub semantic_span: SpanRange,
    pub dependencies: Seq<Seq<char>>,
    pub children: Seq<Seq<char>>,
    pub metadata: Seq<(Seq<char>, MetadataValueView)>,
    pub snippet: Option<Seq<char>>,
    pub body: Option<Seq<char>>,
}

impl View for SemanticEntity {
    type V = EntityView;

    open spec fn view(&self) -> EntityView {
        EntityView {
            id: self.id@,
            kind: self.kind,
            name: self.name@,
            signature: self.signature@,
            path: self.path@,
            parent: opt_str(self.parent),
            body_hash: self.body_hash@,
            full_hash: self.full_hash@,
            signature_hash: self.signature_hash@,
            shape_hash: self.shape_hash@,
            span: self.span,
            semantic_span: self.semantic_span,
            dependencies: str_seq(self.dependencies@),
            children: str_seq(self.children@),
            metadata: vec_view(self.metadata@),
            snippet: opt_str(self.snippet),
            body: opt_str(self.body),
        }
    }
}

pub fn clone_metadata(v: &Vec<MetadataEntry>) -> (r: Vec<MetadataEntry>)
    ensures
        vec_view(r@) == vec_view(v@),
{
    let r = v.clone();
    assert(vec_view(r@) =~= vec_view(v@));
    r
}

impl Clone for SemanticEntity {
    fn clone(&self) -> (r: Self)
        ensures
            r@ == self@,
    {
        let r = SemanticEntity {
            id: self.id.clone(),
            kind: self.kind,
            name: self.name.clone(),
            signature: self.signature.clone(),
            path: self.path.clone(),
            parent: clone_opt_str(&self.parent),
            body_hash: self.body_hash.clone(),
            full_hash: self.full_hash.clone(),
            signature_hash: self.signature_hash.clone(),
            shape_hash: self.shape_hash.clone(),
            span: self.span,
            semantic_span: self.semantic_span,
            dependencies: clone_str_vec(&self.dependencies),
            children: clone_str_vec(&self.children),
            metadata: clone_metadata(&self.metadata),
            snippet: clone_opt_str(&self.snippet),
            body: clone_opt_str(&self.body),
        };
        r
    }
}


pub assume_specification[ <str as PartialEq>::eq ](s: &str, other: &str) -> (res: bool)
    ensures
        res == (s@ == other@),
;

/// Whether two strings hold the same characters.
pub fn str_equal(a: &str, b: &str) -> (r: bool)
    ensures
        r == (a@ == b@),
{
    <str as PartialEq>::eq(a, b)
}

/// The view of the snapshot that `SemanticEntity::snapshot` takes of an entity.
pub open spec fn snapshot_of(e: EntityView) -> SnapshotView {
    SnapshotView {
        id: e.id,
        kind: e.kind,
        name: e.name,
        path: e.path,
        signature: e.signature,
        body_hash: e.body_hash,
        full_hash: e.full_hash,
        signature_hash: e.signature_hash,
        shape_hash: e.shape_hash,
        snippet: e.snippet,
        body: e.body,
    }
}

impl SemanticEntity {
    pub fn snapshot(&self) -> (r: EntitySnapshot)
        ensures
            r@ == snapshot_of(self@),
    {
        EntitySnapshot {
            id: self.id.clone(),
            kind: self.kind,
            name: self.name.clone(),
            path: self.path.clone(),
            signature: self.signature.clone(),
            body_hash: self.body_hash.clone(),
            full_hash: self.full_hash.clone(),
            signature_hash: self.signature_hash.clone(),
            shape_hash: self.shape_hash.clone(),
            snippet: clone_opt_str(&self.snippet),
            body: clone_opt_str(&self.body),
        }
    }

    /// The string stored under `key` in the metadata, if the value there is a string.
    pub fn metadata_str(&self, key: &str) -> (r: Option<&str>)
        ensures
            match metadata_lookup(self@.metadata, key@) {
                Some(MetadataValueView::Str(s)) => r is Some && r->0@ == s,
                _ => r is None,
            },
    {
        let n = self.metadata.len();
        let mut i: usize = 0;
        assert(self@.metadata.subrange(0, n as int) =~= self@.metadata);
        while i < n
            invariant
                n == self.metadata@.len(),
                self@.metadata.len() == n,
                0 <= i <= n,
                metadata_lookup(self@.metadata, key@) == metadata_lookup(
                    self@.metadata.subrange(i as int, n as int),
                    key@,
                ),
            decreases n - i,
        {
            let entry = &self.metadata[i];
            let ghost rest = self@.metadata.subrange(i as int, n as int);
            assert(rest.len() > 0);
            assert(rest[0] == self@.metadata[i as int]);
            assert(rest[0] == entry@);
            assert(rest.drop_first() =~= self@.metadata.subrange(i + 1, n as int));
            if str_equal(entry.key.as_str(), key) {
                return match &entry.value {
                    MetadataValue::Str(s) => Some(s.as_str()),
                    _ => None,
                };
            }
            i = i + 1;
        }
        assert(self@.metadata.subrange(n as int, n as int).len() == 0);
        None
    }
}

#[derive(Debug)]
pub struct ExportBinding {
    pub exported_name: String,
    pub local_name: String,
    pub entity_id: Option<String>,
    pub is_default: bool,
    pub type_only: bool,
    pub source: Option<String>,
}

pub struct ExportView {
    pub exported_name: Seq<char>,
    pub local_name: Seq<char>,
    pub entity_id: Option<Seq<char>>,
    pub is_default: bool,
    pub type_only: bool,
    pub source: Option<Seq<char>>,
}

impl View for ExportBinding {
    type V = ExportView;

    open spec fn view(&self) -> ExportView {
        ExportView {
            exported_name: self.exported_name@,
            local_name: self.local_name@,
            entity_id: opt_str(self.entity_id),
            is_default: self.is_default,
            type_only: self.type_only,
            source: opt_str(self.source),
        }
    }
}

impl Clone for ExportBinding {
    fn clone(&self) -> (r: Self)
        ensures
            r@ == self@,
    {
        ExportBinding {
            exported_name: self.exported_name.clone(),
            local_name: self.local_name.clone(),
            entity_id: clone_opt_str(&self.entity_id),
            is_default: self.is_default,
            type_only: self.type_only,
            source: clone_opt_str(&self.source),
        }
    }
}

#[derive(Debug)]
pub struct FileSemanticIndex {
    pub language: LanguageId,
    pub path: String,
    pub entities: Vec<SemanticEntity>,
    pub root_entities: Vec<String>,
    pub exports: Vec<ExportBinding>,
    pub parser_version: String,
}

pub struct IndexView {
    pub language: LanguageId,
    pub path: Seq<char>,
    pub entities: Seq<EntityView>,
    pub root_entities: Seq<Seq<char>>,
    pub exports: Seq<ExportView>,
    pub parser_version: Seq<char>,
}

impl View for FileSemanticIndex {
    type V = IndexView;

    open spec fn view(&self) -> IndexView {
        IndexView {
            language: self.language,
            path: self.path@,
            entities: vec_view(self.entities@),
            root_entities: str_seq(self.root_entities@),
            exports: vec_view(self.exports@),
            parser_version: self.parser_version@,
        }
    }
}

impl Clone for FileSemanticIndex {
    fn clone(&self) -> (r: Self)
        ensures
            r@ == self@,
    {
        let entities = self.entities.clone();
        let exports = self.exports.clone();
        assert(vec_view(entities@) =~= vec_view(self.entities@));
        assert(vec_view(exports@) =~= vec_view(self.exports@));
        FileSemanticIndex {
            language: self.language,
            path: self.path.clone(),
            entities,
            root_entities: clone_str_vec(&self.root_entities),
            exports,
            parser_version: self.parser_version.clone(),
        }
    }
}

/// Whether no entity before position `k` has the id `id`.
pub open spec fn first_with_id(es: Seq<EntityView>, id: Seq<char>, k: int) -> bool {
    &&& 0 <= k < es.len()
    &&& es[k].id == id
    &&& forall|j: int| 0 <= j < k ==> es[j].id != id
}

impl FileSemanticIndex {
    /// The first entity whose id is `id`.
    pub fn entity_by_id(&self, id: &str) -> (r: Option<&SemanticEntity>)
        ensures
            r is None <==> forall|j: int|
                0 <= j < self@.entities.len() ==> self@.entities[j].id != id@,
            r matches Some(e) ==> exists|k: int|
                first_with_id(self@.entities, id@, k) && self.entities@[k] == *e,
    {
        let n = self.entities.len();
        let mut i: usize = 0;
        while i < n
            invariant
                n == self.entities@.len(),
                0 <= i <= n,
                forall|j: int| 0 <= j < i ==> self@.entities[j].id != id@,
            decreases n - i,
        {
            assert(self@.entities[i as int] == self.entities@[i as int]@);
            if str_equal(self.entities[i].id.as_str(), id) {
                return Some(&self.entities[i]);
            }
            i = i + 1;
        }
        None
    }
}

#[derive(Debug)]
pub struct EntitySnapshot {
    pub id: String,
    pub kind: EntityKind,
    pub name: String,
    pub path: String,
    pub signature: String,
    pub body_hash: String,
    pub full_hash: String,
    pub signature_hash: String,
    pub shape_hash: String,
    pub snippet: Option<String>,
    pub body: Option<String>,
}

pub struct SnapshotView {
    pub id: Seq<char>,
    pub kind: EntityKind,
    pub name: Seq<char>,
    pub path: Seq<char>,
    pub signature: Seq<char>,
    pub body_hash: Seq<char>,
    pub full_hash: Seq<char>,
    pub signature_hash: Seq<char>,
    pub shape_hash: Seq<char>,
    pub snippet: Option<Seq<char>>,
    pub body: Option<Seq<char>>,
}

impl View for EntitySnapshot {
    type V = SnapshotView;

    open spec fn view(&self) -> SnapshotView {
        SnapshotView {
            id: self.id@,
            kind: self.kind,
            name: self.name@,
            path: self.path@,
            signature: self.signature@,
            body_hash: self.body_hash@,
            full_hash: self.full_hash@,
            signature_hash: self.signature_hash@,
            shape_hash: self.shape_hash@,
            snippet: opt_str(self.snippet),
            body: opt_str(self.body),
        }
    }
}

impl Clone for EntitySnapshot {
    fn clone(&self) -> (r: Self)
        ensures
            r@ == self@,
    {
        EntitySnapshot {
            id: self.id.clone(),
            kind: self.kind,
            name: self.name.clone(),
            path: self.path.clone(),
            signature: self.signature.clone(),
            body_hash: self.body_hash.clone(),
            full_hash: self.full_hash.clone(),
            signature_hash: self.signature_hash.clone(),
            shape_hash: self.shape_hash.clone(),
            snippet: clone_opt_str(&self.snippet),
            body: clone_opt_str(&self.body),
        }
    }
}

pub fn clone_opt_snapshot(o: &Option<EntitySnapshot>) -> (r: Option<EntitySnapshot>)
    ensures
        opt_view(r) == opt_view(*o),
{
    match o {
        Some(s) => Some(s.clone()),
        None => None,
    }
}

#[derive(Debug, Clone, Copy, PartialEq, Eq, Structural, PartialOrd, Ord, Hash)]
pub enum SemanticChangeKind {
    Unchanged,
    Moved,
    SignatureChanged,
    ImplementationChanged,
    Renamed,
    Inserted,
    Deleted,
    Split,
    Merged,
}

#[derive(Debug)]
pub struct ContextDiff {
    pub before: Option<String>,
    pub after: Option<String>,
    pub unified_diff: String,
}

pub struct ContextView {
    pub before: Option<Seq<char>>,
    pub after: Option<Seq<char>>,
    pub unified_diff: Seq<char>,
}

impl View for ContextDiff {
    type V = ContextView;

    open spec fn view(&self) -> ContextView {
        ContextView {
            before: opt_str(self.before),
            after: opt_str(self.after),
            unified_diff: self.unified_diff@,
        }
    }
}

impl Clone for ContextDiff {
    fn clone(&self) -> (r: Self)
        ensures
            r@ == self@,
    {
        ContextDiff {
            before: clone_opt_str(&self.before),
            after: clone_opt_str(&self.after),
            unified_diff: self.unified_diff.clone(),
        }
    }
}

pub fn clone_opt_context(o: &Option<ContextDiff>) -> (r: Option<ContextDiff>)
    ensures
        opt_view(r) == opt_view(*o),
{
    match o {
        Some(c) => Some(c.clone()),
        None => None,
    }
}

#[derive(Debug, Clone, Copy, PartialEq, Eq, Structural, Default)]
pub struct DiffSummary {
    pub unchanged: usize,
    pub moved: usize,
    pub signature_changed: usize,
    pub implementation_changed: usize,
    pub renamed: usize,
    pub inserted: usize,
    pub deleted: usize,
    pub split: usize,
    pub merged: usize,
}

impl DiffSummary {
    /// The counter that `record` keeps for `kind`.
    pub open spec fn count(self, kind: SemanticChangeKind) -> usize {
        match kind {
            SemanticChangeKind::Unchanged => self.unchanged,
            SemanticChangeKind::Moved => self.moved,
            SemanticChangeKind::SignatureChanged => self.signature_changed,
            SemanticChangeKind::ImplementationChanged => self.implementation_changed,
            SemanticChangeKind::Renamed => self.renamed,
            SemanticChangeKind::Inserted => self.inserted,
            SemanticChangeKind::Deleted => self.deleted,
            SemanticChangeKind::Split => self.split,
            SemanticChangeKind::Merged => self.merged,
        }
    }

    /// A summary with every counter at zero.
    pub fn zero() -> (r: DiffSummary)
        ensures
            forall|k: SemanticChangeKind| #[trigger] r.count(k) == 0,
    {
        DiffSummary {
            unchanged: 0,
            moved: 0,
            signature_changed: 0,
            implementation_changed: 0,
            renamed: 0,
            inserted: 0,
            deleted: 0,
            split: 0,
            merged: 0,
        }
    }

    /// Counts one more change of `kind`.
    pub fn record(&mut self, kind: &SemanticChangeKind)
        requires
            old(self).count(*kind) < usize::MAX,
        ensures
            final(self).count(*kind) == old(self).count(*kind) + 1,
            forall|k: SemanticChangeKind|
                k != *kind ==> #[trigger] final(self).count(k) == old(self).count(k),
    {
        match kind {
            SemanticChangeKind::Unchanged => self.unchanged = self.unchanged + 1,
            SemanticChangeKind::Moved => self.moved = self.moved + 1,
            SemanticChangeKind::SignatureChanged => self.signature_changed = self.signature_changed
                + 1,
            SemanticChangeKind::ImplementationChanged => self.implementation_changed =
            self.implementation_changed + 1,
            SemanticChangeKind::Renamed => self.renamed = self.renamed + 1,
            SemanticChangeKind::Inserted => self.inserted = self.inserted + 1,
            SemanticChangeKind::Deleted => self.deleted = self.deleted + 1,
            SemanticChangeKind::Split => self.split = self.split + 1,
            SemanticChangeKind::Merged => self.merged = self.merged + 1,
        }
    }
}

#[derive(Debug)]
pub struct SemanticChange {
    pub anchor_id: String,
    pub kinds: Vec<SemanticChangeKind>,
    pub previous: Option<EntitySnapshot>,
    pub current: Option<EntitySnapshot>,
    pub related_entities: Vec<EntitySnapshot>,
    pub context: Option<ContextDiff>,
    pub explanation: String,
}

pub struct ChangeView {
    pub anchor_id: Seq<char>,
    pub kinds: Seq<SemanticChangeKind>,
    pub previous: Option<SnapshotView>,
    pub current: Option<SnapshotView>,
    pub related_entities: Seq<SnapshotView>,
    pub context: Option<ContextView>,
    pub explanation: Seq<char>,
}

impl View for SemanticChange {
    type V = ChangeView;

    open spec fn view(&self) -> ChangeView {
        ChangeView {
            anchor_id: self.anchor_id@,
            kinds: self.kinds@,
            previous: opt_view(self.previous),
            current: opt_view(self.current),
            related_entities: vec_view(self.related_entities@),
            context: opt_view(self.context),
            explanation: self.explanation@,
        }
    }
}

impl Clone for SemanticChange {
    fn clone(&self) -> (r: Self)
        ensures
            r@ == self@,
    {
        let kinds = self.kinds.clone();
        assert(kinds@ =~= self.kinds@);
        let related_entities = self.related_entities.clone();
        assert(vec_view(related_entities@) =~= vec_view(self.related_entities@));
        SemanticChange {
            anchor_id: self.anchor_id.clone(),
            kinds,
            previous: clone_opt_snapshot(&self.previous),
            current: clone_opt_snapshot(&self.current),
            related_entities,
            context: clone_opt_context(&self.context),
            explanation: self.explanation.clone(),
        }
    }
}

#[derive(Debug)]
pub struct SemanticDiff {
    pub old_path: String,
    pub new_path: String,
    pub matching_strategy: String,
    pub summary: DiffSummary,
    pub changes: Vec<SemanticChange>,
}

pub struct DiffView {
    pub old_path: Seq<char>,
    pub new_path: Seq<char>,
    pub matching_strategy: Seq<char>,
    pub summary: DiffSummary,
    pub changes: Seq<ChangeView>,
}

impl View for SemanticDiff {
    type V = DiffView;

    open spec fn view(&self) -> DiffView {
        DiffView {
            old_path: self.old_path@,
            new_path: self.new_path@,
            matching_strategy: self.matching_strategy@,
            summary: self.summary,
            changes: vec_view(self.changes@),
        }
    }
}

#[derive(Debug, Clone, Copy, PartialEq, Eq, Structural)]
pub enum ConflictCause {
    ConcurrentModification,
    RenameVsModification,
    DeleteVsModification,
    DivergentRename,
    ConcurrentInsertion,
    AmbiguousSplit,
    AmbiguousMerge,
}

#[derive(Debug)]
pub struct SemanticConflict {
    pub anchor_id: String,
    pub cause: ConflictCause,
    pub base: Option<EntitySnapshot>,
    pub ours: Option<EntitySnapshot>,
    pub theirs: Option<EntitySnapshot>,
    pub context: Option<ContextDiff>,
    pub message: String,
}

pub struct ConflictView {
    pub anchor_id: Seq<char>,
    pub cause: ConflictCause,
    pub base: Option<SnapshotView>,
    pub ours: Option<SnapshotView>,
    pub theirs: Option<SnapshotView>,
    pub context: Option<ContextView>,
    pub message: Seq<char>,
}

impl View for SemanticConflict {
    type V = ConflictView;

    open spec fn view(&self) -> ConflictView {
        ConflictView {
            anchor_id: self.anchor_id@,
            cause: self.cause,
            base: opt_view(self.base),
            ours: opt_view(self.ours),
            theirs: opt_view(self.theirs),
            context: opt_view(self.context),
            message: self.message@,
        }
    }
}

#[derive(Debug, Clone, Copy, PartialEq, Eq, Structural)]
pub enum MergeStatus {
    Clean,
    Conflicted,
}

#[derive(Debug)]
pub struct MergeResult {
    pub status: MergeStatus,
    pub resolved_changes: Vec<SemanticChange>,
    pub conflicts: Vec<SemanticConflict>,
    pub merged_index: Option<FileSemanticIndex>,
    pub notes: Vec<String>,
}

pub struct MergeView {
    pub status: MergeStatus,
    pub resolved_changes: Seq<ChangeView>,
    pub conflicts: Seq<ConflictView>,
    pub merged_index: Option<IndexView>,
    pub notes: Seq<Seq<char>>,
}

impl View for MergeResult {
    type V = MergeView;

    open spec fn view(&self) -> MergeView {
        MergeView {
            status: self.status,
            resolved_changes: vec_view(self.resolved_changes@),
            conflicts: vec_view(self.conflicts@),
            merged_index: opt_view(self.merged_index),
            notes: str_seq(self.notes@),
        }
    }
}

} // verus!
