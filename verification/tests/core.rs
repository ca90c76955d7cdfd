use semantit::deps::{canonical_dependencies, DependencyCollector};
use semantit::hash::{
    build_entity_id, build_full_hash, build_shape_hash, hash_join, hash_string,
    normalize_whitespace,
};
use semantit::model::{
    DiffSummary, EntityKind, LanguageId, MetadataEntry, MetadataValue, SemanticChangeKind,
    SpanLocation, SpanRange,
};
use semantit::report::{change_kind_label, decimal_text, short_hash};
use semantit::text::{join_with, replace_all};
use semantit::ts_source::ModuleItemSource;
use semantit::{
    FileSemanticIndex, LanguageParser, ParseError, ParseInput, ParserRegistry, RegistryError,
    SemantitError, SourceLowering, TypeScriptLanguage,
};

const EMPTY_BLAKE3: &str = "af1349b9f5f9a1a6a0404dea36dcc9499bcb25c9adc112b7cc9a93cae41f3262";
const ABC_BLAKE3: &str = "6437b3ac38465133ffb63b75273a8db548c558465d79db03fd359c6cd5bd9d85";

#[test]
fn hash_string_is_the_blake3_hex_digest() {
    assert_eq!(hash_string(""), EMPTY_BLAKE3);
    assert_eq!(hash_string("abc"), ABC_BLAKE3);
    assert_ne!(hash_string("abc"), "abc");
}

#[test]
fn hash_join_separates_parts_with_zero_bytes() {
    let joined = hash_join(&["ab", "c"]);
    assert_eq!(joined.len(), 64);
    assert_ne!(joined, hash_join(&["a", "bc"]));
    assert_ne!(joined, hash_string("abc"));
}

#[test]
fn entity_ids_depend_on_every_part() {
    let id = build_entity_id(EntityKind::Function, "<module>", "foo", "function __NAME__()");
    assert_eq!(id.len(), 64);
    assert_eq!(id, build_entity_id(EntityKind::Function, "<module>", "foo", "function __NAME__()"));
    assert_ne!(id, build_entity_id(EntityKind::Function, "<module>", "bar", "function __NAME__()"));
    assert_ne!(id, build_entity_id(EntityKind::Class, "<module>", "foo", "function __NAME__()"));
    assert_ne!(id, build_entity_id(EntityKind::Function, "A", "foo", "function __NAME__()"));
    assert_ne!(id, build_shape_hash(EntityKind::Function, "<module>", "function __NAME__()"));
    assert_ne!(
        build_full_hash(EntityKind::Function, "a", "b"),
        build_full_hash(EntityKind::Method, "a", "b")
    );
}

#[test]
fn normalize_whitespace_collapses_and_trims() {
    assert_eq!(normalize_whitespace("  a \n\t b  "), "a b");
    assert_eq!(normalize_whitespace(""), "");
    assert_eq!(normalize_whitespace(" \u{3000} "), "");
    assert_eq!(normalize_whitespace("x\u{00A0}y"), "x y");
    let once = normalize_whitespace("  fn  f ( )\n{ }  ");
    assert_eq!(normalize_whitespace(&once), once);
}

#[test]
fn short_hash_keeps_the_first_eight_bytes() {
    assert_eq!(short_hash(ABC_BLAKE3), "6437b3ac");
    assert_eq!(short_hash("abc"), "abc");
    assert_eq!(short_hash("abcdefgh"), "abcdefgh");
    // The eighth byte falls inside `é`, so the whole text is kept.
    assert_eq!(short_hash("abcdefgé123"), "abcdefgé123");
    assert_eq!(short_hash("abcdeféxyz"), "abcdefé");
}

#[test]
fn change_kind_labels_use_snake_case() {
    assert_eq!(change_kind_label(&SemanticChangeKind::SignatureChanged), "signature_changed");
    assert_eq!(
        change_kind_label(&SemanticChangeKind::ImplementationChanged),
        "implementation_changed"
    );
    assert_eq!(change_kind_label(&SemanticChangeKind::Merged), "merged");
}

#[test]
fn entity_kind_names() {
    assert_eq!(EntityKind::TypeAlias.as_str(), "type_alias");
    assert_eq!(EntityKind::Constant.as_str(), "constant");
    assert_eq!(LanguageId::TypeScript.as_str(), "typescript");
}

#[test]
fn summary_record_counts_one_kind() {
    let mut summary = DiffSummary::zero();
    summary.record(&SemanticChangeKind::Moved);
    summary.record(&SemanticChangeKind::Moved);
    summary.record(&SemanticChangeKind::Split);
    assert_eq!(summary.moved, 2);
    assert_eq!(summary.split, 1);
    assert_eq!(summary.unchanged + summary.deleted + summary.inserted, 0);
}

#[test]
fn decimal_text_writes_digits() {
    assert_eq!(decimal_text(0), "0");
    assert_eq!(decimal_text(7), "7");
    assert_eq!(decimal_text(1203), "1203");
}

#[test]
fn dependency_collector_sorts_drops_repeats_and_the_own_name() {
    let mut collector = DependencyCollector::new();
    for name in ["b", "Greeter", "a", "b", "Greeter", "é"] {
        collector.insert(name.to_string());
    }
    assert_eq!(collector.finish(Some("Greeter")), vec!["a", "b", "é"]);

    let deps = canonical_dependencies(vec!["z".to_string(), "a".to_string(), "z".to_string()]);
    assert_eq!(deps, vec!["a", "z"]);
}

#[test]
fn join_and_replace() {
    let parts = vec!["a".to_string(), "b".to_string(), "c".to_string()];
    assert_eq!(join_with(&parts, ", "), "a, b, c");
    assert_eq!(join_with(&Vec::new(), ", "), "");
    assert_eq!(replace_all("async function function(a)", " function", ""), "async(a)");
    assert_eq!(replace_all("aaa", "aa", "b"), "ba");
}

#[test]
fn replacing_the_empty_pattern_matches_str_replace() {
    assert_eq!(replace_all("abc", "", "x"), "xaxbxcx");
    assert_eq!(replace_all("abc", "", "x"), "abc".replace("", "x"));
    assert_eq!(replace_all("", "", "x"), "x");
    assert_eq!(replace_all("", "ab", "x"), "");
}

#[test]
fn error_messages() {
    let e = ParseError::UnsupportedLanguage { path: "a.rs".to_string() };
    assert_eq!(e.message(), "unsupported language for `a.rs`");
    let e = ParseError::ParserFailure {
        language: LanguageId::TypeScript,
        path: "a.ts".to_string(),
        message: "boom".to_string(),
    };
    assert_eq!(e.message(), "typescript parser failed for `a.ts`: boom");
    let e = ParseError::InvalidSource { path: "a.ts".to_string(), message: "bad".to_string() };
    assert_eq!(e.message(), "could not build semantic index for `a.ts`: bad");
    let e = RegistryError::NoParserForPath { path: "x.py".to_string() };
    assert_eq!(e.message(), "no parser registered for `x.py`");
    let wrapped: SemantitError = e.into();
    assert!(matches!(wrapped, SemantitError::Registry(_)));
}

struct Canned {
    tag: &'static str,
    fail: bool,
}

impl SourceLowering for Canned {
    fn lower_module(&self, path: &str, source: &str, _tsx: bool) -> Result<Vec<ModuleItemSource>, ParseError> {
        if self.fail || source.is_empty() {
            return Err(ParseError::InvalidSource { path: path.to_string(), message: self.tag.to_string() });
        }
        Ok(vec![ModuleItemSource::Other])
    }
}

#[test]
fn registry_uses_the_first_parser_that_takes_the_path() {
    let mut registry = ParserRegistry::new();
    registry.register(TypeScriptLanguage::new(Canned { tag: "first", fail: true }));
    registry.register(TypeScriptLanguage::new(Canned { tag: "second", fail: false }));

    assert_eq!(registry.position_for_path("a.ts"), Some(0));
    assert_eq!(registry.position_for_path("a.py"), None);
    let parser = registry.parser_for_path("a.tsx").ok().expect("a parser should take a.tsx");
    assert_eq!(parser.lowering.tag, "first");
    assert!(parser.supports_path("x.mts"));
    assert_eq!(parser.language(), LanguageId::TypeScript);

    match registry.parser_for_path("a.py") {
        Err(SemantitError::Registry(RegistryError::NoParserForPath { path })) => {
            assert_eq!(path, "a.py")
        }
        _ => panic!("a.py should have no parser"),
    }
    match registry.parse(ParseInput { path: "b.ts", source: "x" }) {
        Err(SemantitError::Parse(ParseError::InvalidSource { message, .. })) => assert_eq!(message, "first"),
        _ => panic!("the first parser should be used"),
    }
    assert!(matches!(
        registry.parse(ParseInput { path: "b.py", source: "x" }),
        Err(SemantitError::Registry(_))
    ));

    let mut working = ParserRegistry::default();
    working.register(TypeScriptLanguage::new(Canned { tag: "only", fail: false }));
    let index = working
        .parse(ParseInput { path: "b.ts", source: "x" })
        .ok()
        .expect("b.ts should parse");
    assert_eq!(index.path, "b.ts");
    assert_eq!(index.parser_version, "semantit-ts@0.1.0+swc_ecma_parser@35.0.0");
    assert!(index.entities.is_empty());
    assert!(matches!(
        working.parse(ParseInput { path: "b.ts", source: "" }),
        Err(SemantitError::Parse(ParseError::InvalidSource { .. }))
    ));
}

fn sample_entity(id: &str, path: &str) -> semantit::SemanticEntity {
    let at = SpanLocation { byte: 0, line: 1, column: 1 };
    semantit::SemanticEntity {
        id: id.to_string(),
        kind: EntityKind::Function,
        name: path.to_string(),
        signature: "function f()".to_string(),
        path: path.to_string(),
        parent: None,
        body_hash: "b".to_string(),
        full_hash: "f".to_string(),
        signature_hash: "s".to_string(),
        shape_hash: "h".to_string(),
        span: SpanRange { start: at, end: at },
        semantic_span: SpanRange { start: at, end: at },
        dependencies: Vec::new(),
        children: Vec::new(),
        metadata: vec![
            MetadataEntry { key: "source_kind".to_string(), value: MetadataValue::Str("function_decl".to_string()) },
            MetadataEntry { key: "callable".to_string(), value: MetadataValue::Bool(true) },
        ],
        snippet: Some("function f() {}".to_string()),
        body: None,
    }
}

#[test]
fn entity_lookups_and_snapshots() {
    let index = FileSemanticIndex {
        language: LanguageId::TypeScript,
        path: "x.ts".to_string(),
        entities: vec![sample_entity("1", "a"), sample_entity("2", "b"), sample_entity("2", "c")],
        root_entities: Vec::new(),
        exports: Vec::new(),
        parser_version: "v".to_string(),
    };
    assert_eq!(index.entity_by_id("2").map(|e| e.path.as_str()), Some("b"));
    assert!(index.entity_by_id("3").is_none());

    let entity = &index.entities[0];
    assert_eq!(entity.metadata_str("source_kind"), Some("function_decl"));
    assert_eq!(entity.metadata_str("callable"), None);
    assert_eq!(entity.metadata_str("missing"), None);
    let snapshot = entity.snapshot();
    assert_eq!(snapshot.id, "1");
    assert_eq!(snapshot.snippet.as_deref(), Some("function f() {}"));
    assert!(snapshot.body.is_none());
}

#[test]
fn entity_kind_names_are_distinct() {
    let kinds = [
        EntityKind::Function,
        EntityKind::Class,
        EntityKind::Method,
        EntityKind::Interface,
        EntityKind::TypeAlias,
        EntityKind::Constant,
        EntityKind::Variable,
    ];
    for (i, a) in kinds.iter().enumerate() {
        for b in &kinds[i + 1..] {
            assert_ne!(a.as_str(), b.as_str());
        }
    }
}
