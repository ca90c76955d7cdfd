use semantit::model::{MetadataValue, SpanLocation, SpanRange};
use semantit::ts_source::{
    Accessibility, ArrowBody, ClassMemberSource, ClassSource, ConstructorSource, DeclSource,
    DeclaratorSource, ExportSpecifierSource, FunctionSource, InitSource, InterfaceSource,
    MethodKind, MethodSource, ModuleItemSource, PrivateMethodSource, SourceSpan, TypeAliasSource,
    VarKind, VarSource,
};
use semantit::{EntityKind, FileSemanticIndex, LanguageId, ParseError, SemanticEntity, TypeScriptParser};

fn at(line: usize) -> SourceSpan {
    SourceSpan {
        range: SpanRange {
            start: SpanLocation { byte: line as u32 * 10, line, column: 1 },
            end: SpanLocation { byte: line as u32 * 10 + 9, line, column: 10 },
        },
        snippet: format!("<line {line}>"),
    }
}

fn strings(items: &[&str]) -> Vec<String> {
    items.iter().map(|item| item.to_string()).collect()
}

fn plain_function(params: &[&str], return_type: &str, body: Option<&str>, ids: &[&str]) -> FunctionSource {
    FunctionSource {
        is_async: false,
        is_generator: false,
        type_params: String::new(),
        params: strings(params),
        return_type: return_type.to_string(),
        body: body.map(str::to_string),
        identifiers: strings(ids),
    }
}

fn greeter() -> ClassSource {
    ClassSource {
        is_abstract: false,
        type_params: String::new(),
        super_class: Some("Base".to_string()),
        super_type_params: Some("<T>".to_string()),
        implements: strings(&["Named"]),
        heritage_identifiers: strings(&["Base", "T", "Named", "Greeter"]),
        members: vec![
            ClassMemberSource::Other {
                text: "private count:number=0;".to_string(),
                identifiers: Vec::new(),
            },
            ClassMemberSource::Constructor(ConstructorSource {
                accessibility: None,
                params: strings(&["private name:string"]),
                body: Some("{}".to_string()),
                identifiers: Vec::new(),
                at: at(4),
            }),
            ClassMemberSource::Method(MethodSource {
                key: "greet".to_string(),
                is_static: false,
                accessibility: Some(Accessibility::Public),
                kind: MethodKind::Method,
                function: plain_function(&[], ":string", Some("{return this.name}"), &[]),
                at: at(5),
            }),
            ClassMemberSource::Method(MethodSource {
                key: "create".to_string(),
                is_static: true,
                accessibility: None,
                kind: MethodKind::Method,
                function: plain_function(&[], "", Some("{return new Greeter(\"x\")}"), &["Greeter"]),
                at: at(6),
            }),
            ClassMemberSource::PrivateMethod(PrivateMethodSource {
                key: "secret".to_string(),
                is_static: false,
                kind: MethodKind::Method,
                function: plain_function(&[], "", Some("{}"), &[]),
                at: at(7),
            }),
            ClassMemberSource::Method(MethodSource {
                key: "size".to_string(),
                is_static: false,
                accessibility: None,
                kind: MethodKind::Getter,
                function: plain_function(&[], ":number", Some("{return 1}"), &[]),
                at: at(8),
            }),
        ],
    }
}

fn sample_items() -> Vec<ModuleItemSource> {
    vec![
        ModuleItemSource::ExportDecl(DeclSource::Interface(InterfaceSource {
            name: "User".to_string(),
            type_params: String::new(),
            extends: Vec::new(),
            body: "{id:string}".to_string(),
            identifiers: Vec::new(),
            at: at(1),
        })),
        ModuleItemSource::ExportDecl(DeclSource::Class {
            name: "Greeter".to_string(),
            class: greeter(),
            at: at(3),
        }),
        ModuleItemSource::Decl(DeclSource::Var(VarSource {
            kind: VarKind::Const,
            declarators: vec![DeclaratorSource {
                binding: Some("twice".to_string()),
                annotation: String::new(),
                init: Some(InitSource::Arrow {
                    is_async: false,
                    type_params: String::new(),
                    params: strings(&["x:number"]),
                    return_type: String::new(),
                    body: ArrowBody::Expr("x*2".to_string()),
                }),
                identifiers: strings(&["x"]),
                at: at(10),
            }],
        })),
        ModuleItemSource::Decl(DeclSource::Var(VarSource {
            kind: VarKind::Let,
            declarators: vec![
                DeclaratorSource {
                    binding: Some("counter".to_string()),
                    annotation: String::new(),
                    init: Some(InitSource::Other("0".to_string())),
                    identifiers: Vec::new(),
                    at: at(11),
                },
                DeclaratorSource {
                    binding: None,
                    annotation: String::new(),
                    init: Some(InitSource::Other("pair".to_string())),
                    identifiers: strings(&["pair"]),
                    at: at(11),
                },
            ],
        })),
        ModuleItemSource::ExportNamed {
            source: None,
            specifiers: vec![
                ExportSpecifierSource::Named {
                    local: "twice".to_string(),
                    exported: Some("double".to_string()),
                    type_only: false,
                },
                ExportSpecifierSource::Named { local: "counter".to_string(), exported: None, type_only: false },
            ],
        },
        ModuleItemSource::ExportDefaultExpr,
        ModuleItemSource::ExportAll { module: "./other".to_string(), type_only: false },
        ModuleItemSource::Decl(DeclSource::TypeAlias(TypeAliasSource {
            name: "Id".to_string(),
            type_params: String::new(),
            type_ann: "string".to_string(),
            identifiers: Vec::new(),
            at: at(14),
        })),
        ModuleItemSource::ExportDecl(DeclSource::Var(VarSource {
            kind: VarKind::Const,
            declarators: vec![DeclaratorSource {
                binding: Some("handler".to_string()),
                annotation: String::new(),
                init: Some(InitSource::Function(plain_function(&["a"], "", Some("{return a}"), &["a"]))),
                identifiers: strings(&["a"]),
                at: at(15),
            }],
        })),
        ModuleItemSource::Other,
    ]
}

fn entity<'a>(index: &'a FileSemanticIndex, path: &str) -> &'a SemanticEntity {
    index.entities.iter().find(|e| e.path == path).expect("entity should exist")
}

fn metadata_str<'a>(entity: &'a SemanticEntity, key: &str) -> Option<&'a str> {
    entity.metadata_str(key)
}

fn metadata_value<'a>(entity: &'a SemanticEntity, key: &str) -> Option<&'a MetadataValue> {
    entity.metadata.iter().find(|m| m.key == key).map(|m| &m.value)
}

#[test]
fn entities_are_sorted_by_path_with_roots_listed() {
    let index = TypeScriptParser.build_index("sample.ts", &sample_items());
    let paths: Vec<&str> = index.entities.iter().map(|e| e.path.as_str()).collect();
    assert_eq!(
        paths,
        vec![
            "Greeter",
            "Greeter##secret",
            "Greeter#constructor",
            "Greeter#greet",
            "Greeter#size",
            "Greeter.create",
            "Id",
            "User",
            "counter",
            "handler",
            "twice",
        ]
    );
    let roots: Vec<String> = ["Greeter", "Id", "User", "counter", "handler", "twice"]
        .iter()
        .map(|p| entity(&index, p).id.clone())
        .collect();
    assert_eq!(index.root_entities, roots);
    assert_eq!(index.language, LanguageId::TypeScript);
    assert_eq!(index.path, "sample.ts");
    assert_eq!(index.parser_version, "semantit-ts@0.1.0+swc_ecma_parser@35.0.0");
}

#[test]
fn class_members_hang_under_the_class() {
    let index = TypeScriptParser.build_index("sample.ts", &sample_items());
    let class = entity(&index, "Greeter");
    assert_eq!(class.kind, EntityKind::Class);
    assert_eq!(class.signature, "class Greeter extends Base<T> implements Named");
    assert_eq!(class.body.as_deref(), Some("private count:number=0;"));
    assert_eq!(class.dependencies, vec!["Base", "Named", "T"]);
    assert_eq!(class.children.len(), 5);
    assert!(matches!(metadata_value(class, "child_method_count"), Some(MetadataValue::UInt(5))));
    assert_eq!(metadata_str(class, "signature_shape"), Some("class __NAME__ extends Base<T> implements Named"));
    assert_eq!(metadata_str(class, "parent_anchor"), Some("<module>"));

    let ctor = entity(&index, "Greeter#constructor");
    assert_eq!(ctor.kind, EntityKind::Method);
    assert_eq!(ctor.name, "constructor");
    assert_eq!(ctor.signature, "constructor(private name:string)");
    assert_eq!(ctor.parent.as_deref(), Some(class.id.as_str()));
    assert_eq!(metadata_str(ctor, "parent_anchor"), Some("Greeter"));
    assert_eq!(class.children[0], ctor.id);

    let greet = entity(&index, "Greeter#greet");
    assert_eq!(greet.signature, "public greet():string");
    assert_eq!(metadata_str(greet, "method_kind"), Some("method"));
    assert!(matches!(metadata_value(greet, "is_private"), Some(MetadataValue::Bool(false))));

    let create = entity(&index, "Greeter.create");
    assert_eq!(create.signature, "static create()");
    assert_eq!(create.dependencies, vec!["Greeter"]);

    let secret = entity(&index, "Greeter##secret");
    assert_eq!(secret.name, "#secret");
    assert_eq!(secret.signature, "#secret()");
    assert_eq!(metadata_str(secret, "source_kind"), Some("private_method"));

    let size = entity(&index, "Greeter#size");
    assert_eq!(size.signature, "get size():number");
    assert_eq!(metadata_str(size, "method_kind"), Some("getter"));
}

#[test]
fn variables_render_their_initializers() {
    let index = TypeScriptParser.build_index("sample.ts", &sample_items());
    let twice = entity(&index, "twice");
    assert_eq!(twice.kind, EntityKind::Constant);
    assert_eq!(twice.signature, "const twice= (x:number) => x*2");
    assert_eq!(metadata_str(twice, "signature_shape"), Some("const __NAME__= (x:number) => __EXPR__"));
    assert_eq!(twice.body.as_deref(), Some("x*2"));
    assert_eq!(metadata_str(twice, "binding_kind"), Some("const"));
    assert!(matches!(metadata_value(twice, "callable"), Some(MetadataValue::Bool(true))));
    assert_eq!(twice.dependencies, vec!["x"]);

    let counter = entity(&index, "counter");
    assert_eq!(counter.kind, EntityKind::Variable);
    assert_eq!(counter.signature, "let counter = 0");
    assert!(metadata_value(counter, "callable").is_none());

    let handler = entity(&index, "handler");
    assert_eq!(handler.signature, "const handler= function(a)");
    assert_eq!(metadata_str(handler, "signature_shape"), Some("const __NAME__= function(a)"));
    assert_eq!(handler.body.as_deref(), Some("{return a}"));

    let alias = entity(&index, "Id");
    assert_eq!(alias.signature, "type Id=string");
    assert_eq!(alias.body.as_deref(), Some("string"));
}

#[test]
fn exports_are_resolved_and_sorted() {
    let index = TypeScriptParser.build_index("sample.ts", &sample_items());
    let names: Vec<(&str, &str)> = index
        .exports
        .iter()
        .map(|x| (x.exported_name.as_str(), x.local_name.as_str()))
        .collect();
    assert_eq!(
        names,
        vec![
            ("*", "*"),
            ("Greeter", "Greeter"),
            ("User", "User"),
            ("counter", "counter"),
            ("default", "default"),
            ("double", "twice"),
            ("handler", "handler"),
        ]
    );
    assert_eq!(index.exports[0].source.as_deref(), Some("./other"));
    assert_eq!(index.exports[1].entity_id.as_deref(), Some(entity(&index, "Greeter").id.as_str()));
    // Names declared without `export` are not resolved.
    assert!(index.exports[3].entity_id.is_none());
    assert!(index.exports[5].entity_id.is_none());
    assert!(index.exports[4].is_default);
}

#[test]
fn named_exports_resolve_to_the_first_exported_declaration() {
    let items = vec![
        ModuleItemSource::ExportDecl(DeclSource::Function {
            name: "run".to_string(),
            function: plain_function(&[], "", Some("{}"), &[]),
            at: at(1),
        }),
        ModuleItemSource::ExportNamed {
            source: None,
            specifiers: vec![ExportSpecifierSource::Named {
                local: "run".to_string(),
                exported: Some("start".to_string()),
                type_only: false,
            }],
        },
        ModuleItemSource::ExportDefaultInterface(InterfaceSource {
            name: "Shape".to_string(),
            type_params: "<T>".to_string(),
            extends: strings(&["Base", "Other"]),
            body: "{}".to_string(),
            identifiers: strings(&["Base", "Other"]),
            at: at(3),
        }),
        ModuleItemSource::ExportDefaultFunction {
            ident: None,
            function: plain_function(&["x"], "", Some("{}"), &["x"]),
            at: at(5),
        },
    ];
    let index = TypeScriptParser.build_index("m.ts", &items);
    let run = entity(&index, "run");
    let start = index.exports.iter().find(|x| x.exported_name == "start").expect("start");
    assert_eq!(start.entity_id.as_deref(), Some(run.id.as_str()));

    let shape = entity(&index, "Shape");
    assert_eq!(shape.signature, "interface Shape<T> extends Base, Other");
    let defaults: Vec<_> = index.exports.iter().filter(|x| x.exported_name == "default").collect();
    assert_eq!(defaults.len(), 2);
    assert!(defaults.iter().any(|x| x.local_name == "Shape" && x.type_only));
    let anonymous = entity(&index, "default");
    assert_eq!(anonymous.signature, "function default(x)");
    assert_eq!(metadata_str(anonymous, "source_kind"), Some("export_default_function"));
}

#[test]
fn parser_takes_typescript_extensions() {
    let parser = TypeScriptParser;
    assert!(parser.supports_path("src/a.ts"));
    assert!(parser.supports_path("b.tsx"));
    assert!(parser.supports_path("c.mts"));
    assert!(parser.supports_path("dir/d.cts"));
    assert!(!parser.supports_path("e.js"));
    assert!(!parser.supports_path(".ts"));
    assert!(!parser.supports_path("ts"));
    assert!(parser.supports_path("dir/f.ts/"));
    assert!(parser.is_tsx("x.tsx"));
    assert!(!parser.is_tsx("x.ts"));
    assert_eq!(parser.language(), LanguageId::TypeScript);
}

#[test]
fn parse_outcome_reports_the_fatal_error_first() {
    let parser = TypeScriptParser;
    assert!(parser.parse_outcome("a.ts", None, &Vec::new()).is_ok());
    match parser.parse_outcome("a.ts", Some("boom".to_string()), &vec!["x".to_string()]) {
        Err(ParseError::ParserFailure { language, path, message }) => {
            assert_eq!(language, LanguageId::TypeScript);
            assert_eq!(path, "a.ts");
            assert_eq!(message, "boom");
        }
        _ => panic!("a fatal error should fail the parse"),
    }
    match parser.parse_outcome("b.ts", None, &vec!["x".to_string(), "y".to_string()]) {
        Err(ParseError::ParserFailure { message, .. }) => assert_eq!(message, "x; y"),
        _ => panic!("recovered errors should fail the parse"),
    }
}
