use semantit::model::{SpanLocation, SpanRange};
use semantit::report::{diff_report_lines, merge_report_lines, parse_report_lines};
use semantit::ts_source::{DeclSource, FunctionSource, ModuleItemSource, SourceSpan};
use semantit::{
    diff_indices, merge_indices, ConflictCause, FileSemanticIndex, MergeStatus, SemanticChangeKind,
    SemanticEntity, TypeScriptParser,
};

// Each module below is written as the declarations that the TypeScript front end reads from
// the source quoted beside it (bodies and parameters in their minified rendering).

fn span(line: usize, snippet: &str) -> SourceSpan {
    SourceSpan {
        range: SpanRange {
            start: SpanLocation { byte: 0, line, column: 8 },
            end: SpanLocation { byte: 0, line: line + 2, column: 2 },
        },
        snippet: snippet.to_string(),
    }
}

fn strings(items: &[&str]) -> Vec<String> {
    items.iter().map(|item| item.to_string()).collect()
}

fn function(
    name: &str,
    params: &[&str],
    body: &str,
    identifiers: &[&str],
    line: usize,
    snippet: &str,
) -> DeclSource {
    DeclSource::Function {
        name: name.to_string(),
        function: FunctionSource {
            is_async: false,
            is_generator: false,
            type_params: String::new(),
            params: strings(params),
            return_type: ":number".to_string(),
            body: Some(body.to_string()),
            identifiers: strings(identifiers),
        },
        at: span(line, snippet),
    }
}

fn exported(decl: DeclSource) -> ModuleItemSource {
    ModuleItemSource::ExportDecl(decl)
}

fn index(path: &str, items: Vec<ModuleItemSource>) -> FileSemanticIndex {
    TypeScriptParser.build_index(path, &items)
}

fn find<'a>(index: &'a FileSemanticIndex, path: &str) -> Option<&'a SemanticEntity> {
    index.entities.iter().find(|entity| entity.path == path)
}

// export function foo(value: number): number {
//   return value + 1;
// }
fn foo_plus_one(line: usize) -> DeclSource {
    function(
        "foo",
        &["value:number"],
        "{return value+1}",
        &["value"],
        line,
        "function foo(value: number): number {\n  return value + 1;\n}",
    )
}

// export function bar(value: number): number {
//   return value * 2;
// }
fn bar_times_two(line: usize) -> DeclSource {
    function(
        "bar",
        &["value:number"],
        "{return value*2}",
        &["value"],
        line,
        "function bar(value: number): number {\n  return value * 2;\n}",
    )
}

#[test]
fn diff_should_detect_function_moves_without_fake_insertions() {
    let alpha = |line| {
        function("alpha", &[], "{return 1}", &[], line, "function alpha(): number {\n  return 1;\n}")
    };
    let beta = |line| {
        function("beta", &[], "{return 2}", &[], line, "function beta(): number {\n  return 2;\n}")
    };
    let old_index = index("cases/move_old.ts", vec![exported(alpha(2)), exported(beta(6))]);
    let new_index = index("cases/move_new.ts", vec![exported(beta(2)), exported(alpha(6))]);

    let diff = diff_indices(&old_index, &new_index);

    assert_eq!(diff.summary.moved, 2);
    assert_eq!(diff.summary.inserted, 0);
    assert_eq!(diff.summary.deleted, 0);
}

// export function foo(value: number): number {
//   const adjusted = value + 10;
//   return adjusted + 1;
// }
fn foo_adjusted(line: usize) -> DeclSource {
    function(
        "foo",
        &["value:number"],
        "{const adjusted=value+10;return adjusted+1}",
        &["value", "adjusted"],
        line,
        "function foo(value: number): number {\n  const adjusted = value + 10;\n  return adjusted + 1;\n}",
    )
}

// export function bar(value: number): number {
//   const doubled = value * 2;
//   return doubled + 5;
// }
fn bar_doubled(line: usize) -> DeclSource {
    function(
        "bar",
        &["value:number"],
        "{const doubled=value*2;return doubled+5}",
        &["value", "doubled"],
        line,
        "function bar(value: number): number {\n  const doubled = value * 2;\n  return doubled + 5;\n}",
    )
}

fn disjoint_base(path: &str) -> FileSemanticIndex {
    index(path, vec![exported(foo_plus_one(2)), exported(bar_times_two(6))])
}

fn disjoint_ours(path: &str) -> FileSemanticIndex {
    index(path, vec![exported(foo_adjusted(2)), exported(bar_times_two(7))])
}

fn disjoint_theirs(path: &str) -> FileSemanticIndex {
    index(path, vec![exported(bar_doubled(2)), exported(foo_plus_one(7))])
}

fn same_base(path: &str) -> FileSemanticIndex {
    index(path, vec![exported(foo_plus_one(2))])
}

fn same_ours(path: &str) -> FileSemanticIndex {
    index(
        path,
        vec![exported(function(
            "foo",
            &["value:number"],
            "{return value+10}",
            &["value"],
            2,
            "function foo(value: number): number {\n  return value + 10;\n}",
        ))],
    )
}

fn same_theirs(path: &str) -> FileSemanticIndex {
    index(
        path,
        vec![exported(function(
            "foo",
            &["value:number"],
            "{return value*3}",
            &["value"],
            2,
            "function foo(value: number): number {\n  return value * 3;\n}",
        ))],
    )
}

fn rename_base(path: &str) -> FileSemanticIndex {
    index(path, vec![exported(foo_plus_one(2))])
}

fn rename_ours(path: &str) -> FileSemanticIndex {
    index(
        path,
        vec![exported(function(
            "compute",
            &["value:number"],
            "{return value+1}",
            &["value"],
            2,
            "function compute(value: number): number {\n  return value + 1;\n}",
        ))],
    )
}

fn rename_theirs(path: &str) -> FileSemanticIndex {
    index(
        path,
        vec![exported(function(
            "foo",
            &["value:number"],
            "{const base=value+1;return base*2}",
            &["value", "base"],
            2,
            "function foo(value: number): number {\n  const base = value + 1;\n  return base * 2;\n}",
        ))],
    )
}

fn split_base(path: &str) -> FileSemanticIndex {
    index(
        path,
        vec![exported(function(
            "pipeline",
            &["value:number"],
            "{const doubled=value*2;return doubled+5}",
            &["value", "doubled"],
            2,
            "function pipeline(value: number): number {\n  const doubled = value * 2;\n  return doubled + 5;\n}",
        ))],
    )
}

fn split_ours(path: &str) -> FileSemanticIndex {
    index(
        path,
        vec![
            ModuleItemSource::Decl(function(
                "doubleValue",
                &["value:number"],
                "{return value*2}",
                &["value"],
                2,
                "function doubleValue(value: number): number {\n  return value * 2;\n}",
            )),
            exported(function(
                "pipeline",
                &["value:number"],
                "{return doubleValue(value)+5}",
                &["doubleValue", "value"],
                6,
                "function pipeline(value: number): number {\n  return doubleValue(value) + 5;\n}",
            )),
        ],
    )
}

fn split_theirs(path: &str) -> FileSemanticIndex {
    index(
        path,
        vec![
            ModuleItemSource::Decl(function(
                "addFive",
                &["value:number"],
                "{return value+5}",
                &["value"],
                2,
                "function addFive(value: number): number {\n  return value + 5;\n}",
            )),
            exported(function(
                "pipeline",
                &["value:number"],
                "{return addFive(value*2)}",
                &["addFive", "value"],
                6,
                "function pipeline(value: number): number {\n  return addFive(value * 2);\n}",
            )),
        ],
    )
}

fn entity<'a>(index: &'a FileSemanticIndex, path: &str) -> &'a SemanticEntity {
    find(index, path).expect("entity should exist")
}

#[test]
fn merge_should_auto_resolve_disjoint_function_changes() {
    let base = disjoint_base("merge/base.ts");
    let ours = disjoint_ours("merge/ours.ts");
    let theirs = disjoint_theirs("merge/theirs.ts");

    let merge = merge_indices(&base, &ours, &theirs);

    assert_eq!(merge.status, MergeStatus::Clean);
    assert_eq!(merge.conflicts.len(), 0);
    let merged = merge.merged_index.as_ref().expect("entities should be present");
    assert_eq!(merged.entities.len(), 2);
    let foo = find(merged, "foo").expect("foo should exist");
    let bar = find(merged, "bar").expect("bar should exist");
    assert!(foo.body.as_deref().is_some_and(|body| body.contains("adjusted")));
    assert!(bar.body.as_deref().is_some_and(|body| body.contains("doubled")));
}

#[test]
fn merge_should_report_conflict_when_both_branches_touch_same_function() {
    let base = same_base("same/base.ts");
    let ours = same_ours("same/ours.ts");
    let theirs = same_theirs("same/theirs.ts");

    let merge = merge_indices(&base, &ours, &theirs);

    assert_eq!(merge.status, MergeStatus::Conflicted);
    assert_eq!(merge.conflicts.len(), 1);
    assert_eq!(merge.conflicts[0].cause, ConflictCause::ConcurrentModification);
    assert!(merge.merged_index.is_none());
}

#[test]
fn merge_should_preserve_rename_plus_implementation_change() {
    let base = rename_base("rename/base.ts");
    let ours = rename_ours("rename/ours.ts");
    let theirs = rename_theirs("rename/theirs.ts");

    let merge = merge_indices(&base, &ours, &theirs);

    assert_eq!(merge.status, MergeStatus::Clean);
    let merged = merge.merged_index.as_ref().expect("entities should be present");
    let compute = find(merged, "compute").expect("renamed function should exist");
    assert!(compute.body.as_deref().is_some_and(|body| body.contains("base*2")));
    assert_eq!(merged.exports[0].exported_name, "compute");
}

#[test]
fn merge_should_flag_ambiguous_split_for_manual_review() {
    let base = split_base("split/base.ts");
    let ours = split_ours("split/ours.ts");
    let theirs = split_theirs("split/theirs.ts");

    let merge = merge_indices(&base, &ours, &theirs);

    assert_eq!(merge.status, MergeStatus::Conflicted);
    assert!(!merge.conflicts.is_empty());
    assert!(merge.merged_index.is_none());
}

#[test]
fn function_id_should_stay_stable_when_moved() {
    let old_index = index("move_old.ts", vec![exported(foo_plus_one(2)), exported(bar_times_two(6))]);
    let new_index = index("move_new.ts", vec![exported(bar_times_two(2)), exported(foo_plus_one(6))]);

    assert_eq!(entity(&old_index, "foo").id, entity(&new_index, "foo").id);
    assert_eq!(entity(&old_index, "bar").id, entity(&new_index, "bar").id);
    assert_eq!(entity(&old_index, "foo").signature_hash, entity(&new_index, "foo").signature_hash);

    let diff = diff_indices(&old_index, &new_index);
    assert_eq!(diff.summary.moved, 2);
    assert_eq!(diff.summary.inserted, 0);
    assert_eq!(diff.summary.deleted, 0);
}

// export function stable(value: number): number {
//   return value + 1;
// }
// and the same function laid out with other spaces and line breaks.
#[test]
fn body_hash_should_ignore_formatting_changes() {
    let old_index = index(
        "format_old.ts",
        vec![exported(function(
            "stable",
            &["value:number"],
            "{return value+1}",
            &["value"],
            2,
            "function stable(value: number): number {\n  return value + 1;\n}",
        ))],
    );
    let new_index = index(
        "format_new.ts",
        vec![exported(function(
            "stable",
            &["value:number"],
            "  {return   value+1}\n",
            &["value"],
            2,
            "function stable(value: number): number {\n\n    return value + 1;\n}",
        ))],
    );

    let a = entity(&old_index, "stable");
    let b = entity(&new_index, "stable");
    assert_eq!(a.body_hash, b.body_hash);
    assert_eq!(a.full_hash, b.full_hash);
    assert_ne!(a.body, b.body);

    let diff = diff_indices(&old_index, &new_index);
    assert_eq!(diff.summary.implementation_changed, 0);
}

// export function changeMe(value: number): number { return value + 1; }
// becomes
// export function changeMe(value: string): number { return value + 1; }
#[test]
fn signature_hash_should_change_only_when_signature_changes() {
    let old_index = index(
        "signature_old.ts",
        vec![exported(function(
            "changeMe",
            &["value:number"],
            "{return value+1}",
            &["value"],
            2,
            "function changeMe(value: number): number {\n  return value + 1;\n}",
        ))],
    );
    let new_index = index(
        "signature_new.ts",
        vec![exported(function(
            "changeMe",
            &["value:string"],
            "{return value+1}",
            &["value"],
            2,
            "function changeMe(value: string): number {\n  return value + 1;\n}",
        ))],
    );

    assert_ne!(
        entity(&old_index, "changeMe").signature_hash,
        entity(&new_index, "changeMe").signature_hash
    );
    assert_eq!(
        entity(&old_index, "changeMe").body_hash,
        entity(&new_index, "changeMe").body_hash
    );
    assert_eq!(
        entity(&new_index, "changeMe").signature,
        "function changeMe(value:string):number"
    );

    let diff = diff_indices(&old_index, &new_index);
    let change = diff
        .changes
        .iter()
        .find(|change| change.anchor_id == entity(&old_index, "changeMe").id)
        .expect("signature change should exist");
    assert!(change.kinds.contains(&SemanticChangeKind::SignatureChanged));
    assert!(!change.kinds.contains(&SemanticChangeKind::ImplementationChanged));
}

#[test]
fn diff_should_scope_small_change_to_function() {
    let base = disjoint_base("disjoint_base.ts");
    let ours = disjoint_ours("disjoint_ours.ts");
    let diff = diff_indices(&base, &ours);

    let change = diff
        .changes
        .iter()
        .find(|change| change.anchor_id == entity(&base, "foo").id)
        .expect("foo change should exist");

    assert!(change.kinds.contains(&SemanticChangeKind::ImplementationChanged));
    assert!(change
        .context
        .as_ref()
        .and_then(|context| context.after.as_deref())
        .is_some_and(|after| after.contains("adjusted")));
}

#[test]
fn merge_should_auto_resolve_disjoint_changes() {
    let base = disjoint_base("disjoint_base.ts");
    let ours = disjoint_ours("disjoint_ours.ts");
    let theirs = disjoint_theirs("disjoint_theirs.ts");
    let merge = merge_indices(&base, &ours, &theirs);

    assert_eq!(merge.status, MergeStatus::Clean);
    assert!(merge.conflicts.is_empty());

    let merged = merge.merged_index.expect("clean merge should produce index");
    assert!(entity(&merged, "foo")
        .body
        .as_deref()
        .is_some_and(|body| body.contains("adjusted")));
    assert!(entity(&merged, "bar")
        .body
        .as_deref()
        .is_some_and(|body| body.contains("doubled")));
}

#[test]
fn merge_should_conflict_on_same_entity_changes() {
    let base = same_base("same_base.ts");
    let ours = same_ours("same_ours.ts");
    let theirs = same_theirs("same_theirs.ts");
    let merge = merge_indices(&base, &ours, &theirs);

    assert_eq!(merge.status, MergeStatus::Conflicted);
    assert_eq!(merge.conflicts.len(), 1);
    assert_eq!(merge.conflicts[0].cause, ConflictCause::ConcurrentModification);
}

#[test]
fn merge_should_auto_resolve_rename_plus_implementation() {
    let base = rename_base("rename_base.ts");
    let ours = rename_ours("rename_ours.ts");
    let theirs = rename_theirs("rename_theirs.ts");
    let merge = merge_indices(&base, &ours, &theirs);

    assert_eq!(merge.status, MergeStatus::Clean);
    let merged = merge.merged_index.expect("rename merge should be clean");
    let entity = entity(&merged, "compute");
    assert_eq!(entity.name, "compute");
    assert!(entity.body.as_deref().is_some_and(|body| body.contains("base*2")));
    assert_eq!(merged.exports.len(), 1);
    assert_eq!(merged.exports[0].exported_name, "compute");
}

#[test]
fn merge_should_flag_split_as_ambiguous() {
    let base = split_base("split_base.ts");
    let ours = split_ours("split_ours.ts");
    let theirs = split_theirs("split_theirs.ts");
    let merge = merge_indices(&base, &ours, &theirs);

    assert_eq!(merge.status, MergeStatus::Conflicted);
    assert!(!merge.conflicts.is_empty());
    assert!(merge.merged_index.is_none());
}

#[test]
fn a_new_parameter_changes_only_the_signature_hash() {
    let before = index("signature_old.ts", vec![exported(foo_plus_one(2))]);
    let after = index(
        "signature_new.ts",
        vec![exported(function(
            "foo",
            &["value:number", "step:number"],
            "{return value+1}",
            &["value"],
            2,
            "function foo(value: number, step: number): number {\n  return value + 1;\n}",
        ))],
    );

    let a = find(&before, "foo").expect("foo should exist");
    let b = find(&after, "foo").expect("foo should exist");
    assert_ne!(a.signature_hash, b.signature_hash);
    assert_eq!(a.body_hash, b.body_hash);
    assert_eq!(b.signature, "function foo(value:number, step:number):number");
}

#[test]
fn diffing_a_module_against_itself_reports_only_unchanged_entities() {
    let module = index("same.ts", vec![exported(foo_plus_one(2)), exported(bar_times_two(6))]);
    let diff = diff_indices(&module, &module);
    assert_eq!(diff.changes.len(), 2);
    assert_eq!(diff.summary.unchanged, 2);
    assert_eq!(
        diff.summary.moved
            + diff.summary.renamed
            + diff.summary.signature_changed
            + diff.summary.implementation_changed
            + diff.summary.inserted
            + diff.summary.deleted
            + diff.summary.split
            + diff.summary.merged,
        0
    );
}

#[test]
fn reports_list_entities_changes_and_conflicts() {
    let base = index("same/base.ts", vec![exported(foo_plus_one(2))]);
    let lines = parse_report_lines(&base);
    assert_eq!(lines[0], "Parsed 1 entities from same/base.ts (typescript)");
    let id = &base.entities[0].id;
    let body = &base.entities[0].body_hash;
    let sig = &base.entities[0].signature_hash;
    assert_eq!(
        lines[1],
        format!("- {:<10} {:<30} id={} body={} sig={}", "function", "foo", &id[..8], &body[..8], &sig[..8])
    );
    assert_eq!(lines[2], "Exports:");
    assert_eq!(lines[3], format!("- foo -> foo ({})", &id[..8]));
    assert_eq!(lines.len(), 4);

    let moved = index("same/moved.ts", vec![exported(foo_plus_one(9))]);
    let diff_lines = diff_report_lines(&diff_indices(&base, &moved));
    assert_eq!(diff_lines[0], "Diff same/base.ts -> same/moved.ts");
    assert_eq!(
        diff_lines[1],
        "Summary: unchanged=0 moved=1 renamed=0 signature=0 implementation=0 inserted=0 deleted=0 split=0 merged=0"
    );
    assert_eq!(diff_lines[2], "- foo [moved]");
    assert_eq!(diff_lines.len(), 4);

    let ours = index(
        "same/ours.ts",
        vec![exported(function("foo", &["value:number"], "{return value+10}", &["value"], 2, "a"))],
    );
    let theirs = index(
        "same/theirs.ts",
        vec![exported(function("foo", &["value:number"], "{return value*3}", &["value"], 2, "b"))],
    );
    let merge_lines = merge_report_lines(&merge_indices(&base, &ours, &theirs));
    assert_eq!(merge_lines[0], "Merge status: Conflicted");
    assert!(merge_lines[1].starts_with("Resolved changes: "));
    assert!(merge_lines[1].ends_with(", conflicts: 1"));
    assert_eq!(merge_lines[merge_lines.len() - 2], "- conflict foo [ConcurrentModification]");
}

#[test]
fn merging_unchanged_branches_is_clean_and_keeps_every_entity() {
    let base = index("same.ts", vec![exported(foo_plus_one(2)), exported(bar_times_two(6))]);
    let merge = merge_indices(&base, &base, &base);
    assert_eq!(merge.status, MergeStatus::Clean);
    assert!(merge.conflicts.is_empty());
    let merged = merge.merged_index.as_ref().expect("a clean merge has an index");
    let paths: Vec<&str> = merged.entities.iter().map(|e| e.path.as_str()).collect();
    assert_eq!(paths, vec!["bar", "foo"]);
    assert_eq!(merged.exports.len(), 2);
    assert_eq!(merge.resolved_changes.len(), 2);
    assert!(merge
        .resolved_changes
        .iter()
        .all(|change| change.kinds == vec![semantit::SemanticChangeKind::Unchanged]));
    for entity in &base.entities {
        let kept = find(merged, &entity.path).expect("every base entity is kept");
        assert_eq!(kept.id, entity.id);
        assert_eq!(kept.body_hash, entity.body_hash);
    }
}

#[test]
fn an_implementation_change_carries_a_unified_diff_of_the_bodies() {
    let base = index("same/base.ts", vec![exported(foo_plus_one(2))]);
    let ours = index(
        "same/ours.ts",
        vec![exported(function(
            "foo",
            &["value:number"],
            "{return value+10}",
            &["value"],
            2,
            "function foo(value: number): number {\n  return value + 10;\n}",
        ))],
    );
    let diff = diff_indices(&base, &ours);
    assert_eq!(diff.summary.implementation_changed, 1);
    let change = &diff.changes[0];
    let context = change.context.as_ref().expect("a changed body has a context");
    assert_eq!(context.before.as_deref(), Some("{return value+1}"));
    assert_eq!(context.after.as_deref(), Some("{return value+10}"));
    assert!(context.unified_diff.contains("--- before"));
    assert!(context.unified_diff.contains("+++ after"));
    assert!(context.unified_diff.contains("-{return value+1}"));
    assert!(context.unified_diff.contains("+{return value+10}"));
    assert_eq!(change.explanation, "Entity `foo` -> `foo` was implementation changed.");
}

#[test]
fn parse_should_work_from_nested_directory_with_relative_paths() {
    // export interface User {
    //   id: string;
    // }
    //
    // export function greet(user: User): string {
    //   return `hola ${user.id}`;
    // }
    let user = semantit::ts_source::InterfaceSource {
        name: "User".to_string(),
        type_params: String::new(),
        extends: Vec::new(),
        body: "{id:string}".to_string(),
        identifiers: Vec::new(),
        at: span(2, "interface User {\n  id: string;\n}"),
    };
    let greet = DeclSource::Function {
        name: "greet".to_string(),
        function: FunctionSource {
            is_async: false,
            is_generator: false,
            type_params: String::new(),
            params: strings(&["user:User"]),
            return_type: ":string".to_string(),
            body: Some("{return`hola ${user.id}`}".to_string()),
            identifiers: strings(&["User", "user"]),
        },
        at: span(6, "function greet(user: User): string {\n  return `hola ${user.id}`;\n}"),
    };
    let parsed = index(
        "../../src/parse_sample.ts",
        vec![exported(DeclSource::Interface(user)), exported(greet)],
    );

    assert_eq!(parsed.language.as_str(), "typescript");
    assert_eq!(parsed.entities.len(), 2);
    assert_eq!(parsed.exports.len(), 2);
    assert_eq!(parsed.path, "../../src/parse_sample.ts");
}

#[test]
fn merging_against_an_unchanged_branch_takes_its_changes() {
    let base = disjoint_base("base.ts");
    // bar keeps its id and gets a new body; foo keeps its id and moves down.
    let branch = index(
        "branch.ts",
        vec![exported(bar_doubled(2)), exported(foo_plus_one(7))],
    );

    for merge in [merge_indices(&base, &branch, &base), merge_indices(&base, &base, &branch)] {
        assert_eq!(merge.status, MergeStatus::Clean);
        assert!(merge.conflicts.is_empty());
        let merged = merge.merged_index.expect("a clean merge has an index");
        assert_eq!(merged.entities.len(), 2);
        for path in ["foo", "bar"] {
            let kept = entity(&merged, path);
            let theirs = entity(&branch, path);
            assert_eq!(kept.id, theirs.id);
            assert_eq!(kept.signature_hash, theirs.signature_hash);
            assert_eq!(kept.body_hash, theirs.body_hash);
        }
        assert!(entity(&merged, "bar").body.as_deref().is_some_and(|body| body.contains("doubled")));
    }
}

fn keys(index: &FileSemanticIndex) -> Vec<(String, String, String, String, String)> {
    let mut keys: Vec<_> = index
        .entities
        .iter()
        .map(|e| {
            (
                e.id.clone(),
                e.path.clone(),
                e.signature_hash.clone(),
                e.body_hash.clone(),
                e.full_hash.clone(),
            )
        })
        .collect();
    keys.sort();
    keys
}

#[test]
fn reordered_and_respaced_items_give_the_same_keys() {
    let before = index("layout_old.ts", vec![exported(foo_plus_one(2)), exported(bar_times_two(6))]);
    let after = index(
        "layout_new.ts",
        vec![
            exported(function(
                "bar",
                &["value:number"],
                "  {return   value*2}\n",
                &["value"],
                4,
                "function bar(value: number): number {\n    return value * 2;\n}",
            )),
            exported(foo_plus_one(12)),
        ],
    );
    assert_eq!(keys(&before), keys(&after));
    assert_eq!(before.entities.len(), 2);

    let diff = diff_indices(&before, &after);
    assert_eq!(diff.summary.moved, 2);
    assert_eq!(
        diff.summary.renamed
            + diff.summary.signature_changed
            + diff.summary.implementation_changed
            + diff.summary.inserted
            + diff.summary.deleted
            + diff.summary.split
            + diff.summary.merged,
        0
    );
}

#[test]
fn a_header_edit_changes_only_that_entity() {
    let before = index("header_old.ts", vec![exported(foo_plus_one(2)), exported(bar_times_two(6))]);
    let after = index(
        "header_new.ts",
        vec![
            exported(foo_plus_one(2)),
            exported(function(
                "bar",
                &["value:string"],
                "{return value*2}",
                &["value"],
                6,
                "function bar(value: string): number {\n  return value * 2;\n}",
            )),
        ],
    );
    let (old_foo, new_foo) = (entity(&before, "foo"), entity(&after, "foo"));
    assert_eq!(old_foo.id, new_foo.id);
    assert_eq!(old_foo.full_hash, new_foo.full_hash);
    let (old_bar, new_bar) = (entity(&before, "bar"), entity(&after, "bar"));
    assert_eq!(old_bar.body_hash, new_bar.body_hash);
    assert_ne!(old_bar.signature_hash, new_bar.signature_hash);
    assert_ne!(old_bar.id, new_bar.id);

    let diff = diff_indices(&before, &after);
    let change = diff
        .changes
        .iter()
        .find(|change| change.anchor_id == old_bar.id)
        .expect("the edited function is reported");
    assert_eq!(change.kinds, vec![SemanticChangeKind::SignatureChanged]);
    assert_eq!(diff.summary.unchanged, 1);
}

#[test]
fn merging_against_an_unchanged_branch_keeps_its_insertions() {
    let base = disjoint_base("base.ts");
    let branch = index(
        "branch.ts",
        vec![
            exported(foo_adjusted(2)),
            exported(bar_times_two(7)),
            exported(function(
                "baz",
                &["value:number"],
                "{return value-1}",
                &["value"],
                11,
                "function baz(value: number): number {\n  return value - 1;\n}",
            )),
        ],
    );

    for merge in [merge_indices(&base, &branch, &base), merge_indices(&base, &base, &branch)] {
        assert_eq!(merge.status, MergeStatus::Clean);
        let merged = merge.merged_index.expect("a clean merge has an index");
        assert_eq!(merged.entities.len(), 3);
        assert_eq!(entity(&merged, "baz").id, entity(&branch, "baz").id);
        assert_eq!(entity(&merged, "foo").body_hash, entity(&branch, "foo").body_hash);
        assert_eq!(entity(&merged, "bar").id, entity(&base, "bar").id);
    }
}
