use tspvirt::CompileOptions;
use tspvirt::CompileResult;
use tspvirt::Severity;
use tspvirt::SourceFile;
use tspvirt::compile::compile_virtual;

fn file(path: &str, contents: &str) -> SourceFile {
    SourceFile { path: path.to_string(), contents: contents.to_string() }
}

fn options(emitters: &[&str], output_dir: &str) -> CompileOptions {
    CompileOptions {
        emitters: emitters.iter().map(|e| e.to_string()).collect(),
        output_dir: output_dir.to_string(),
        arguments: Vec::new(),
    }
}

fn run(files: Vec<SourceFile>, entry: &str, opts: &CompileOptions) -> CompileResult {
    compile_virtual(&files, entry, opts)
}

#[test]
fn scalar_compiles_clean() {
    let files = vec![file("main.tsp", "scalar MyString extends string;")];
    let r = run(files, "main.tsp", &options(&[], "./temp"));
    assert!(r.success);
    assert_eq!(r.diagnostics.len(), 0);
    assert_eq!(r.emitted.len(), 0);
}

#[test]
fn missing_entry_fails_with_named_diagnostic() {
    let files = vec![file("main.tsp", "scalar MyString extends string;")];
    let r = run(files, "missing.tsp", &options(&[], "./temp"));
    assert!(!r.success);
    assert_eq!(r.diagnostics.len(), 1);
    assert_eq!(r.diagnostics[0].severity, Severity::Error);
    assert!(r.diagnostics[0].message.contains("missing.tsp"));
    assert_eq!(r.diagnostics[0].message, "entry file not found: missing.tsp");
    assert_eq!(r.emitted.len(), 0);
}

#[test]
fn namespace_with_json_emitter_emits_one_json_file() {
    let files = vec![file("service.tsp", "namespace MyService { op ping(): void; }")];
    let r = run(files, "service.tsp", &options(&["json-schema"], "./temp"));
    assert!(r.success);
    assert_eq!(r.diagnostics.len(), 0);
    assert_eq!(r.emitted.len(), 1);
    assert!(r.emitted[0].path.ends_with(".json"));
    assert_eq!(r.emitted[0].path, "./temp/schema.json");
    assert_eq!(r.emitted[0].contents, "{\"scalars\":[],\"operations\":[\"MyService.ping\"]}");
}

#[test]
fn json_emitter_lists_scalars_and_operations() {
    let files = vec![file(
        "api.tsp",
        "scalar Id extends string; namespace Api { op get(): Id; op del(): void; }",
    )];
    let r = run(files, "api.tsp", &options(&["json-schema"], "out"));
    assert!(r.success);
    assert_eq!(r.emitted.len(), 1);
    assert_eq!(r.emitted[0].path, "out/schema.json");
    assert_eq!(
        r.emitted[0].contents,
        "{\"scalars\":[\"Id\"],\"operations\":[\"Api.get\",\"Api.del\"]}"
    );
}

#[test]
fn summary_emitter_lists_declarations() {
    let files = vec![file("service.tsp", "namespace MyService { op ping(): void; }")];
    let r = run(files, "service.tsp", &options(&["summary"], ""));
    assert!(r.success);
    assert_eq!(r.emitted.len(), 1);
    assert_eq!(r.emitted[0].path, "summary.txt");
    assert_eq!(r.emitted[0].contents, "namespace MyService\nop MyService.ping\n");
}

#[test]
fn identical_calls_give_identical_results() {
    let make = || {
        run(
            vec![
                file("a.tsp", "import \"b.tsp\"; scalar A extends string;"),
                file("b.tsp", "scalar B extends string;"),
            ],
            "a.tsp",
            &options(&["json-schema", "summary"], "./temp"),
        )
    };
    let r1 = make();
    let r2 = make();
    assert_eq!(r1, r2);
}

#[test]
fn emitted_order_matches_emitter_order() {
    let files = vec![file("main.tsp", "scalar A extends string;")];
    let r = run(files.clone(), "main.tsp", &options(&["summary", "json-schema"], "d"));
    assert!(r.success);
    assert_eq!(r.emitted.len(), 2);
    assert_eq!(r.emitted[0].path, "d/summary.txt");
    assert_eq!(r.emitted[1].path, "d/schema.json");

    let r2 = run(files, "main.tsp", &options(&["json-schema", "summary"], "d"));
    assert_eq!(r2.emitted[0].path, "d/schema.json");
    assert_eq!(r2.emitted[1].path, "d/summary.txt");
}

#[test]
fn no_emitters_means_no_artifacts_even_on_failure() {
    let r = run(
        vec![file("main.tsp", "scalar A extends nope;")],
        "main.tsp",
        &options(&[], "./temp"),
    );
    assert!(!r.success);
    assert_eq!(r.emitted.len(), 0);
}

#[test]
fn failed_compilation_emits_nothing() {
    let r = run(
        vec![file("main.tsp", "scalar A extends nope;")],
        "main.tsp",
        &options(&["json-schema"], "./temp"),
    );
    assert!(!r.success);
    assert_eq!(r.diagnostics.len(), 1);
    assert_eq!(r.diagnostics[0].severity, Severity::Error);
    assert_eq!(r.diagnostics[0].message, "unknown type: nope");
    assert_eq!(r.emitted.len(), 0);
}

#[test]
fn success_is_false_exactly_when_an_error_diagnostic_exists() {
    let good = run(
        vec![file("main.tsp", "scalar A extends string;")],
        "main.tsp",
        &options(&["bogus"], "./temp"),
    );
    assert!(good.diagnostics.iter().all(|d| d.severity != Severity::Error));
    assert!(good.success);

    let bad = run(
        vec![file("main.tsp", "scalar A extends nope;")],
        "main.tsp",
        &options(&["bogus"], "./temp"),
    );
    assert!(bad.diagnostics.iter().any(|d| d.severity == Severity::Error));
    assert!(!bad.success);
}

#[test]
fn unknown_emitter_warns_but_does_not_fail() {
    let r = run(
        vec![file("main.tsp", "scalar A extends string;")],
        "main.tsp",
        &options(&["bogus", "json-schema"], "./temp"),
    );
    assert!(r.success);
    assert_eq!(r.diagnostics.len(), 1);
    assert_eq!(r.diagnostics[0].severity, Severity::Warning);
    assert_eq!(r.diagnostics[0].message, "unknown emitter: bogus");
    assert_eq!(r.emitted.len(), 1);
    assert_eq!(r.emitted[0].path, "./temp/schema.json");
}

#[test]
fn syntax_error_gives_one_error_diagnostic() {
    let r = run(vec![file("main.tsp", "scalar ;")], "main.tsp", &options(&[], "o"));
    assert!(!r.success);
    assert_eq!(r.diagnostics.len(), 1);
    assert_eq!(r.diagnostics[0].severity, Severity::Error);
    assert_eq!(r.diagnostics[0].message, "syntax error");
}

#[test]
fn unterminated_string_is_a_syntax_error() {
    let r = run(vec![file("main.tsp", "import \"half")], "main.tsp", &options(&[], "o"));
    assert!(!r.success);
    assert_eq!(r.diagnostics[0].message, "syntax error");
}

#[test]
fn unclosed_namespace_is_a_syntax_error() {
    let r = run(
        vec![file("main.tsp", "namespace N { op f(): void;")],
        "main.tsp",
        &options(&[], "o"),
    );
    assert!(!r.success);
    assert_eq!(r.diagnostics[0].message, "syntax error");
}

#[test]
fn import_resolves_only_against_the_virtual_files() {
    let present = run(
        vec![
            file("main.tsp", "import \"lib.tsp\"; scalar A extends string;"),
            file("lib.tsp", "scalar B extends string;"),
        ],
        "main.tsp",
        &options(&[], "o"),
    );
    assert!(present.success);
    assert_eq!(present.diagnostics.len(), 0);

    let absent = run(
        vec![file("main.tsp", "import \"lib.tsp\"; scalar A extends string;")],
        "main.tsp",
        &options(&[], "o"),
    );
    assert!(!absent.success);
    assert_eq!(absent.diagnostics.len(), 1);
    assert_eq!(absent.diagnostics[0].severity, Severity::Error);
    assert_eq!(absent.diagnostics[0].message, "unresolved import: lib.tsp");
}

#[test]
fn duplicate_paths_resolve_to_the_last_occurrence() {
    let r = run(
        vec![
            file("main.tsp", "scalar A extends nope;"),
            file("main.tsp", "scalar A extends string;"),
        ],
        "main.tsp",
        &options(&[], "o"),
    );
    assert!(r.success);
    assert_eq!(r.diagnostics.len(), 0);
}

#[test]
fn scalar_may_extend_an_earlier_scalar_only() {
    let ordered = run(
        vec![file("main.tsp", "scalar A extends string; scalar B extends A;")],
        "main.tsp",
        &options(&[], "o"),
    );
    assert!(ordered.success);

    let forward = run(
        vec![file("main.tsp", "scalar B extends A; scalar A extends string;")],
        "main.tsp",
        &options(&[], "o"),
    );
    assert!(!forward.success);
    assert_eq!(forward.diagnostics[0].message, "unknown type: A");
}

#[test]
fn operation_return_type_is_checked() {
    let bad = run(
        vec![file("main.tsp", "namespace N { op f(): Ghost; }")],
        "main.tsp",
        &options(&[], "o"),
    );
    assert!(!bad.success);
    assert_eq!(bad.diagnostics[0].message, "unknown type: Ghost");

    let good = run(
        vec![file("main.tsp", "scalar A extends int64; namespace N { op f(): A; }")],
        "main.tsp",
        &options(&[], "o"),
    );
    assert!(good.success);
}

#[test]
fn empty_output_dir_keeps_relative_paths() {
    let r = run(
        vec![file("main.tsp", "scalar A extends string;")],
        "main.tsp",
        &options(&["json-schema"], ""),
    );
    assert_eq!(r.emitted[0].path, "schema.json");
}

#[test]
fn diagnostics_keep_phase_order() {
    let r = run(
        vec![file("main.tsp", "import \"gone.tsp\"; scalar A extends nope;")],
        "main.tsp",
        &options(&["bogus"], "o"),
    );
    assert!(!r.success);
    assert_eq!(r.diagnostics.len(), 3);
    assert_eq!(r.diagnostics[0].message, "unresolved import: gone.tsp");
    assert_eq!(r.diagnostics[1].message, "unknown type: nope");
    assert_eq!(r.diagnostics[2].message, "unknown emitter: bogus");
    assert_eq!(r.diagnostics[2].severity, Severity::Warning);
}
