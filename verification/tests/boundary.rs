use tspvirt::CompileOptions;
use tspvirt::SourceFile;
use tspvirt::boundary::CallError;
use tspvirt::boundary::GuestOutcome;
use tspvirt::boundary::instance_reusable;
use tspvirt::boundary::invoke;
use tspvirt::boundary::settle;
use tspvirt::compile::compile_virtual;

fn file(path: &str, contents: &str) -> SourceFile {
    SourceFile { path: path.to_string(), contents: contents.to_string() }
}

fn options(emitters: &[&str]) -> CompileOptions {
    CompileOptions {
        emitters: emitters.iter().map(|e| e.to_string()).collect(),
        output_dir: "./temp".to_string(),
        arguments: Vec::new(),
    }
}

#[test]
fn returned_outcome_settles_to_the_result() {
    let files = vec![file("main.tsp", "scalar A extends string;")];
    let result = compile_virtual(&files, "main.tsp", &options(&[]));
    let settled = settle(GuestOutcome::Returned(result.clone()));
    assert_eq!(settled, Ok(result));
}

#[test]
fn trap_settles_to_a_call_level_fault() {
    let settled = settle(GuestOutcome::Trapped("wasm trap: unreachable".to_string()));
    assert_eq!(settled, Err(CallError::Fault("wasm trap: unreachable".to_string())));
}

#[test]
fn exhaustion_settles_to_a_call_level_error() {
    let settled = settle(GuestOutcome::Exhausted);
    assert_eq!(settled, Err(CallError::Exhausted));
}

#[test]
fn faulted_instances_are_never_reused() {
    let files = vec![file("main.tsp", "scalar A extends string;")];
    let result = compile_virtual(&files, "main.tsp", &options(&[]));
    assert!(instance_reusable(&GuestOutcome::Returned(result)));
    assert!(!instance_reusable(&GuestOutcome::Trapped("boom".to_string())));
    assert!(!instance_reusable(&GuestOutcome::Exhausted));
}

#[test]
fn empty_emitter_name_is_a_malformed_options_failure() {
    let files = vec![file("main.tsp", "scalar A extends string;")];
    let r = invoke(&files, "main.tsp", &options(&[""]));
    assert_eq!(r, Err(CallError::MalformedOptions));
}

#[test]
fn a_fault_does_not_affect_the_next_independent_call() {
    let faulted = settle(GuestOutcome::Trapped("guest crashed".to_string()));
    assert!(faulted.is_err());

    let files = vec![file("main.tsp", "scalar A extends string;")];
    let opts = options(&["json-schema"]);
    let after = invoke(&files, "main.tsp", &opts).expect("well-formed call");
    let fresh = compile_virtual(&files, "main.tsp", &opts);
    assert!(after.success);
    assert_eq!(after, fresh);
}
