use tspvirt::CompileOptions;
use tspvirt::CompileResult;
use tspvirt::Diagnostic;
use tspvirt::EmittedFile;
use tspvirt::Severity;
use tspvirt::SourceFile;
use tspvirt::codec::decode_call;
use tspvirt::codec::decode_result;
use tspvirt::codec::encode_call;
use tspvirt::codec::encode_result;
use tspvirt::compile::compile_virtual;

#[test]
fn empty_result_round_trips() {
    let r = CompileResult { success: true, diagnostics: vec![], emitted: vec![] };
    let bytes = encode_result(&r);
    assert_eq!(bytes.len(), 17);
    assert_eq!(bytes[0], 1);
    assert_eq!(decode_result(&bytes), Some(r));
}

#[test]
fn full_result_round_trips() {
    let r = CompileResult {
        success: false,
        diagnostics: vec![
            Diagnostic { severity: Severity::Error, message: "unknown type: nope".to_string() },
            Diagnostic { severity: Severity::Warning, message: "unknown emitter: x".to_string() },
            Diagnostic { severity: Severity::Info, message: "".to_string() },
            Diagnostic { severity: Severity::Hint, message: "try int32".to_string() },
        ],
        emitted: vec![EmittedFile {
            path: "./temp/schema.json".to_string(),
            contents: "{\"scalars\":[]}".to_string(),
        }],
    };
    let bytes = encode_result(&r);
    assert_eq!(decode_result(&bytes), Some(r));
}

#[test]
fn non_ascii_text_round_trips() {
    let r = CompileResult {
        success: true,
        diagnostics: vec![Diagnostic {
            severity: Severity::Info,
            message: "schéma prêt — 図".to_string(),
        }],
        emitted: vec![],
    };
    let bytes = encode_result(&r);
    assert_eq!(decode_result(&bytes), Some(r));
}

#[test]
fn a_real_compilation_result_round_trips() {
    let files = vec![SourceFile {
        path: "service.tsp".to_string(),
        contents: "namespace MyService { op ping(): void; }".to_string(),
    }];
    let opts = CompileOptions {
        emitters: vec!["json-schema".to_string(), "summary".to_string()],
        output_dir: "./temp".to_string(),
        arguments: vec![],
    };
    let r = compile_virtual(&files, "service.tsp", &opts);
    let bytes = encode_result(&r);
    assert_eq!(decode_result(&bytes), Some(r));
}

#[test]
fn severity_tags_are_the_closed_four_value_set() {
    for (severity, tag) in [
        (Severity::Error, 0u8),
        (Severity::Warning, 1u8),
        (Severity::Info, 2u8),
        (Severity::Hint, 3u8),
    ] {
        let r = CompileResult {
            success: true,
            diagnostics: vec![Diagnostic { severity, message: "m".to_string() }],
            emitted: vec![],
        };
        let bytes = encode_result(&r);
        assert_eq!(bytes[9], tag);
    }
}

#[test]
fn mangled_bytes_are_rejected() {
    let r = CompileResult { success: true, diagnostics: vec![], emitted: vec![] };
    let mut bytes = encode_result(&r);

    let mut truncated = bytes.clone();
    truncated.pop();
    assert_eq!(decode_result(&truncated), None);

    let mut extended = bytes.clone();
    extended.push(0);
    assert_eq!(decode_result(&extended), None);

    bytes[0] = 7;
    assert_eq!(decode_result(&bytes), None);

    assert_eq!(decode_result(&Vec::new()), None);
}

#[test]
fn a_call_round_trips() {
    let files = vec![
        SourceFile {
            path: "main.tsp".to_string(),
            contents: "import \"lib.tsp\"; scalar A extends string;".to_string(),
        },
        SourceFile { path: "lib.tsp".to_string(), contents: "".to_string() },
    ];
    let entry = "main.tsp".to_string();
    let options = CompileOptions {
        emitters: vec!["json-schema".to_string()],
        output_dir: "./temp".to_string(),
        arguments: vec!["--strict".to_string(), "".to_string()],
    };
    let bytes = encode_call(&files, &entry, &options);
    assert_eq!(decode_call(&bytes), Some((files, entry, options)));
}

#[test]
fn a_marshalled_call_compiles_like_a_direct_one() {
    let files = vec![SourceFile {
        path: "main.tsp".to_string(),
        contents: "scalar MyString extends string;".to_string(),
    }];
    let options = CompileOptions {
        emitters: vec!["summary".to_string()],
        output_dir: "o".to_string(),
        arguments: vec![],
    };
    let bytes = encode_call(&files, "main.tsp", &options);
    let (dfiles, dentry, dopts) = decode_call(&bytes).expect("wire form");
    let over_the_wire = compile_virtual(&dfiles, &dentry, &dopts);
    let direct = compile_virtual(&files, "main.tsp", &options);
    assert_eq!(over_the_wire, direct);
}

#[test]
fn truncated_calls_are_rejected() {
    let files = vec![SourceFile { path: "a".to_string(), contents: "b".to_string() }];
    let options = CompileOptions {
        emitters: vec![],
        output_dir: "".to_string(),
        arguments: vec![],
    };
    let bytes = encode_call(&files, "a", &options);
    for cut in 0..bytes.len() {
        let shorter = bytes[..cut].to_vec();
        assert_eq!(decode_call(&shorter), None);
    }
}

#[test]
fn bad_severity_tag_is_rejected() {
    let r = CompileResult {
        success: true,
        diagnostics: vec![Diagnostic { severity: Severity::Error, message: "m".to_string() }],
        emitted: vec![],
    };
    let mut bytes = encode_result(&r);
    bytes[9] = 4;
    assert_eq!(decode_result(&bytes), None);
}
