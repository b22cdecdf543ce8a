//! The records exchanged with the caller of one virtual compilation.
//!
//! Each record is a plain structural value: a bag of fields with no hidden
//! state, so that it can be marshalled across any call boundary field by
//! field.  The mathematical model of each record is a ghost counterpart
//! whose text fields are character sequences; the `View` impls connect the
//! two.

use vstd::prelude::*;

verus! {

/// How serious one compiler message is.  The set is closed: a boundary can
/// encode it as one of exactly four tags.
#[derive(Clone, Copy, Debug, PartialEq, Eq, Structural)]
pub enum Severity {
    Error,
    Warning,
    Info,
    Hint,
}

impl Severity {
    /// True exactly for the severity that forces a failed compilation.
    pub fn is_error(&self) -> (r: bool)
        ensures
            r == (*self is Error),
    {
        match self {
            Severity::Error => true,
            _ => false,
        }
    }
}

/// One virtual source file: a caller-defined path and its full text.
#[derive(Clone, Debug, PartialEq, Eq)]
pub struct SourceFile {
    pub path: String,
    pub contents: String,
}

#[verifier::ext_equal]
pub ghost struct SourceFileV {
    pub path: Seq<char>,
    pub contents: Seq<char>,
}

impl View for SourceFile {
    type V = SourceFileV;

    open spec fn view(&self) -> SourceFileV {
        SourceFileV { path: self.path@, contents: self.contents@ }
    }
}

/// One structured compiler message.
#[derive(Clone, Debug, PartialEq, Eq)]
pub struct Diagnostic {
    pub severity: Severity,
    pub message: String,
}

#[verifier::ext_equal]
pub ghost struct DiagnosticV {
    pub severity: Severity,
    pub message: Seq<char>,
}

impl View for Diagnostic {
    type V = DiagnosticV;

    open spec fn view(&self) -> DiagnosticV {
        DiagnosticV { severity: self.severity, message: self.message@ }
    }
}

/// One artifact produced by an emitter.  Its path is the virtual join of
/// the configured output directory and the emitter-chosen relative path;
/// its contents are text, which the boundary marshals length-prefixed.
#[derive(Clone, Debug, PartialEq, Eq)]
pub struct EmittedFile {
    pub path: String,
    pub contents: String,
}

#[verifier::ext_equal]
pub ghost struct EmittedFileV {
    pub path: Seq<char>,
    pub contents: Seq<char>,
}

impl View for EmittedFile {
    type V = EmittedFileV;

    open spec fn view(&self) -> EmittedFileV {
        EmittedFileV { path: self.path@, contents: self.contents@ }
    }
}

/// The caller's options for one compilation.
///
/// An empty `emitters` list asks for a diagnostics-only run: nothing is
/// emitted.  `arguments` is an ordered list of opaque strings handed through
/// to the emitters.
#[derive(Clone, Debug, PartialEq, Eq)]
pub struct CompileOptions {
    pub emitters: Vec<String>,
    pub output_dir: String,
    pub arguments: Vec<String>,
}

#[verifier::ext_equal]
pub ghost struct CompileOptionsV {
    pub emitters: Seq<Seq<char>>,
    pub output_dir: Seq<char>,
    pub arguments: Seq<Seq<char>>,
}

impl View for CompileOptions {
    type V = CompileOptionsV;

    open spec fn view(&self) -> CompileOptionsV {
        CompileOptionsV {
            emitters: string_views(self.emitters@),
            output_dir: self.output_dir@,
            arguments: string_views(self.arguments@),
        }
    }
}

/// The one result of a compilation call.
#[derive(Clone, Debug, PartialEq, Eq)]
pub struct CompileResult {
    pub success: bool,
    pub diagnostics: Vec<Diagnostic>,
    pub emitted: Vec<EmittedFile>,
}

#[verifier::ext_equal]
pub ghost struct CompileResultV {
    pub success: bool,
    pub diagnostics: Seq<DiagnosticV>,
    pub emitted: Seq<EmittedFileV>,
}

impl View for CompileResult {
    type V = CompileResultV;

    open spec fn view(&self) -> CompileResultV {
        CompileResultV {
            success: self.success,
            diagnostics: diag_views(self.diagnostics@),
            emitted: emitted_views(self.emitted@),
        }
    }
}

/// The character sequences of a sequence of strings.
pub open spec fn string_views(strings: Seq<String>) -> Seq<Seq<char>> {
    strings.map_values(|s: String| s@)
}

/// The models of a sequence of source files.
pub open spec fn file_views(files: Seq<SourceFile>) -> Seq<SourceFileV> {
    files.map_values(|f: SourceFile| f@)
}

/// The models of a sequence of diagnostics.
pub open spec fn diag_views(diags: Seq<Diagnostic>) -> Seq<DiagnosticV> {
    diags.map_values(|d: Diagnostic| d@)
}

/// The models of a sequence of emitted files.
pub open spec fn emitted_views(files: Seq<EmittedFile>) -> Seq<EmittedFileV> {
    files.map_values(|f: EmittedFile| f@)
}

/// True when some diagnostic in the sequence has error severity: the
/// condition that forces `success == false`.
pub open spec fn has_error(diags: Seq<DiagnosticV>) -> bool {
    exists|i: int| 0 <= i < diags.len() && diags[i].severity is Error
}

/// Whether the sequence of diagnostics contains one with error severity.
pub fn contains_error(diags: &Vec<Diagnostic>) -> (r: bool)
    ensures
        r == has_error(diag_views(diags@)),
{
    let mut i: usize = 0;
    while i < diags.len()
        invariant
            0 <= i <= diags.len(),
            forall|j: int| 0 <= j < i ==> !(diag_views(diags@)[j].severity is Error),
        decreases diags.len() - i,
    {
        if diags[i].severity.is_error() {
            assert(diag_views(diags@)[i as int].severity is Error);
            return true;
        }
        i = i + 1;
    }
    false
}

} // verus!
