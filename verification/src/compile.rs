//! The one compilation operation: resolve the entry file, parse, check,
//! emit, and aggregate everything into a single result.
//!
//! `spec_compile` is the mathematical definition of the whole call, and
//! `compile_virtual` returns exactly its value, so the operation is a pure
//! function of its arguments: no state survives a call, and identical
//! arguments always give identical results.

use vstd::prelude::*;

use crate::check::check_items;
use crate::check::error_diag;
use crate::check::sp_check;
use crate::emit::emit_all;
use crate::emit::sp_emit;
use crate::model::CompileOptions;
use crate::model::CompileOptionsV;
use crate::model::CompileResult;
use crate::model::CompileResultV;
use crate::model::Diagnostic;
use crate::model::Severity;
use crate::model::SourceFile;
use crate::model::SourceFileV;
use crate::model::contains_error;
use crate::model::diag_views;
use crate::model::emitted_views;
use crate::model::file_views;
use crate::model::has_error;
use crate::syntax::parse;
use crate::syntax::sp_items;
use crate::syntax::spec_tokens_from;
use crate::syntax::tokenize;
use crate::vfs::Vfs;
use crate::vfs::vfs_get;

verus! {

/// The result of compiling `entry` against the virtual file set `files`
/// with the given options.
///
/// An absent entry file short-circuits to a failed result with one error
/// diagnostic naming the entry.  A source outside the grammar gives one
/// syntax-error diagnostic.  Otherwise the diagnostics are those of the
/// checking phase followed by those of the emission phase, `success` holds
/// exactly when none of them is an error, and artifacts are returned only
/// on success.
pub open spec fn spec_compile(
    files: Seq<SourceFileV>,
    entry: Seq<char>,
    options: CompileOptionsV,
) -> CompileResultV {
    match vfs_get(files, entry) {
        Option::None => CompileResultV {
            success: false,
            diagnostics: seq![error_diag("entry file not found: "@ + entry)],
            emitted: Seq::empty(),
        },
        Option::Some(src) => {
            let parsed = sp_items(src, spec_tokens_from(src, 0), 0, Option::None);
            if !parsed.ok {
                CompileResultV {
                    success: false,
                    diagnostics: seq![error_diag("syntax error"@)],
                    emitted: Seq::empty(),
                }
            } else {
                let cdiags = sp_check(parsed.items, 0, Seq::empty(), files);
                let emitted = sp_emit(options.emitters, 0, parsed.items, options.output_dir);
                let all = cdiags + emitted.1;
                let ok = !has_error(all);
                CompileResultV {
                    success: ok,
                    diagnostics: all,
                    emitted: if ok {
                        emitted.0
                    } else {
                        Seq::empty()
                    },
                }
            }
        },
    }
}

/// The declarations of the entry file, as the pipeline parses them; the
/// empty sequence when the entry is absent from the virtual file set.
pub open spec fn checked_items(files: Seq<SourceFileV>, entry: Seq<char>) -> Seq<
    crate::syntax::ItemV,
> {
    match vfs_get(files, entry) {
        Option::Some(src) => sp_items(src, spec_tokens_from(src, 0), 0, Option::None).items,
        Option::None => Seq::empty(),
    }
}

/// Compiles `entry` against the caller's virtual files, entirely in
/// memory, and returns the aggregated result.
pub fn compile_virtual(
    files: &Vec<SourceFile>,
    entry: &str,
    options: &CompileOptions,
) -> (r: CompileResult)
    ensures
        r@ == spec_compile(file_views(files@), entry@, options@),
        (r@.success == false) <==> (vfs_get(file_views(files@), entry@) is None || has_error(
            r@.diagnostics,
        )),
        options@.emitters.len() == 0 ==> r@.emitted == Seq::<crate::model::EmittedFileV>::empty(),
        !r@.success ==> r@.emitted == Seq::<crate::model::EmittedFileV>::empty(),
{
    proof {
        crate::laws::lemma_success_characterization(file_views(files@), entry@, options@);
        crate::laws::lemma_no_emission(file_views(files@), entry@, options@);
    }
    let ghost fv = file_views(files@);
    let vfs = Vfs::new(files);
    let entry_src = match vfs.get(entry) {
        Option::Some(src) => src.clone(),
        Option::None => {
            let d = Diagnostic {
                severity: Severity::Error,
                message: String::from_str("entry file not found: ").concat(entry),
            };
            let r = CompileResult { success: false, diagnostics: vec![d], emitted: Vec::new() };
            assert(r@ =~= spec_compile(fv, entry@, options@));
            return r;
        },
    };
    let toks = tokenize(entry_src.as_str());
    let (items, ok) = parse(entry_src.as_str(), &toks);
    if !ok {
        let d = Diagnostic {
            severity: Severity::Error,
            message: String::from_str("syntax error"),
        };
        let r = CompileResult { success: false, diagnostics: vec![d], emitted: Vec::new() };
        assert(r@ =~= spec_compile(fv, entry@, options@));
        return r;
    }
    let mut diags = check_items(&items, &vfs);
    let (arts, mut ediags) = emit_all(
        &options.emitters,
        &items,
        options.output_dir.as_str(),
        &options.arguments,
    );
    let ghost cdv = diags@;
    let ghost edv = ediags@;
    diags.append(&mut ediags);
    proof {
        assert(diag_views(diags@) =~= diag_views(cdv) + diag_views(edv));
    }
    let success = !contains_error(&diags);
    let emitted = if success {
        arts
    } else {
        Vec::new()
    };
    let r = CompileResult { success, diagnostics: diags, emitted };
    proof {
        if !success {
            assert(emitted_views(r.emitted@) =~= Seq::<crate::model::EmittedFileV>::empty());
        }
        assert(r@ =~= spec_compile(fv, entry@, options@));
    }
    r
}

} // verus!
