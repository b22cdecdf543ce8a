//! The crate-level guarantees, stated over the specification of one call
//! and proved once for all inputs.

use vstd::prelude::*;

use crate::boundary::CallErrorV;
use crate::boundary::GuestOutcomeV;
use crate::boundary::spec_settle;
use crate::compile::checked_items;
use crate::compile::spec_compile;
use crate::emit::all_known;
use crate::emit::emitter_files;
use crate::emit::sp_emit;
use crate::model::CompileOptionsV;
use crate::model::SourceFileV;
use crate::model::has_error;
use crate::syntax::ItemV;
use crate::vfs::vfs_get;

verus! {

/// Nothing is ever emitted by a call that asked for no emitters, and
/// nothing is ever emitted by a failed call, whatever the inputs.
pub proof fn lemma_no_emission(
    files: Seq<SourceFileV>,
    entry: Seq<char>,
    options: CompileOptionsV,
)
    ensures
        options.emitters.len() == 0 ==> spec_compile(files, entry, options).emitted
            == Seq::<crate::model::EmittedFileV>::empty(),
        !spec_compile(files, entry, options).success ==> spec_compile(
            files,
            entry,
            options,
        ).emitted == Seq::<crate::model::EmittedFileV>::empty(),
{
}

/// A call fails exactly when the entry file is absent from the virtual
/// file set or some diagnostic of the result carries error severity.
pub proof fn lemma_success_characterization(
    files: Seq<SourceFileV>,
    entry: Seq<char>,
    options: CompileOptionsV,
)
    ensures
        (spec_compile(files, entry, options).success == false) <==> (vfs_get(files, entry) is None
            || has_error(spec_compile(files, entry, options).diagnostics)),
{
    let r = spec_compile(files, entry, options);
    if vfs_get(files, entry) is None {
        assert(r.success == false);
    } else {
        let src = vfs_get(files, entry)->Some_0;
        let parsed = crate::syntax::sp_items(
            src,
            crate::syntax::spec_tokens_from(src, 0),
            0,
            Option::None,
        );
        if !parsed.ok {
            assert(r.diagnostics[0].severity is Error);
            assert(has_error(r.diagnostics));
        }
    }
}

/// Compilation is a pure function of its arguments: two calls whose
/// files, entry, and options agree yield the very same result, in the
/// same order, byte for byte.
pub proof fn lemma_deterministic(
    files1: Seq<SourceFileV>,
    entry1: Seq<char>,
    options1: CompileOptionsV,
    files2: Seq<SourceFileV>,
    entry2: Seq<char>,
    options2: CompileOptionsV,
)
    requires
        files1 == files2,
        entry1 == entry2,
        options1 == options2,
    ensures
        spec_compile(files1, entry1, options1) == spec_compile(files2, entry2, options2),
{
}

/// The collector yields exactly one artifact per listed built-in emitter,
/// in listed order, and no emitter diagnostics.
pub proof fn lemma_collector_order(
    emitters: Seq<Seq<char>>,
    p: int,
    items: Seq<ItemV>,
    dir: Seq<char>,
)
    requires
        0 <= p <= emitters.len(),
        all_known(emitters),
    ensures
        sp_emit(emitters, p, items, dir).0.len() == emitters.len() - p,
        forall|i: int| 0 <= i < emitters.len() - p ==> sp_emit(emitters, p, items, dir).0[i]
            == emitter_files(emitters[p + i], items, dir)[0],
        sp_emit(emitters, p, items, dir).1.len() == 0,
    decreases emitters.len() - p,
{
    if p < emitters.len() {
        lemma_collector_order(emitters, p + 1, items, dir);
        assert(emitter_files(emitters[p], items, dir).len() == 1);
    }
}

/// When a call with only built-in emitters succeeds, the emitted
/// artifacts line up one-to-one with the emitter list: the artifact at
/// each position is the one file of the emitter named at that position.
pub proof fn lemma_emitter_order(
    files: Seq<SourceFileV>,
    entry: Seq<char>,
    options: CompileOptionsV,
)
    requires
        all_known(options.emitters),
        spec_compile(files, entry, options).success,
    ensures
        spec_compile(files, entry, options).emitted.len() == options.emitters.len(),
        forall|i: int| 0 <= i < options.emitters.len() ==> spec_compile(
            files,
            entry,
            options,
        ).emitted[i] == emitter_files(
            options.emitters[i],
            checked_items(files, entry),
            options.output_dir,
        )[0],
{
    lemma_collector_order(options.emitters, 0, checked_items(files, entry), options.output_dir);
}

/// A successful call that names just the JSON schema emitter emits
/// exactly one artifact: the JSON document of the checked declarations,
/// at the join of the output directory and the emitter's file name.
pub proof fn lemma_json_schema_emission(
    files: Seq<SourceFileV>,
    entry: Seq<char>,
    options: CompileOptionsV,
)
    requires
        options.emitters == seq!["json-schema"@],
        spec_compile(files, entry, options).success,
    ensures
        spec_compile(files, entry, options).emitted.len() == 1,
        spec_compile(files, entry, options).emitted[0].path == crate::emit::join_path(
            options.output_dir,
            "schema.json"@,
        ),
        spec_compile(files, entry, options).emitted[0].contents == crate::emit::json_contents(
            checked_items(files, entry),
        ),
{
    assert(crate::emit::known_emitter(options.emitters[0]));
    lemma_emitter_order(files, entry, options);
    assert(spec_compile(files, entry, options).emitted[0] == emitter_files(
        options.emitters[0],
        checked_items(files, entry),
        options.output_dir,
    )[0]);
}

/// A guest fault settles into a call-level error, never into a result;
/// and a later, independent call — served by a fresh instance, since a
/// faulted one is never reused — settles to exactly the result determined
/// by its own arguments, untouched by the earlier fault.
pub proof fn lemma_fault_isolation(
    fault: GuestOutcomeV,
    files: Seq<SourceFileV>,
    entry: Seq<char>,
    options: CompileOptionsV,
)
    requires
        !(fault is Returned),
    ensures
        spec_settle(fault) is Err,
        spec_settle(GuestOutcomeV::Returned(spec_compile(files, entry, options)))
            == Result::<crate::model::CompileResultV, CallErrorV>::Ok(
            spec_compile(files, entry, options),
        ),
{
}

} // verus!
