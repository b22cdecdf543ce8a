//! The host adapter at the isolation boundary.
//!
//! A compilation runs in an isolated instance that serves exactly one
//! call.  Whatever comes back over the boundary is a [`GuestOutcome`]:
//! either the guest returned a result, or it faulted.  The adapter settles
//! every outcome into either a complete [`CompileResult`] or a distinct
//! [`CallError`] — never a partially built result paired with a failure —
//! and a faulted instance is never offered for reuse, so one fault cannot
//! touch any later, independent call.
//!
//! Options are validated before a call is placed: an empty emitter
//! identifier cannot name any emitter and is rejected at the boundary as a
//! malformed-options call failure, not as a diagnostic.

use vstd::prelude::*;

use crate::compile::compile_virtual;
use crate::compile::spec_compile;
use crate::model::CompileOptions;
use crate::model::CompileOptionsV;
use crate::model::CompileResult;
use crate::model::CompileResultV;
use crate::model::SourceFile;
use crate::model::file_views;

verus! {

/// What one isolated compilation handed back over the boundary.
#[derive(Clone, Debug, PartialEq, Eq)]
pub enum GuestOutcome {
    /// The guest ran to completion and marshalled back a result.
    Returned(CompileResult),
    /// The guest trapped; the text describes the fault.
    Trapped(String),
    /// The guest ran out of its resource budget.
    Exhausted,
}

pub ghost enum GuestOutcomeV {
    Returned(CompileResultV),
    Trapped(Seq<char>),
    Exhausted,
}

impl View for GuestOutcome {
    type V = GuestOutcomeV;

    open spec fn view(&self) -> GuestOutcomeV {
        match self {
            GuestOutcome::Returned(r) => GuestOutcomeV::Returned(r@),
            GuestOutcome::Trapped(m) => GuestOutcomeV::Trapped(m@),
            GuestOutcome::Exhausted => GuestOutcomeV::Exhausted,
        }
    }
}

/// A call-level failure: the call produced no `CompileResult` at all.
#[derive(Clone, Debug, PartialEq, Eq)]
pub enum CallError {
    /// The guest trapped; the text describes the fault.
    Fault(String),
    /// The guest exhausted its resource budget.
    Exhausted,
    /// The options cannot name a compilation: an emitter identifier is
    /// empty.
    MalformedOptions,
}

pub ghost enum CallErrorV {
    Fault(Seq<char>),
    Exhausted,
    MalformedOptions,
}

impl View for CallError {
    type V = CallErrorV;

    open spec fn view(&self) -> CallErrorV {
        match self {
            CallError::Fault(m) => CallErrorV::Fault(m@),
            CallError::Exhausted => CallErrorV::Exhausted,
            CallError::MalformedOptions => CallErrorV::MalformedOptions,
        }
    }
}

/// The model of what a boundary call hands the caller.
pub open spec fn call_view(r: Result<CompileResult, CallError>) -> Result<
    CompileResultV,
    CallErrorV,
> {
    match r {
        Result::Ok(res) => Result::Ok(res@),
        Result::Err(e) => Result::Err(e@),
    }
}

/// How the adapter settles one guest outcome: a returned result passes
/// through whole; every fault becomes a call-level error.
pub open spec fn spec_settle(o: GuestOutcomeV) -> Result<CompileResultV, CallErrorV> {
    match o {
        GuestOutcomeV::Returned(r) => Result::Ok(r),
        GuestOutcomeV::Trapped(m) => Result::Err(CallErrorV::Fault(m)),
        GuestOutcomeV::Exhausted => Result::Err(CallErrorV::Exhausted),
    }
}

/// Options that cannot be placed as a call: some emitter identifier is
/// empty.
pub open spec fn malformed_options(options: CompileOptionsV) -> bool {
    exists|i: int| 0 <= i < options.emitters.len() && options.emitters[i].len() == 0
}

/// What one boundary call yields: a malformed-options failure, or the
/// full compilation result — determined by the call's arguments alone.
pub open spec fn spec_invoke(
    files: Seq<crate::model::SourceFileV>,
    entry: Seq<char>,
    options: CompileOptionsV,
) -> Result<CompileResultV, CallErrorV> {
    if malformed_options(options) {
        Result::Err(CallErrorV::MalformedOptions)
    } else {
        Result::Ok(spec_compile(files, entry, options))
    }
}

/// Settles one guest outcome into the caller's view of the call.
pub fn settle(o: GuestOutcome) -> (r: Result<CompileResult, CallError>)
    ensures
        call_view(r) == spec_settle(o@),
{
    match o {
        GuestOutcome::Returned(res) => Result::Ok(res),
        GuestOutcome::Trapped(m) => Result::Err(CallError::Fault(m)),
        GuestOutcome::Exhausted => Result::Err(CallError::Exhausted),
    }
}

/// Whether the instance behind this outcome may serve another call: only
/// one that returned normally.  A faulted instance is discarded.
pub fn instance_reusable(o: &GuestOutcome) -> (r: bool)
    ensures
        r == (o@ is Returned),
{
    match o {
        GuestOutcome::Returned(_) => true,
        _ => false,
    }
}

/// Whether the options must be rejected at the boundary.
pub fn options_malformed(options: &CompileOptions) -> (r: bool)
    ensures
        r == malformed_options(options@),
{
    let mut i: usize = 0;
    while i < options.emitters.len()
        invariant
            0 <= i <= options.emitters@.len(),
            forall|j: int| 0 <= j < i ==> options@.emitters[j].len() != 0,
        decreases options.emitters.len() - i,
    {
        if options.emitters[i].as_str().is_empty() {
            assert(options@.emitters[i as int].len() == 0);
            return true;
        }
        i = i + 1;
    }
    false
}

/// Places one full boundary call: validates the options, runs one fresh,
/// isolated compilation, and hands back either its complete result or a
/// call-level error.
pub fn invoke(files: &Vec<SourceFile>, entry: &str, options: &CompileOptions) -> (r: Result<
    CompileResult,
    CallError,
>)
    ensures
        call_view(r) == spec_invoke(file_views(files@), entry@, options@),
{
    if options_malformed(options) {
        return Result::Err(CallError::MalformedOptions);
    }
    Result::Ok(compile_virtual(files, entry, options))
}

} // verus!
