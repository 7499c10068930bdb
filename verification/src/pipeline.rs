//! Command pipelines and their outcomes.
//!
//! Every operation the daemon exposes runs one chain of external
//! processes. A [`Pipeline`] describes such a chain as plain data: it is
//! built here, handed to the unverified runner, and the runner hands back
//! a [`CommandOutcome`]. No process is ever spawned from this crate.

use vstd::prelude::*;
use vstd::string::StringSliceAdditionalSpecFns;

verus! {

/// One external process in a chain: a program name and its arguments, as
/// raw bytes ready for the operating system.
pub struct Stage {
    pub program: Vec<u8>,
    pub args: Vec<Vec<u8>>,
}

/// The mathematical value of a [`Stage`].
#[verifier::ext_equal]
pub struct StageView {
    pub program: Seq<u8>,
    pub args: Seq<Seq<u8>>,
}

impl View for Stage {
    type V = StageView;

    open spec fn view(&self) -> StageView {
        StageView { program: self.program@, args: self.args.deep_view() }
    }
}

/// An ordered chain of external processes. The standard output of each
/// stage feeds the standard input of the next; only the terminal stage's
/// exit status or captured output is ever consulted.
pub struct Pipeline {
    pub stages: Vec<Stage>,
}

impl View for Pipeline {
    type V = Seq<StageView>;

    open spec fn view(&self) -> Seq<StageView> {
        Seq::new(self.stages@.len(), |i: int| self.stages@[i]@)
    }
}

impl Pipeline {
    /// A pipeline must have at least one stage, so that it has a terminal
    /// stage to consult.
    pub open spec fn wf(&self) -> bool {
        self@.len() >= 1
    }
}

/// What running a pipeline produced. Constructed by the unverified
/// runner; interpreted only by verified handlers.
pub enum CommandOutcome {
    /// Some stage could not be spawned or awaited at all: a missing
    /// executable, a broken pipe, any operating-system refusal.
    Failed,
    /// The terminal stage ran to completion. `success` is whether it
    /// exited successfully; `stdout` is its captured standard output.
    Finished { success: bool, stdout: Vec<u8> },
}

/// The mathematical value of a [`CommandOutcome`].
#[verifier::ext_equal]
pub enum OutcomeView {
    Failed,
    Finished { success: bool, stdout: Seq<u8> },
}

impl View for CommandOutcome {
    type V = OutcomeView;

    open spec fn view(&self) -> OutcomeView {
        match self {
            CommandOutcome::Failed => OutcomeView::Failed,
            CommandOutcome::Finished { success, stdout } => OutcomeView::Finished {
                success: *success,
                stdout: stdout@,
            },
        }
    }
}

/// Did the terminal stage report success?
pub open spec fn outcome_succeeded(o: OutcomeView) -> bool {
    match o {
        OutcomeView::Finished { success, .. } => success,
        OutcomeView::Failed => false,
    }
}

/// The state a mutating operation reports back: the requested state when
/// the command succeeded, otherwise its negation — an explicit "this
/// probably did not take effect" signal in place of an error.
pub open spec fn reported_state(requested: bool, success: bool) -> bool {
    if success {
        requested
    } else {
        !requested
    }
}

/// Copy a program name or argument into owned bytes.
pub fn bytes_of(s: &str) -> (r: Vec<u8>)
    ensures
        r@ == s.spec_bytes(),
{
    vstd::slice::slice_to_vec(s.as_bytes())
}

} // verus!
