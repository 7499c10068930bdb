//! The remote-access service: enabling, disabling and reading the state
//! of the host's login service.
//!
//! Same pattern as the wireless service: one pipeline per operation, a
//! verified interpretation of what came back, and a documented fallback
//! in place of every error.

use vstd::prelude::*;
use vstd::string::StringSliceAdditionalSpecFns;

use crate::pipeline::{
    bytes_of, outcome_succeeded, reported_state, CommandOutcome, OutcomeView, Pipeline, Stage,
    StageView,
};
use crate::text::{count_lines_containing, count_lines_with, lines_of};

verus! {

/// Request to start or stop the remote-access service.
#[derive(Debug, Clone, PartialEq, Eq)]
pub struct SetEnabledRequest {
    pub enabled: bool,
}

/// Request to read whether the remote-access service is running.
#[derive(Debug, Clone, PartialEq, Eq)]
pub struct GetEnabledRequest {}

/// Response to [`SetEnabledRequest`].
#[derive(Debug, Clone, PartialEq, Eq)]
pub struct SetEnabledResponse {
    pub enabled: bool,
}

/// Response to [`GetEnabledRequest`].
#[derive(Debug, Clone, PartialEq, Eq)]
pub struct GetEnabledResponse {
    pub enabled: bool,
}

/// The stage that starts or stops the service.
pub open spec fn set_enabled_stage(enabled: bool) -> StageView {
    StageView {
        program: "systemctl".spec_bytes(),
        args: seq![
            if enabled {
                "start".spec_bytes()
            } else {
                "stop".spec_bytes()
            },
            "sshd".spec_bytes(),
        ],
    }
}

/// The stage that queries the service's status.
pub open spec fn get_enabled_stage() -> StageView {
    StageView {
        program: "systemctl".spec_bytes(),
        args: seq!["status".spec_bytes(), "sshd".spec_bytes()],
    }
}

/// A status reading is "running" exactly when one line of the status
/// output carries the running-marker; zero or several such lines read as
/// not running.
pub open spec fn service_running(out: Seq<u8>) -> bool {
    count_lines_with(lines_of(out), "running".spec_bytes()) == 1
}

/// What GetEnabled answers for a pipeline outcome: the status reading on
/// any completed run, and the fallback `false` when the pipeline could
/// not run at all.
pub open spec fn enabled_reading(o: OutcomeView) -> bool {
    match o {
        OutcomeView::Finished { stdout, .. } => service_running(stdout),
        OutcomeView::Failed => false,
    }
}

/// The remote-access service handler. It holds no state: every answer
/// is a function of the request and of what its pipeline produced.
pub struct SshServer {}

impl SshServer {
    /// The pipeline SetEnabled runs for a request.
    pub fn set_enabled_pipeline(&self, req: &SetEnabledRequest) -> (p: Pipeline)
        ensures
            p@ == seq![set_enabled_stage(req.enabled)],
            p.wf(),
    {
        let mut args: Vec<Vec<u8>> = Vec::new();
        if req.enabled {
            args.push(bytes_of("start"));
        } else {
            args.push(bytes_of("stop"));
        }
        args.push(bytes_of("sshd"));
        let mut stages: Vec<Stage> = Vec::new();
        stages.push(Stage { program: bytes_of("systemctl"), args });
        let p = Pipeline { stages };
        proof {
            assert(p@ =~~= seq![set_enabled_stage(req.enabled)]);
        }
        p
    }

    /// The pipeline GetEnabled runs.
    pub fn get_enabled_pipeline(&self, _req: &GetEnabledRequest) -> (p: Pipeline)
        ensures
            p@ == seq![get_enabled_stage()],
            p.wf(),
    {
        let mut args: Vec<Vec<u8>> = Vec::new();
        args.push(bytes_of("status"));
        args.push(bytes_of("sshd"));
        let mut stages: Vec<Stage> = Vec::new();
        stages.push(Stage { program: bytes_of("systemctl"), args });
        let p = Pipeline { stages };
        proof {
            assert(p@ =~~= seq![get_enabled_stage()]);
        }
        p
    }

    /// SetEnabled: echo the requested state when the command reported
    /// success, its negation otherwise. Never an error.
    pub fn set_enabled(&self, req: &SetEnabledRequest, outcome: CommandOutcome) -> (r:
        SetEnabledResponse)
        ensures
            r.enabled == reported_state(req.enabled, outcome_succeeded(outcome@)),
    {
        let success = match outcome {
            CommandOutcome::Finished { success, .. } => success,
            CommandOutcome::Failed => false,
        };
        SetEnabledResponse { enabled: if success { req.enabled } else { !req.enabled } }
    }

    /// GetEnabled: `true` exactly when one line of the captured status
    /// output carries the running-marker; `false` on any soft failure.
    pub fn get_enabled(&self, _req: &GetEnabledRequest, outcome: CommandOutcome) -> (r:
        GetEnabledResponse)
        ensures
            r.enabled == enabled_reading(outcome@),
    {
        let enabled = match outcome {
            CommandOutcome::Finished { stdout, .. } => {
                let marker = bytes_of("running");
                count_lines_containing(stdout.as_slice(), marker.as_slice()) == 1
            },
            CommandOutcome::Failed => false,
        };
        GetEnabledResponse { enabled }
    }
}

} // verus!
