//! The daemon's request surface: one typed request in, one typed
//! response out, whatever happened underneath.
//!
//! [`pipeline_for`] names the command chain an operation runs, and
//! [`respond`] maps the request and the chain's outcome to the response.
//! Both are pure: the unverified server around them only decodes a
//! request, runs the pipeline, and encodes the response.

use vstd::prelude::*;
use vstd::string::StringSliceAdditionalSpecFns;

use crate::pipeline::{outcome_succeeded, reported_state, CommandOutcome, OutcomeView, Pipeline,
    StageView};
use crate::ssh::{enabled_reading, get_enabled_stage, set_enabled_stage, GetEnabledRequest,
    SetEnabledRequest, SshServer};
use crate::text::{count_lines_with, lines_of};
use crate::wifi::{devices_reading, get_power_save_stage, list_devices_stage, listed_devices,
    power_save_reading, set_power_save_stage, GetPowerSaveRequest, ListDevicesRequest,
    SetPowerSaveRequest, WifiServer};

verus! {

/// One request, for one of the five operations of the two services.
#[derive(Debug, Clone, PartialEq, Eq)]
pub enum Request {
    SetPowerSave(SetPowerSaveRequest),
    GetPowerSave(GetPowerSaveRequest),
    ListDevices(ListDevicesRequest),
    SetSshEnabled(SetEnabledRequest),
    GetSshEnabled(GetEnabledRequest),
}

/// The response to a request, mirroring its operation.
#[derive(Debug, Clone, PartialEq, Eq)]
pub enum Response {
    SetPowerSave(crate::wifi::SetPowerSaveResponse),
    GetPowerSave(crate::wifi::GetPowerSaveResponse),
    ListDevices(crate::wifi::ListDevicesResponse),
    SetSshEnabled(crate::ssh::SetEnabledResponse),
    GetSshEnabled(crate::ssh::GetEnabledResponse),
}

/// The mathematical value of a [`Request`].
#[verifier::ext_equal]
pub enum RequestView {
    SetPowerSave { device: Seq<u8>, enabled: bool },
    GetPowerSave { device: Seq<u8> },
    ListDevices,
    SetSshEnabled { enabled: bool },
    GetSshEnabled,
}

/// The mathematical value of a [`Response`].
#[verifier::ext_equal]
pub enum ResponseView {
    SetPowerSave { enabled: bool },
    GetPowerSave { enabled: bool },
    ListDevices { devices: Seq<Seq<u8>> },
    SetSshEnabled { enabled: bool },
    GetSshEnabled { enabled: bool },
}

impl View for Request {
    type V = RequestView;

    open spec fn view(&self) -> RequestView {
        match self {
            Request::SetPowerSave(q) => RequestView::SetPowerSave {
                device: q.device@,
                enabled: q.enabled,
            },
            Request::GetPowerSave(q) => RequestView::GetPowerSave { device: q.device@ },
            Request::ListDevices(_) => RequestView::ListDevices,
            Request::SetSshEnabled(q) => RequestView::SetSshEnabled { enabled: q.enabled },
            Request::GetSshEnabled(_) => RequestView::GetSshEnabled,
        }
    }
}

impl View for Response {
    type V = ResponseView;

    open spec fn view(&self) -> ResponseView {
        match self {
            Response::SetPowerSave(p) => ResponseView::SetPowerSave { enabled: p.enabled },
            Response::GetPowerSave(p) => ResponseView::GetPowerSave { enabled: p.enabled },
            Response::ListDevices(p) => ResponseView::ListDevices {
                devices: p.devices.deep_view(),
            },
            Response::SetSshEnabled(p) => ResponseView::SetSshEnabled { enabled: p.enabled },
            Response::GetSshEnabled(p) => ResponseView::GetSshEnabled { enabled: p.enabled },
        }
    }
}

/// The command chain each operation runs.
pub open spec fn request_stages(rq: RequestView) -> Seq<StageView> {
    match rq {
        RequestView::SetPowerSave { device, enabled } => seq![set_power_save_stage(
            device,
            enabled,
        )],
        RequestView::GetPowerSave { device } => seq![get_power_save_stage(device)],
        RequestView::ListDevices => seq![list_devices_stage()],
        RequestView::SetSshEnabled { enabled } => seq![set_enabled_stage(enabled)],
        RequestView::GetSshEnabled => seq![get_enabled_stage()],
    }
}

/// The response owed to a request for a given pipeline outcome. This is
/// the whole client-visible contract: total in both arguments, with the
/// documented fallback in place of every soft failure.
pub open spec fn response_for(rq: RequestView, oc: OutcomeView) -> ResponseView {
    match rq {
        RequestView::SetPowerSave { enabled, .. } => ResponseView::SetPowerSave {
            enabled: reported_state(enabled, outcome_succeeded(oc)),
        },
        RequestView::GetPowerSave { .. } => ResponseView::GetPowerSave {
            enabled: power_save_reading(oc),
        },
        RequestView::ListDevices => ResponseView::ListDevices { devices: devices_reading(oc) },
        RequestView::SetSshEnabled { enabled } => ResponseView::SetSshEnabled {
            enabled: reported_state(enabled, outcome_succeeded(oc)),
        },
        RequestView::GetSshEnabled => ResponseView::GetSshEnabled { enabled: enabled_reading(oc) },
    }
}

/// Build the pipeline a request's operation runs.
pub fn pipeline_for(req: &Request) -> (p: Pipeline)
    ensures
        p@ == request_stages(req@),
        p.wf(),
{
    match req {
        Request::SetPowerSave(q) => (WifiServer {  }).set_power_save_pipeline(q),
        Request::GetPowerSave(q) => (WifiServer {  }).get_power_save_pipeline(q),
        Request::ListDevices(q) => (WifiServer {  }).list_devices_pipeline(q),
        Request::SetSshEnabled(q) => (SshServer {  }).set_enabled_pipeline(q),
        Request::GetSshEnabled(q) => (SshServer {  }).get_enabled_pipeline(q),
    }
}

/// Answer a request given what its pipeline produced. Always returns a
/// response of the request's own shape: no outcome is an error.
pub fn respond(req: &Request, outcome: CommandOutcome) -> (r: Response)
    ensures
        r@ == response_for(req@, outcome@),
{
    match req {
        Request::SetPowerSave(q) => Response::SetPowerSave(
            (WifiServer {  }).set_power_save(q, outcome),
        ),
        Request::GetPowerSave(q) => Response::GetPowerSave(
            (WifiServer {  }).get_power_save(q, outcome),
        ),
        Request::ListDevices(q) => Response::ListDevices(
            (WifiServer {  }).list_devices(q, outcome),
        ),
        Request::SetSshEnabled(q) => Response::SetSshEnabled(
            (SshServer {  }).set_enabled(q, outcome),
        ),
        Request::GetSshEnabled(q) => Response::GetSshEnabled(
            (SshServer {  }).get_enabled(q, outcome),
        ),
    }
}

/// A power-save toggle that reports success yields the requested state
/// in the response; one that reports failure yields its negation — for
/// every device and both requested states.
pub proof fn lemma_set_power_save_reports(device: Seq<u8>, requested: bool, oc: OutcomeView)
    ensures
        response_for(RequestView::SetPowerSave { device, enabled: requested }, oc)
            == (ResponseView::SetPowerSave {
            enabled: if outcome_succeeded(oc) {
                requested
            } else {
                !requested
            },
        }),
{
}

/// A service start or stop that reports success yields the requested
/// state; a failing one yields its negation — for both requested states.
pub proof fn lemma_set_enabled_reports(requested: bool, oc: OutcomeView)
    ensures
        response_for(RequestView::SetSshEnabled { enabled: requested }, oc)
            == (ResponseView::SetSshEnabled {
            enabled: if outcome_succeeded(oc) {
                requested
            } else {
                !requested
            },
        }),
{
}

/// GetPowerSave answers `true` exactly when one line of the captured
/// status output carries the on-marker; zero or several such lines, and
/// a pipeline that could not run, all answer `false`.
pub proof fn lemma_get_power_save_counts(device: Seq<u8>, oc: OutcomeView)
    ensures
        response_for(RequestView::GetPowerSave { device }, oc) == (ResponseView::GetPowerSave {
            enabled: match oc {
                OutcomeView::Finished { stdout, .. } => count_lines_with(
                    lines_of(stdout),
                    " on".spec_bytes(),
                ) == 1,
                OutcomeView::Failed => false,
            },
        }),
{
}

/// GetEnabled answers `true` exactly when one line of the captured
/// status output carries the running-marker.
pub proof fn lemma_get_enabled_counts(oc: OutcomeView)
    ensures
        response_for(RequestView::GetSshEnabled, oc) == (ResponseView::GetSshEnabled {
            enabled: match oc {
                OutcomeView::Finished { stdout, .. } => count_lines_with(
                    lines_of(stdout),
                    "running".spec_bytes(),
                ) == 1,
                OutcomeView::Failed => false,
            },
        }),
{
}

/// ListDevices answers the interface names of the captured discovery
/// output in their original order, and the empty list — never an
/// error — when the pipeline could not run.
pub proof fn lemma_list_devices_reports(oc: OutcomeView)
    ensures
        response_for(RequestView::ListDevices, oc) == (ResponseView::ListDevices {
            devices: match oc {
                OutcomeView::Finished { stdout, .. } => listed_devices(stdout),
                OutcomeView::Failed => Seq::empty(),
            },
        }),
{
}

/// Total output coverage: whatever the outcome, the response has the
/// shape of the request's own operation. No soft failure ever crosses
/// the boundary as an error.
pub proof fn lemma_response_shape(rq: RequestView, oc: OutcomeView)
    ensures
        rq is SetPowerSave <==> response_for(rq, oc) is SetPowerSave,
        rq is GetPowerSave <==> response_for(rq, oc) is GetPowerSave,
        rq is ListDevices <==> response_for(rq, oc) is ListDevices,
        rq is SetSshEnabled <==> response_for(rq, oc) is SetSshEnabled,
        rq is GetSshEnabled <==> response_for(rq, oc) is GetSshEnabled,
{
}

} // verus!
