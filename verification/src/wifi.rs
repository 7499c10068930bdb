//! The wireless service: device enumeration and power-save control.
//!
//! Each operation builds one command pipeline and interprets what came
//! back. Failures are never surfaced to the client: every handler
//! collapses them into its documented fallback value, so the response
//! shape is total.

use vstd::prelude::*;
use vstd::string::StringSliceAdditionalSpecFns;

use crate::pipeline::{
    bytes_of, outcome_succeeded, reported_state, CommandOutcome, OutcomeView, Pipeline, Stage,
    StageView,
};
use crate::text::{
    contains_bytes, contains_slice, count_lines_containing, count_lines_with, fields_of, lines_of,
    split_fields, split_lines,
};

verus! {

/// Request to switch a device's power-save mode on or off.
#[derive(Debug, Clone, PartialEq, Eq)]
pub struct SetPowerSaveRequest {
    pub device: Vec<u8>,
    pub enabled: bool,
}

/// Request to read a device's power-save mode.
#[derive(Debug, Clone, PartialEq, Eq)]
pub struct GetPowerSaveRequest {
    pub device: Vec<u8>,
}

/// Request to enumerate wireless devices.
#[derive(Debug, Clone, PartialEq, Eq)]
pub struct ListDevicesRequest {}

/// Response to [`SetPowerSaveRequest`].
#[derive(Debug, Clone, PartialEq, Eq)]
pub struct SetPowerSaveResponse {
    pub enabled: bool,
}

/// Response to [`GetPowerSaveRequest`].
#[derive(Debug, Clone, PartialEq, Eq)]
pub struct GetPowerSaveResponse {
    pub enabled: bool,
}

/// Response to [`ListDevicesRequest`]: the device names, in the order
/// the discovery output listed them.
#[derive(Debug, Clone, PartialEq, Eq)]
pub struct ListDevicesResponse {
    pub devices: Vec<Vec<u8>>,
}

/// The stage that toggles power-save mode on one device.
pub open spec fn set_power_save_stage(device: Seq<u8>, enabled: bool) -> StageView {
    StageView {
        program: "iw".spec_bytes(),
        args: seq![
            "dev".spec_bytes(),
            device,
            "set".spec_bytes(),
            "power_save".spec_bytes(),
            if enabled {
                "on".spec_bytes()
            } else {
                "off".spec_bytes()
            },
        ],
    }
}

/// The stage that queries power-save mode on one device.
pub open spec fn get_power_save_stage(device: Seq<u8>) -> StageView {
    StageView {
        program: "iw".spec_bytes(),
        args: seq!["dev".spec_bytes(), device, "get".spec_bytes(), "power_save".spec_bytes()],
    }
}

/// The stage that enumerates wireless devices.
pub open spec fn list_devices_stage() -> StageView {
    StageView { program: "iw".spec_bytes(), args: seq!["dev".spec_bytes()] }
}

/// A power-save status reading is "on" exactly when one line of the
/// status output carries the on-marker; zero or several such lines read
/// as "off".
pub open spec fn power_save_on(out: Seq<u8>) -> bool {
    count_lines_with(lines_of(out), " on".spec_bytes()) == 1
}

/// The device names in discovery output: for each line that names an
/// interface, its second field — in the order the lines appeared.
pub open spec fn interface_names(ls: Seq<Seq<u8>>) -> Seq<Seq<u8>>
    decreases ls.len(),
{
    if ls.len() == 0 {
        Seq::empty()
    } else {
        let rest = interface_names(ls.drop_last());
        let l = ls.last();
        if contains_bytes(l, "Interface".spec_bytes()) && fields_of(l).len() >= 2 {
            rest.push(fields_of(l)[1])
        } else {
            rest
        }
    }
}

/// The devices ListDevices reports for raw discovery output.
pub open spec fn listed_devices(out: Seq<u8>) -> Seq<Seq<u8>> {
    interface_names(lines_of(out))
}

/// What GetPowerSave answers for a pipeline outcome: the status reading
/// on any completed run, and the fallback `false` when the pipeline
/// could not run at all.
pub open spec fn power_save_reading(o: OutcomeView) -> bool {
    match o {
        OutcomeView::Finished { stdout, .. } => power_save_on(stdout),
        OutcomeView::Failed => false,
    }
}

/// What ListDevices answers for a pipeline outcome: the parsed names on
/// any completed run, and the fallback empty list when the pipeline
/// could not run at all.
pub open spec fn devices_reading(o: OutcomeView) -> Seq<Seq<u8>> {
    match o {
        OutcomeView::Finished { stdout, .. } => listed_devices(stdout),
        OutcomeView::Failed => Seq::empty(),
    }
}

/// There are at most as many device names as lines, and no name longer
/// than the line it came from.
pub proof fn lemma_interface_names_bounds(ls: Seq<Seq<u8>>, m: int)
    requires
        forall|j: int| 0 <= j < ls.len() ==> #[trigger] ls[j].len() <= m,
    ensures
        interface_names(ls).len() <= ls.len(),
        forall|i: int| 0 <= i < interface_names(ls).len() ==> #[trigger] interface_names(
            ls,
        )[i].len() <= m,
    decreases ls.len(),
{
    if ls.len() == 0 {
    } else {
        assert forall|j: int| 0 <= j < ls.drop_last().len() implies #[trigger] ls.drop_last()[
            j
        ].len() <= m by {
            assert(ls.drop_last()[j] == ls[j]);
        }
        lemma_interface_names_bounds(ls.drop_last(), m);
        let l = ls.last();
        if contains_bytes(l, "Interface".spec_bytes()) && fields_of(l).len() >= 2 {
            crate::text::lemma_fields_of_bounds(l);
            assert(fields_of(l)[1].len() <= l.len());
            assert(l.len() <= m);
        }
    }
}

/// Interpret raw discovery output: the second field of every line that
/// names an interface, in order.
pub fn devices_from_output(out: &[u8]) -> (r: Vec<Vec<u8>>)
    ensures
        r.deep_view() == listed_devices(out@),
{
    let marker = bytes_of("Interface");
    let lines = split_lines(out);
    let ghost ls = lines.deep_view();
    let mut acc: Vec<Vec<u8>> = Vec::new();
    let mut i: usize = 0;
    proof {
        assert(ls.take(0) =~= Seq::<Seq<u8>>::empty());
        assert(acc.deep_view() =~= Seq::<Seq<u8>>::empty());
    }
    while i < lines.len()
        invariant
            i <= lines@.len(),
            ls == lines.deep_view(),
            ls.len() == lines@.len(),
            marker@ == "Interface".spec_bytes(),
            acc.deep_view() == interface_names(ls.take(i as int)),
        decreases lines@.len() - i,
    {
        proof {
            assert(ls.take(i + 1).drop_last() =~= ls.take(i as int));
            assert(ls.take(i + 1).last() == ls[i as int]);
            assert(ls[i as int] == lines@[i as int].deep_view());
            assert(lines@[i as int].deep_view() =~= lines@[i as int]@);
        }
        let line = &lines[i];
        if contains_slice(line.as_slice(), marker.as_slice()) {
            let f = split_fields(line.as_slice());
            if f.len() >= 2 {
                let name = vstd::slice::slice_to_vec(f[1].as_slice());
                proof {
                    assert(name@ == f.deep_view()[1]);
                    assert(name@ == fields_of(ls[i as int])[1]);
                }
                let ghost prev = acc.deep_view();
                acc.push(name);
                proof {
                    assert(acc.deep_view() =~~= prev.push(fields_of(ls[i as int])[1]));
                }
            }
        }
        i += 1;
    }
    proof {
        assert(ls.take(ls.len() as int) =~= ls);
    }
    acc
}

/// The wireless service handler. It holds no state: every answer is a
/// function of the request and of what its pipeline produced.
pub struct WifiServer {}

impl WifiServer {
    /// The pipeline SetPowerSave runs for a request.
    pub fn set_power_save_pipeline(&self, req: &SetPowerSaveRequest) -> (p: Pipeline)
        ensures
            p@ == seq![set_power_save_stage(req.device@, req.enabled)],
            p.wf(),
    {
        let mut args: Vec<Vec<u8>> = Vec::new();
        args.push(bytes_of("dev"));
        args.push(vstd::slice::slice_to_vec(req.device.as_slice()));
        args.push(bytes_of("set"));
        args.push(bytes_of("power_save"));
        if req.enabled {
            args.push(bytes_of("on"));
        } else {
            args.push(bytes_of("off"));
        }
        let mut stages: Vec<Stage> = Vec::new();
        stages.push(Stage { program: bytes_of("iw"), args });
        let p = Pipeline { stages };
        proof {
            assert(p@ =~~= seq![set_power_save_stage(req.device@, req.enabled)]);
        }
        p
    }

    /// The pipeline GetPowerSave runs for a request.
    pub fn get_power_save_pipeline(&self, req: &GetPowerSaveRequest) -> (p: Pipeline)
        ensures
            p@ == seq![get_power_save_stage(req.device@)],
            p.wf(),
    {
        let mut args: Vec<Vec<u8>> = Vec::new();
        args.push(bytes_of("dev"));
        args.push(vstd::slice::slice_to_vec(req.device.as_slice()));
        args.push(bytes_of("get"));
        args.push(bytes_of("power_save"));
        let mut stages: Vec<Stage> = Vec::new();
        stages.push(Stage { program: bytes_of("iw"), args });
        let p = Pipeline { stages };
        proof {
            assert(p@ =~~= seq![get_power_save_stage(req.device@)]);
        }
        p
    }

    /// The pipeline ListDevices runs.
    pub fn list_devices_pipeline(&self, _req: &ListDevicesRequest) -> (p: Pipeline)
        ensures
            p@ == seq![list_devices_stage()],
            p.wf(),
    {
        let mut args: Vec<Vec<u8>> = Vec::new();
        args.push(bytes_of("dev"));
        let mut stages: Vec<Stage> = Vec::new();
        stages.push(Stage { program: bytes_of("iw"), args });
        let p = Pipeline { stages };
        proof {
            assert(p@ =~~= seq![list_devices_stage()]);
        }
        p
    }

    /// SetPowerSave: echo the requested state when the toggle reported
    /// success, its negation otherwise. Never an error.
    pub fn set_power_save(&self, req: &SetPowerSaveRequest, outcome: CommandOutcome) -> (r:
        SetPowerSaveResponse)
        ensures
            r.enabled == reported_state(req.enabled, outcome_succeeded(outcome@)),
    {
        let success = match outcome {
            CommandOutcome::Finished { success, .. } => success,
            CommandOutcome::Failed => false,
        };
        SetPowerSaveResponse { enabled: if success { req.enabled } else { !req.enabled } }
    }

    /// GetPowerSave: `true` exactly when one line of the captured status
    /// output carries the on-marker; `false` on any soft failure.
    pub fn get_power_save(&self, _req: &GetPowerSaveRequest, outcome: CommandOutcome) -> (r:
        GetPowerSaveResponse)
        ensures
            r.enabled == power_save_reading(outcome@),
    {
        let enabled = match outcome {
            CommandOutcome::Finished { stdout, .. } => {
                let marker = bytes_of(" on");
                count_lines_containing(stdout.as_slice(), marker.as_slice()) == 1
            },
            CommandOutcome::Failed => false,
        };
        GetPowerSaveResponse { enabled }
    }

    /// ListDevices: the interface names in the captured discovery
    /// output, in order; the empty list on any soft failure.
    pub fn list_devices(&self, _req: &ListDevicesRequest, outcome: CommandOutcome) -> (r:
        ListDevicesResponse)
        ensures
            r.devices.deep_view() == devices_reading(outcome@),
    {
        let devices = match outcome {
            CommandOutcome::Finished { stdout, .. } => devices_from_output(stdout.as_slice()),
            CommandOutcome::Failed => Vec::new(),
        };
        proof {
            if outcome@ is Failed {
                assert(devices.deep_view() =~= Seq::<Seq<u8>>::empty());
            }
        }
        ListDevicesResponse { devices }
    }
}

} // verus!
