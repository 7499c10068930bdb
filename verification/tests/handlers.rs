use shortcutd::pipeline::CommandOutcome;
use shortcutd::rpc::{respond, Request, Response};
use shortcutd::ssh::{GetEnabledRequest, SetEnabledRequest, SshServer};
use shortcutd::wifi::{GetPowerSaveRequest, ListDevicesRequest, SetPowerSaveRequest, WifiServer};

fn finished(success: bool, stdout: &[u8]) -> CommandOutcome {
    CommandOutcome::Finished { success, stdout: stdout.to_vec() }
}

#[test]
fn set_power_save_success_echoes_request() {
    let wifi = WifiServer {};
    let req = SetPowerSaveRequest { device: b"wlan0".to_vec(), enabled: true };
    let r = wifi.set_power_save(&req, finished(true, b""));
    assert!(r.enabled);
    let req = SetPowerSaveRequest { device: b"wlan0".to_vec(), enabled: false };
    let r = wifi.set_power_save(&req, finished(true, b""));
    assert!(!r.enabled);
}

#[test]
fn set_power_save_failure_negates_request() {
    let wifi = WifiServer {};
    let req = SetPowerSaveRequest { device: b"wlan0".to_vec(), enabled: true };
    let r = wifi.set_power_save(&req, finished(false, b""));
    assert!(!r.enabled);
    let req = SetPowerSaveRequest { device: b"wlan0".to_vec(), enabled: false };
    let r = wifi.set_power_save(&req, finished(false, b""));
    assert!(r.enabled);
}

#[test]
fn set_power_save_spawn_failure_negates_request() {
    let wifi = WifiServer {};
    let req = SetPowerSaveRequest { device: b"wlan0".to_vec(), enabled: true };
    let r = wifi.set_power_save(&req, CommandOutcome::Failed);
    assert!(!r.enabled);
}

#[test]
fn get_power_save_true_on_exactly_one_marker_line() {
    let wifi = WifiServer {};
    let req = GetPowerSaveRequest { device: b"wlan0".to_vec() };
    let r = wifi.get_power_save(&req, finished(true, b"Power save: on\n"));
    assert!(r.enabled);
}

#[test]
fn get_power_save_false_on_zero_marker_lines() {
    let wifi = WifiServer {};
    let req = GetPowerSaveRequest { device: b"wlan0".to_vec() };
    let r = wifi.get_power_save(&req, finished(true, b"Power save: off\n"));
    assert!(!r.enabled);
    let r = wifi.get_power_save(&req, finished(true, b""));
    assert!(!r.enabled);
}

#[test]
fn get_power_save_false_on_two_marker_lines() {
    let wifi = WifiServer {};
    let req = GetPowerSaveRequest { device: b"wlan0".to_vec() };
    let out = b"Power save: on\nPower save: on\n";
    let r = wifi.get_power_save(&req, finished(true, out));
    assert!(!r.enabled);
}

#[test]
fn get_power_save_false_on_failure() {
    let wifi = WifiServer {};
    let req = GetPowerSaveRequest { device: b"wlan0".to_vec() };
    let r = wifi.get_power_save(&req, CommandOutcome::Failed);
    assert!(!r.enabled);
}

#[test]
fn list_devices_extracts_names_in_order() {
    let wifi = WifiServer {};
    let out = b"Interface wlan0\nInterface wlan1\n";
    let r = wifi.list_devices(&ListDevicesRequest {}, finished(true, out));
    assert_eq!(r.devices, vec![b"wlan0".to_vec(), b"wlan1".to_vec()]);
}

#[test]
fn list_devices_full_discovery_output() {
    let wifi = WifiServer {};
    let out = b"phy#0\n\tInterface wlan0\n\t\tifindex 3\n\t\ttype managed\n";
    let r = wifi.list_devices(&ListDevicesRequest {}, finished(true, out));
    assert_eq!(r.devices, vec![b"wlan0".to_vec()]);
}

#[test]
fn list_devices_empty_on_garbled_output() {
    let wifi = WifiServer {};
    let r = wifi.list_devices(&ListDevicesRequest {}, finished(true, b""));
    assert!(r.devices.is_empty());
    let r = wifi.list_devices(&ListDevicesRequest {}, finished(true, b"\x00\xff garbage\n\n"));
    assert!(r.devices.is_empty());
    let r = wifi.list_devices(&ListDevicesRequest {}, finished(true, b"Interface\n"));
    assert!(r.devices.is_empty());
}

#[test]
fn list_devices_empty_on_failure() {
    let wifi = WifiServer {};
    let r = wifi.list_devices(&ListDevicesRequest {}, CommandOutcome::Failed);
    assert!(r.devices.is_empty());
}

#[test]
fn set_enabled_against_failing_manager_negates() {
    let ssh = SshServer {};
    let r = ssh.set_enabled(&SetEnabledRequest { enabled: true }, finished(false, b""));
    assert!(!r.enabled);
    let r = ssh.set_enabled(&SetEnabledRequest { enabled: false }, finished(false, b""));
    assert!(r.enabled);
}

#[test]
fn set_enabled_against_succeeding_manager_echoes() {
    let ssh = SshServer {};
    let r = ssh.set_enabled(&SetEnabledRequest { enabled: true }, finished(true, b""));
    assert!(r.enabled);
    let r = ssh.set_enabled(&SetEnabledRequest { enabled: false }, finished(true, b""));
    assert!(!r.enabled);
}

#[test]
fn get_enabled_true_on_exactly_one_running_line() {
    let ssh = SshServer {};
    let out = b"   Active: active (running) since Mon\n";
    let r = ssh.get_enabled(&GetEnabledRequest {}, finished(true, out));
    assert!(r.enabled);
}

#[test]
fn get_enabled_false_on_zero_or_many_running_lines() {
    let ssh = SshServer {};
    let r = ssh.get_enabled(&GetEnabledRequest {}, finished(true, b"   Active: inactive (dead)\n"));
    assert!(!r.enabled);
    let out = b"running\nrunning\n";
    let r = ssh.get_enabled(&GetEnabledRequest {}, finished(true, out));
    assert!(!r.enabled);
    let r = ssh.get_enabled(&GetEnabledRequest {}, CommandOutcome::Failed);
    assert!(!r.enabled);
}

#[test]
fn respond_answers_every_operation_in_its_own_shape() {
    let reqs = vec![
        Request::SetPowerSave(SetPowerSaveRequest { device: b"wlan0".to_vec(), enabled: true }),
        Request::GetPowerSave(GetPowerSaveRequest { device: b"wlan0".to_vec() }),
        Request::ListDevices(ListDevicesRequest {}),
        Request::SetSshEnabled(SetEnabledRequest { enabled: true }),
        Request::GetSshEnabled(GetEnabledRequest {}),
    ];
    for req in &reqs {
        let r = respond(req, CommandOutcome::Failed);
        match (req, &r) {
            (Request::SetPowerSave(_), Response::SetPowerSave(_)) => {}
            (Request::GetPowerSave(_), Response::GetPowerSave(_)) => {}
            (Request::ListDevices(_), Response::ListDevices(_)) => {}
            (Request::SetSshEnabled(_), Response::SetSshEnabled(_)) => {}
            (Request::GetSshEnabled(_), Response::GetSshEnabled(_)) => {}
            _ => panic!("response shape does not mirror the request"),
        }
    }
}

#[test]
fn respond_set_power_save_follows_outcome() {
    let req = Request::SetPowerSave(SetPowerSaveRequest { device: b"wlp2s0".to_vec(), enabled: true });
    match respond(&req, finished(true, b"")) {
        Response::SetPowerSave(p) => assert!(p.enabled),
        _ => panic!("wrong shape"),
    }
    match respond(&req, finished(false, b"")) {
        Response::SetPowerSave(p) => assert!(!p.enabled),
        _ => panic!("wrong shape"),
    }
}
