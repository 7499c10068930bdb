use shortcutd::rpc::{pipeline_for, Request};
use shortcutd::ssh::{GetEnabledRequest, SetEnabledRequest, SshServer};
use shortcutd::wifi::{GetPowerSaveRequest, ListDevicesRequest, SetPowerSaveRequest, WifiServer};

fn argv(p: &shortcutd::pipeline::Pipeline) -> Vec<(Vec<u8>, Vec<Vec<u8>>)> {
    p.stages.iter().map(|s| (s.program.clone(), s.args.clone())).collect()
}

#[test]
fn set_power_save_runs_iw_with_on_argument() {
    let wifi = WifiServer {};
    let req = SetPowerSaveRequest { device: b"wlan0".to_vec(), enabled: true };
    let p = wifi.set_power_save_pipeline(&req);
    assert_eq!(
        argv(&p),
        vec![(
            b"iw".to_vec(),
            vec![
                b"dev".to_vec(),
                b"wlan0".to_vec(),
                b"set".to_vec(),
                b"power_save".to_vec(),
                b"on".to_vec(),
            ],
        )]
    );
}

#[test]
fn set_power_save_runs_iw_with_off_argument() {
    let wifi = WifiServer {};
    let req = SetPowerSaveRequest { device: b"wlan1".to_vec(), enabled: false };
    let p = wifi.set_power_save_pipeline(&req);
    assert_eq!(
        argv(&p),
        vec![(
            b"iw".to_vec(),
            vec![
                b"dev".to_vec(),
                b"wlan1".to_vec(),
                b"set".to_vec(),
                b"power_save".to_vec(),
                b"off".to_vec(),
            ],
        )]
    );
}

#[test]
fn get_power_save_queries_the_device() {
    let wifi = WifiServer {};
    let req = GetPowerSaveRequest { device: b"wlan0".to_vec() };
    let p = wifi.get_power_save_pipeline(&req);
    assert_eq!(
        argv(&p),
        vec![(
            b"iw".to_vec(),
            vec![b"dev".to_vec(), b"wlan0".to_vec(), b"get".to_vec(), b"power_save".to_vec()],
        )]
    );
}

#[test]
fn list_devices_runs_discovery() {
    let wifi = WifiServer {};
    let p = wifi.list_devices_pipeline(&ListDevicesRequest {});
    assert_eq!(argv(&p), vec![(b"iw".to_vec(), vec![b"dev".to_vec()])]);
}

#[test]
fn set_enabled_starts_and_stops_the_service() {
    let ssh = SshServer {};
    let p = ssh.set_enabled_pipeline(&SetEnabledRequest { enabled: true });
    assert_eq!(argv(&p), vec![(b"systemctl".to_vec(), vec![b"start".to_vec(), b"sshd".to_vec()])]);
    let p = ssh.set_enabled_pipeline(&SetEnabledRequest { enabled: false });
    assert_eq!(argv(&p), vec![(b"systemctl".to_vec(), vec![b"stop".to_vec(), b"sshd".to_vec()])]);
}

#[test]
fn get_enabled_queries_service_status() {
    let ssh = SshServer {};
    let p = ssh.get_enabled_pipeline(&GetEnabledRequest {});
    assert_eq!(argv(&p), vec![(b"systemctl".to_vec(), vec![b"status".to_vec(), b"sshd".to_vec()])]);
}

#[test]
fn pipeline_for_matches_the_handlers() {
    let req = Request::SetSshEnabled(SetEnabledRequest { enabled: true });
    let p = pipeline_for(&req);
    assert_eq!(argv(&p), vec![(b"systemctl".to_vec(), vec![b"start".to_vec(), b"sshd".to_vec()])]);
    let req = Request::ListDevices(ListDevicesRequest {});
    let p = pipeline_for(&req);
    assert_eq!(argv(&p), vec![(b"iw".to_vec(), vec![b"dev".to_vec()])]);
    assert!(!p.stages.is_empty());
}
