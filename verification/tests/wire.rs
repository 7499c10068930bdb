use shortcutd::codec::{
    decode_frame_len, decode_request, decode_response, encode_frame, encode_request,
    encode_response,
};
use shortcutd::rpc::{Request, Response};
use shortcutd::ssh::{GetEnabledRequest, SetEnabledRequest, SetEnabledResponse};
use shortcutd::wifi::{
    GetPowerSaveRequest, ListDevicesRequest, ListDevicesResponse, SetPowerSaveRequest,
    SetPowerSaveResponse,
};

#[test]
fn request_round_trips_through_the_wire() {
    let reqs = vec![
        Request::SetPowerSave(SetPowerSaveRequest { device: b"wlan0".to_vec(), enabled: true }),
        Request::SetPowerSave(SetPowerSaveRequest { device: b"".to_vec(), enabled: false }),
        Request::GetPowerSave(GetPowerSaveRequest { device: b"wlp2s0".to_vec() }),
        Request::ListDevices(ListDevicesRequest {}),
        Request::SetSshEnabled(SetEnabledRequest { enabled: false }),
        Request::GetSshEnabled(GetEnabledRequest {}),
    ];
    for req in reqs {
        let bytes = encode_request(&req);
        assert_eq!(decode_request(&bytes), Some(req));
    }
}

#[test]
fn response_round_trips_through_the_wire() {
    let resps = vec![
        Response::SetPowerSave(SetPowerSaveResponse { enabled: true }),
        Response::ListDevices(ListDevicesResponse { devices: vec![] }),
        Response::ListDevices(ListDevicesResponse {
            devices: vec![b"wlan0".to_vec(), b"wlan1".to_vec()],
        }),
        Response::SetSshEnabled(SetEnabledResponse { enabled: false }),
    ];
    for resp in resps {
        let bytes = encode_response(&resp);
        assert_eq!(decode_response(&bytes), Some(resp));
    }
}

#[test]
fn set_power_save_request_encoding_is_exact() {
    let req = Request::SetPowerSave(SetPowerSaveRequest { device: b"ab".to_vec(), enabled: true });
    let bytes = encode_request(&req);
    let mut expected = vec![1u8];
    expected.extend_from_slice(&2u64.to_le_bytes());
    expected.extend_from_slice(b"ab");
    expected.push(1);
    assert_eq!(bytes, expected);
}

#[test]
fn list_devices_response_encoding_is_exact() {
    let resp = Response::ListDevices(ListDevicesResponse { devices: vec![b"x".to_vec()] });
    let bytes = encode_response(&resp);
    let mut expected = vec![3u8];
    expected.extend_from_slice(&1u64.to_le_bytes());
    expected.extend_from_slice(&1u64.to_le_bytes());
    expected.push(b'x');
    assert_eq!(bytes, expected);
}

#[test]
fn decode_rejects_malformed_requests() {
    assert_eq!(decode_request(b""), None);
    assert_eq!(decode_request(&[9u8]), None);
    assert_eq!(decode_request(&[1u8, 0, 0]), None);
    // Bad boolean byte.
    assert_eq!(decode_request(&[4u8, 7u8]), None);
    // Length field does not match the buffer.
    let mut bytes = vec![2u8];
    bytes.extend_from_slice(&5u64.to_le_bytes());
    bytes.extend_from_slice(b"abc");
    assert_eq!(decode_request(&bytes), None);
    // Trailing garbage after a well-formed message.
    let req = Request::GetSshEnabled(GetEnabledRequest {});
    let mut bytes = encode_request(&req);
    bytes.push(0);
    assert_eq!(decode_request(&bytes), None);
}

#[test]
fn decode_rejects_malformed_responses() {
    assert_eq!(decode_response(b""), None);
    assert_eq!(decode_response(&[6u8, 1u8]), None);
    assert_eq!(decode_response(&[1u8, 2u8]), None);
    // Name list shorter than its count claims.
    let mut bytes = vec![3u8];
    bytes.extend_from_slice(&2u64.to_le_bytes());
    bytes.extend_from_slice(&1u64.to_le_bytes());
    bytes.push(b'x');
    assert_eq!(decode_response(&bytes), None);
    // Trailing garbage after the last name.
    let resp = Response::ListDevices(ListDevicesResponse { devices: vec![b"x".to_vec()] });
    let mut bytes = encode_response(&resp);
    bytes.push(0);
    assert_eq!(decode_response(&bytes), None);
}

#[test]
fn frames_carry_their_length() {
    let framed = encode_frame(b"hello");
    assert_eq!(&framed[..8], &5u64.to_le_bytes());
    assert_eq!(&framed[8..], b"hello");
    assert_eq!(decode_frame_len(&framed[..8]), 5);
}
