//! Wire framing for requests and responses.
//!
//! One message is one framed byte string: a tag byte naming the
//! operation, then its fields. Variable-length fields carry an 8-byte
//! little-endian length. The decoder accepts exactly the encoder's
//! output — every stray byte, short buffer, unknown tag or malformed
//! flag is rejected — and the round-trip lemmas at the bottom prove it.

use vstd::bytes::{spec_u64_from_le_bytes, spec_u64_to_le_bytes, u64_from_le_bytes,
    u64_to_le_bytes, lemma_auto_spec_u64_to_from_le_bytes};
use vstd::prelude::*;
use vstd::slice::{slice_subrange, slice_to_vec};

use crate::pipeline::OutcomeView;
use crate::rpc::{Request, RequestView, Response, ResponseView};
use crate::ssh::{GetEnabledRequest, SetEnabledRequest};
use crate::text::lines_of;
use crate::wifi::{GetPowerSaveRequest, ListDevicesRequest, SetPowerSaveRequest};

verus! {

/// Tag byte of each operation.
pub const TAG_SET_POWER_SAVE: u8 = 1;

pub const TAG_GET_POWER_SAVE: u8 = 2;

pub const TAG_LIST_DEVICES: u8 = 3;

pub const TAG_SET_SSH_ENABLED: u8 = 4;

pub const TAG_GET_SSH_ENABLED: u8 = 5;

/// A boolean on the wire: one byte, `1` or `0`.
pub open spec fn bool_byte(b: bool) -> u8 {
    if b {
        1u8
    } else {
        0u8
    }
}

/// The booleans a byte decodes to; any byte but `0` and `1` is refused.
pub open spec fn decoded_bool(b: u8) -> Option<bool> {
    if b == 1u8 {
        Some(true)
    } else if b == 0u8 {
        Some(false)
    } else {
        None
    }
}

/// The encoding of a request.
pub open spec fn encoded_request(rq: RequestView) -> Seq<u8> {
    match rq {
        RequestView::SetPowerSave { device, enabled } => seq![TAG_SET_POWER_SAVE]
            + spec_u64_to_le_bytes(device.len() as u64) + device + seq![bool_byte(enabled)],
        RequestView::GetPowerSave { device } => seq![TAG_GET_POWER_SAVE] + spec_u64_to_le_bytes(
            device.len() as u64,
        ) + device,
        RequestView::ListDevices => seq![TAG_LIST_DEVICES],
        RequestView::SetSshEnabled { enabled } => seq![TAG_SET_SSH_ENABLED, bool_byte(enabled)],
        RequestView::GetSshEnabled => seq![TAG_GET_SSH_ENABLED],
    }
}

/// The request a byte string decodes to, if any. Exactly the encoder's
/// images decode; everything else is `None`.
pub open spec fn decoded_request(b: Seq<u8>) -> Option<RequestView> {
    if b.len() < 1 {
        None
    } else if b[0] == TAG_SET_POWER_SAVE {
        if b.len() < 10 {
            None
        } else {
            let n = spec_u64_from_le_bytes(b.subrange(1, 9));
            if b.len() != n + 10 {
                None
            } else {
                match decoded_bool(b.last()) {
                    Some(enabled) => Some(
                        RequestView::SetPowerSave { device: b.subrange(9, b.len() - 1), enabled },
                    ),
                    None => None,
                }
            }
        }
    } else if b[0] == TAG_GET_POWER_SAVE {
        if b.len() < 9 {
            None
        } else {
            let n = spec_u64_from_le_bytes(b.subrange(1, 9));
            if b.len() != n + 9 {
                None
            } else {
                Some(RequestView::GetPowerSave { device: b.subrange(9, b.len() as int) })
            }
        }
    } else if b[0] == TAG_LIST_DEVICES {
        if b.len() == 1 {
            Some(RequestView::ListDevices)
        } else {
            None
        }
    } else if b[0] == TAG_SET_SSH_ENABLED {
        if b.len() == 2 {
            match decoded_bool(b[1]) {
                Some(enabled) => Some(RequestView::SetSshEnabled { enabled }),
                None => None,
            }
        } else {
            None
        }
    } else if b[0] == TAG_GET_SSH_ENABLED {
        if b.len() == 1 {
            Some(RequestView::GetSshEnabled)
        } else {
            None
        }
    } else {
        None
    }
}

/// The encoding of a list of device names: each name behind its length.
pub open spec fn encoded_names(ds: Seq<Seq<u8>>) -> Seq<u8>
    decreases ds.len(),
{
    if ds.len() == 0 {
        Seq::empty()
    } else {
        spec_u64_to_le_bytes(ds.first().len() as u64) + ds.first() + encoded_names(ds.drop_first())
    }
}

/// Parse exactly `k` names out of `b`, consuming all of it.
pub open spec fn decoded_names(b: Seq<u8>, k: nat) -> Option<Seq<Seq<u8>>>
    decreases k,
{
    if k == 0 {
        if b.len() == 0 {
            Some(Seq::empty())
        } else {
            None
        }
    } else if b.len() < 8 {
        None
    } else {
        let n = spec_u64_from_le_bytes(b.subrange(0, 8));
        if b.len() < n + 8 {
            None
        } else {
            match decoded_names(b.skip(n + 8), (k - 1) as nat) {
                Some(rest) => Some(seq![b.subrange(8, n + 8)] + rest),
                None => None,
            }
        }
    }
}

/// The encoding of a response.
pub open spec fn encoded_response(rp: ResponseView) -> Seq<u8> {
    match rp {
        ResponseView::SetPowerSave { enabled } => seq![TAG_SET_POWER_SAVE, bool_byte(enabled)],
        ResponseView::GetPowerSave { enabled } => seq![TAG_GET_POWER_SAVE, bool_byte(enabled)],
        ResponseView::ListDevices { devices } => seq![TAG_LIST_DEVICES] + spec_u64_to_le_bytes(
            devices.len() as u64,
        ) + encoded_names(devices),
        ResponseView::SetSshEnabled { enabled } => seq![TAG_SET_SSH_ENABLED, bool_byte(enabled)],
        ResponseView::GetSshEnabled { enabled } => seq![TAG_GET_SSH_ENABLED, bool_byte(enabled)],
    }
}

/// The response a byte string decodes to, if any.
pub open spec fn decoded_response(b: Seq<u8>) -> Option<ResponseView> {
    if b.len() < 1 {
        None
    } else if b[0] == TAG_LIST_DEVICES {
        if b.len() < 9 {
            None
        } else {
            let k = spec_u64_from_le_bytes(b.subrange(1, 9));
            match decoded_names(b.skip(9), k as nat) {
                Some(devices) => Some(ResponseView::ListDevices { devices }),
                None => None,
            }
        }
    } else if b.len() == 2 {
        match decoded_bool(b[1]) {
            Some(enabled) => {
                if b[0] == TAG_SET_POWER_SAVE {
                    Some(ResponseView::SetPowerSave { enabled })
                } else if b[0] == TAG_GET_POWER_SAVE {
                    Some(ResponseView::GetPowerSave { enabled })
                } else if b[0] == TAG_SET_SSH_ENABLED {
                    Some(ResponseView::SetSshEnabled { enabled })
                } else if b[0] == TAG_GET_SSH_ENABLED {
                    Some(ResponseView::GetSshEnabled { enabled })
                } else {
                    None
                }
            },
            None => None,
        }
    } else {
        None
    }
}

/// Encode a request for the wire.
pub fn encode_request(req: &Request) -> (r: Vec<u8>)
    ensures
        r@ == encoded_request(req@),
{
    match req {
        Request::SetPowerSave(q) => {
            let mut out: Vec<u8> = Vec::new();
            out.push(TAG_SET_POWER_SAVE);
            let mut lenb = u64_to_le_bytes(q.device.len() as u64);
            out.append(&mut lenb);
            let mut dev = slice_to_vec(q.device.as_slice());
            out.append(&mut dev);
            out.push(if q.enabled { 1 } else { 0 });
            proof {
                assert(out@ =~= encoded_request(req@));
            }
            out
        },
        Request::GetPowerSave(q) => {
            let mut out: Vec<u8> = Vec::new();
            out.push(TAG_GET_POWER_SAVE);
            let mut lenb = u64_to_le_bytes(q.device.len() as u64);
            out.append(&mut lenb);
            let mut dev = slice_to_vec(q.device.as_slice());
            out.append(&mut dev);
            proof {
                assert(out@ =~= encoded_request(req@));
            }
            out
        },
        Request::ListDevices(_) => {
            let mut out: Vec<u8> = Vec::new();
            out.push(TAG_LIST_DEVICES);
            proof {
                assert(out@ =~= encoded_request(req@));
            }
            out
        },
        Request::SetSshEnabled(q) => {
            let mut out: Vec<u8> = Vec::new();
            out.push(TAG_SET_SSH_ENABLED);
            out.push(if q.enabled { 1 } else { 0 });
            proof {
                assert(out@ =~= encoded_request(req@));
            }
            out
        },
        Request::GetSshEnabled(_) => {
            let mut out: Vec<u8> = Vec::new();
            out.push(TAG_GET_SSH_ENABLED);
            proof {
                assert(out@ =~= encoded_request(req@));
            }
            out
        },
    }
}

/// Decode a request from the wire. Returns `None` on any malformed
/// input, and accepts exactly what [`encode_request`] produces.
pub fn decode_request(b: &[u8]) -> (r: Option<Request>)
    ensures
        match r {
            Some(m) => decoded_request(b@) == Some(m@),
            None => decoded_request(b@) is None,
        },
{
    let blen = b.len();
    if blen < 1 {
        return None;
    }
    let tag = b[0];
    if tag == TAG_SET_POWER_SAVE {
        if blen < 10 {
            return None;
        }
        let n64 = u64_from_le_bytes(slice_subrange(b, 1, 9));
        if (blen - 10) as u64 != n64 {
            return None;
        }
        let flag = b[blen - 1];
        let enabled: bool;
        if flag == 1 {
            enabled = true;
        } else if flag == 0 {
            enabled = false;
        } else {
            return None;
        }
        let device = slice_to_vec(slice_subrange(b, 9, blen - 1));
        let m = Request::SetPowerSave(SetPowerSaveRequest { device, enabled });
        proof {
            assert(b@.subrange(9, b@.len() - 1) =~= b@.subrange(9, (blen - 1) as int));
            assert(m@ =~~= (RequestView::SetPowerSave {
                device: b@.subrange(9, b@.len() - 1),
                enabled,
            }));
        }
        Some(m)
    } else if tag == TAG_GET_POWER_SAVE {
        if blen < 9 {
            return None;
        }
        let n64 = u64_from_le_bytes(slice_subrange(b, 1, 9));
        if (blen - 9) as u64 != n64 {
            return None;
        }
        let device = slice_to_vec(slice_subrange(b, 9, blen));
        let m = Request::GetPowerSave(GetPowerSaveRequest { device });
        proof {
            assert(m@ =~~= (RequestView::GetPowerSave { device: b@.subrange(9, b@.len() as int) }));
        }
        Some(m)
    } else if tag == TAG_LIST_DEVICES {
        if blen == 1 {
            Some(Request::ListDevices(ListDevicesRequest {  }))
        } else {
            None
        }
    } else if tag == TAG_SET_SSH_ENABLED {
        if blen != 2 {
            return None;
        }
        let flag = b[1];
        if flag == 1 {
            Some(Request::SetSshEnabled(SetEnabledRequest { enabled: true }))
        } else if flag == 0 {
            Some(Request::SetSshEnabled(SetEnabledRequest { enabled: false }))
        } else {
            None
        }
    } else if tag == TAG_GET_SSH_ENABLED {
        if blen == 1 {
            Some(Request::GetSshEnabled(GetEnabledRequest {  }))
        } else {
            None
        }
    } else {
        None
    }
}

/// Encode a response for the wire.
pub fn encode_response(resp: &Response) -> (r: Vec<u8>)
    ensures
        r@ == encoded_response(resp@),
{
    match resp {
        Response::SetPowerSave(p) => {
            let mut out: Vec<u8> = Vec::new();
            out.push(TAG_SET_POWER_SAVE);
            out.push(if p.enabled { 1 } else { 0 });
            proof {
                assert(out@ =~= encoded_response(resp@));
            }
            out
        },
        Response::GetPowerSave(p) => {
            let mut out: Vec<u8> = Vec::new();
            out.push(TAG_GET_POWER_SAVE);
            out.push(if p.enabled { 1 } else { 0 });
            proof {
                assert(out@ =~= encoded_response(resp@));
            }
            out
        },
        Response::ListDevices(p) => {
            let mut out: Vec<u8> = Vec::new();
            out.push(TAG_LIST_DEVICES);
            let mut cntb = u64_to_le_bytes(p.devices.len() as u64);
            out.append(&mut cntb);
            let ghost ds = p.devices.deep_view();
            let ghost prefix = out@;
            let mut i: usize = 0;
            proof {
                assert(ds.take(0) =~= Seq::<Seq<u8>>::empty());
                assert(out@ =~= prefix + encoded_names(ds.take(0)));
            }
            while i < p.devices.len()
                invariant
                    i <= p.devices@.len(),
                    ds == p.devices.deep_view(),
                    ds.len() == p.devices@.len(),
                    out@ == prefix + encoded_names(ds.take(i as int)),
                decreases p.devices@.len() - i,
            {
                let name = &p.devices[i];
                let mut lenb = u64_to_le_bytes(name.len() as u64);
                out.append(&mut lenb);
                let mut nb = slice_to_vec(name.as_slice());
                out.append(&mut nb);
                proof {
                    assert(ds[i as int] == p.devices@[i as int].deep_view());
                    assert(p.devices@[i as int].deep_view() =~= p.devices@[i as int]@);
                    lemma_encoded_names_push(ds.take(i as int), ds[i as int]);
                    assert(ds.take(i + 1) =~= ds.take(i as int).push(ds[i as int]));
                    assert(out@ =~= prefix + encoded_names(ds.take(i + 1)));
                }
                i += 1;
            }
            proof {
                assert(ds.take(ds.len() as int) =~= ds);
                assert(out@ =~= encoded_response(resp@));
            }
            out
        },
        Response::SetSshEnabled(p) => {
            let mut out: Vec<u8> = Vec::new();
            out.push(TAG_SET_SSH_ENABLED);
            out.push(if p.enabled { 1 } else { 0 });
            proof {
                assert(out@ =~= encoded_response(resp@));
            }
            out
        },
        Response::GetSshEnabled(p) => {
            let mut out: Vec<u8> = Vec::new();
            out.push(TAG_GET_SSH_ENABLED);
            out.push(if p.enabled { 1 } else { 0 });
            proof {
                assert(out@ =~= encoded_response(resp@));
            }
            out
        },
    }
}

/// Decode a response from the wire. Returns `None` on any malformed
/// input, and accepts exactly what [`encode_response`] produces.
pub fn decode_response(b: &[u8]) -> (r: Option<Response>)
    ensures
        match r {
            Some(m) => decoded_response(b@) == Some(m@),
            None => decoded_response(b@) is None,
        },
{
    let blen = b.len();
    if blen < 1 {
        return None;
    }
    let tag = b[0];
    if tag == TAG_LIST_DEVICES {
        if blen < 9 {
            return None;
        }
        let count = u64_from_le_bytes(slice_subrange(b, 1, 9));
        let ghost goal = decoded_names(b@.skip(9), count as nat);
        let mut acc: Vec<Vec<u8>> = Vec::new();
        let mut pos: usize = 9;
        let mut i: u64 = 0;
        proof {
            assert(acc.deep_view() =~= Seq::<Seq<u8>>::empty());
            match decoded_names(b@.skip(9), count as nat) {
                Some(rest) => {
                    assert(Seq::<Seq<u8>>::empty() + rest =~= rest);
                },
                None => {
                },
            }
        }
        while i < count
            invariant
                9 <= pos <= b@.len(),
                b@.len() <= usize::MAX,
                blen == b@.len(),
                b@.len() >= 9,
                b@[0] == TAG_LIST_DEVICES,
                count == spec_u64_from_le_bytes(b@.subrange(1, 9)),
                i <= count,
                goal == decoded_names(b@.skip(9), count as nat),
                (match decoded_names(b@.skip(pos as int), (count - i) as nat) {
                    Some(rest) => goal == Some(acc.deep_view() + rest),
                    None => goal is None,
                }),
            decreases count - i,
        {
            let ghost k = (count - i) as nat;
            let ghost t = b@.skip(pos as int);
            if blen - pos < 8 {
                return None;
            }
            let n64 = u64_from_le_bytes(slice_subrange(b, pos, pos + 8));
            proof {
                assert(t.subrange(0, 8) =~= b@.subrange(pos as int, pos + 8));
            }
            let rem = blen - pos - 8;
            if n64 > rem as u64 {
                return None;
            }
            let n = n64 as usize;
            let name = slice_to_vec(slice_subrange(b, pos + 8, pos + 8 + n));
            proof {
                assert(t.subrange(8, n64 + 8) =~= b@.subrange(pos + 8, pos + 8 + n));
                assert(t.skip(n64 + 8) =~= b@.skip(pos + 8 + n));
            }
            let ghost prev = acc.deep_view();
            acc.push(name);
            proof {
                assert(acc.deep_view() =~~= prev.push(name@));
                match decoded_names(b@.skip(pos + 8 + n), (k - 1) as nat) {
                    Some(rest2) => {
                        assert(prev + (seq![name@] + rest2) =~= acc.deep_view() + rest2);
                    },
                    None => {
                    },
                }
            }
            pos = pos + 8 + n;
            i = i + 1;
        }
        if pos != blen {
            proof {
                assert(b@.skip(pos as int).len() != 0);
            }
            return None;
        }
        proof {
            assert(b@.skip(pos as int).len() == 0);
            assert(acc.deep_view() + Seq::<Seq<u8>>::empty() =~= acc.deep_view());
        }
        let m = Response::ListDevices(crate::wifi::ListDevicesResponse { devices: acc });
        proof {
            assert(m@ =~~= (ResponseView::ListDevices { devices: acc.deep_view() }));
        }
        Some(m)
    } else if blen == 2 {
        let flag = b[1];
        let enabled: bool;
        if flag == 1 {
            enabled = true;
        } else if flag == 0 {
            enabled = false;
        } else {
            return None;
        }
        if tag == TAG_SET_POWER_SAVE {
            Some(Response::SetPowerSave(crate::wifi::SetPowerSaveResponse { enabled }))
        } else if tag == TAG_GET_POWER_SAVE {
            Some(Response::GetPowerSave(crate::wifi::GetPowerSaveResponse { enabled }))
        } else if tag == TAG_SET_SSH_ENABLED {
            Some(Response::SetSshEnabled(crate::ssh::SetEnabledResponse { enabled }))
        } else if tag == TAG_GET_SSH_ENABLED {
            Some(Response::GetSshEnabled(crate::ssh::GetEnabledResponse { enabled }))
        } else {
            None
        }
    } else {
        None
    }
}

/// Appending one name to a list extends its encoding by that name's
/// length-prefixed bytes.
pub proof fn lemma_encoded_names_push(ds: Seq<Seq<u8>>, x: Seq<u8>)
    ensures
        encoded_names(ds.push(x)) == encoded_names(ds) + spec_u64_to_le_bytes(x.len() as u64) + x,
    decreases ds.len(),
{
    if ds.len() == 0 {
        assert(ds.push(x).first() == x);
        assert(ds.push(x).drop_first() =~= Seq::<Seq<u8>>::empty());
        assert(ds =~= Seq::<Seq<u8>>::empty());
        assert(encoded_names(ds.push(x)) =~= encoded_names(ds) + spec_u64_to_le_bytes(
            x.len() as u64,
        ) + x);
    } else {
        assert(ds.push(x).first() == ds.first());
        assert(ds.push(x).drop_first() =~= ds.drop_first().push(x));
        lemma_encoded_names_push(ds.drop_first(), x);
        assert(encoded_names(ds.push(x)) =~= encoded_names(ds) + spec_u64_to_le_bytes(
            x.len() as u64,
        ) + x);
    }
}

/// Whether a request's variable-length fields fit their wire lengths.
/// Every request a machine can hold satisfies this.
pub open spec fn request_fits(rq: RequestView) -> bool {
    match rq {
        RequestView::SetPowerSave { device, .. } => device.len() <= u64::MAX,
        RequestView::GetPowerSave { device } => device.len() <= u64::MAX,
        _ => true,
    }
}

/// Whether a response's variable-length fields fit their wire lengths.
pub open spec fn response_fits(rp: ResponseView) -> bool {
    match rp {
        ResponseView::ListDevices { devices } => devices.len() <= u64::MAX && forall|i: int|
            0 <= i < devices.len() ==> #[trigger] devices[i].len() <= u64::MAX,
        _ => true,
    }
}

/// Parsing an encoded name list gives the list back.
pub proof fn lemma_names_round_trip(ds: Seq<Seq<u8>>)
    requires
        forall|i: int| 0 <= i < ds.len() ==> #[trigger] ds[i].len() <= u64::MAX,
    ensures
        decoded_names(encoded_names(ds), ds.len()) == Some(ds),
    decreases ds.len(),
{
    lemma_auto_spec_u64_to_from_le_bytes();
    if ds.len() == 0 {
        assert(decoded_names(encoded_names(ds), ds.len()) == Some(Seq::<Seq<u8>>::empty()));
        assert(ds =~= Seq::<Seq<u8>>::empty());
    } else {
        let x = ds.first();
        let rest = ds.drop_first();
        let lenb = spec_u64_to_le_bytes(x.len() as u64);
        let e = encoded_names(ds);
        assert(x.len() <= u64::MAX);
        assert(e == lenb + x + encoded_names(rest));
        assert(e.subrange(0, 8) =~= lenb);
        assert(spec_u64_from_le_bytes(e.subrange(0, 8)) == x.len());
        assert(e.subrange(8, x.len() as int + 8) =~= x);
        assert(e.skip(x.len() as int + 8) =~= encoded_names(rest));
        assert forall|i: int| 0 <= i < rest.len() implies #[trigger] rest[i].len()
            <= u64::MAX by {
            assert(rest[i] == ds[i + 1]);
        }
        lemma_names_round_trip(rest);
        assert(seq![x] + rest =~= ds);
    }
}

/// Round trip: decoding an encoded request gives the request back — the
/// wire loses nothing and admits nothing else for that byte string.
pub proof fn lemma_request_round_trip(rq: RequestView)
    requires
        request_fits(rq),
    ensures
        decoded_request(encoded_request(rq)) == Some(rq),
{
    lemma_auto_spec_u64_to_from_le_bytes();
    let e = encoded_request(rq);
    match rq {
        RequestView::SetPowerSave { device, enabled } => {
            assert(e.len() == device.len() + 10);
            assert(e[0] == TAG_SET_POWER_SAVE);
            assert(e.subrange(1, 9) =~= spec_u64_to_le_bytes(device.len() as u64));
            assert(e.last() == bool_byte(enabled));
            assert(e.subrange(9, e.len() - 1) =~= device);
        },
        RequestView::GetPowerSave { device } => {
            assert(e.len() == device.len() + 9);
            assert(e[0] == TAG_GET_POWER_SAVE);
            assert(e.subrange(1, 9) =~= spec_u64_to_le_bytes(device.len() as u64));
            assert(e.subrange(9, e.len() as int) =~= device);
        },
        RequestView::ListDevices => {
        },
        RequestView::SetSshEnabled { enabled } => {
        },
        RequestView::GetSshEnabled => {
        },
    }
}

/// Round trip: decoding an encoded response gives the response back.
pub proof fn lemma_response_round_trip(rp: ResponseView)
    requires
        response_fits(rp),
    ensures
        decoded_response(encoded_response(rp)) == Some(rp),
{
    lemma_auto_spec_u64_to_from_le_bytes();
    let e = encoded_response(rp);
    match rp {
        ResponseView::ListDevices { devices } => {
            assert(e.len() >= 9);
            assert(e[0] == TAG_LIST_DEVICES);
            assert(e.subrange(1, 9) =~= spec_u64_to_le_bytes(devices.len() as u64));
            assert(e.skip(9) =~= encoded_names(devices));
            lemma_names_round_trip(devices);
        },
        _ => {
        },
    }
}

/// Every response the daemon owes fits the wire: for any request and
/// any outcome whose captured output a machine can hold, the owed
/// response encodes and decodes back to itself. What the daemon writes
/// is exactly what the client reads.
pub proof fn lemma_reply_round_trip(rq: RequestView, oc: OutcomeView)
    requires
        oc matches OutcomeView::Finished { stdout, .. } ==> stdout.len() < u64::MAX,
    ensures
        response_fits(crate::rpc::response_for(rq, oc)),
        decoded_response(encoded_response(crate::rpc::response_for(rq, oc))) == Some(
            crate::rpc::response_for(rq, oc),
        ),
{
    let rp = crate::rpc::response_for(rq, oc);
    if rq is ListDevices {
        match oc {
            OutcomeView::Finished { stdout, .. } => {
                crate::text::lemma_lines_of_bounds(stdout);
                crate::wifi::lemma_interface_names_bounds(lines_of(stdout), stdout.len() as int);
                assert(crate::wifi::listed_devices(stdout).len() <= stdout.len() + 1);
            },
            OutcomeView::Failed => {
            },
        }
    }
    lemma_response_round_trip(rp);
}
pub fn encode_frame(payload: &[u8]) -> (r: Vec<u8>)
    ensures
        r@ == spec_u64_to_le_bytes(payload@.len() as u64) + payload@,
{
    let mut out = u64_to_le_bytes(payload.len() as u64);
    let mut body = slice_to_vec(payload);
    out.append(&mut body);
    proof {
        assert(out@ =~= spec_u64_to_le_bytes(payload@.len() as u64) + payload@);
    }
    out
}

/// Read a frame header: the payload length it announces.
pub fn decode_frame_len(header: &[u8]) -> (n: u64)
    requires
        header@.len() == 8,
    ensures
        n == spec_u64_from_le_bytes(header@),
{
    u64_from_le_bytes(header)
}

} // verus!
