//! The X.224 Data TPDU, MCS Send Data PDUs and static virtual channel headers.
use vstd::prelude::*;
use crate::error::RdpError;
use crate::framing::{encode_frame, spec_encode_frame, Action};
use crate::wire::{be16, read_u16_be, read_u32_le};

verus! {

/// Offset added to an MCS user id on the wire.
pub const MCS_BASE_CHANNEL_ID: u16 = 1001;
pub const MCS_SEND_DATA_REQUEST: u8 = 25;
pub const MCS_SEND_DATA_INDICATION: u8 = 26;
pub const MCS_DISCONNECT_PROVIDER_ULTIMATUM: u8 = 8;
/// Data priority high, segmentation begin and end.
pub const SEND_DATA_FLAGS: u8 = 0x70;

pub const CHANNEL_FLAG_FIRST: u32 = 0x01;
pub const CHANNEL_FLAG_LAST: u32 = 0x02;

/// The three-byte header of an X.224 Data TPDU.
pub open spec fn x224_data_header() -> Seq<u8> {
    seq![2u8, 0xF0u8, 0x80u8]
}

/// The user data of the X.224 Data TPDU that is the payload of a TPKT frame.
pub fn parse_x224_data(payload: &[u8]) -> (r: Result<Vec<u8>, RdpError>)
    ensures
        r.is_ok() <==> payload@.len() >= 3 && payload@.subrange(0, 3) == x224_data_header(),
        r.is_ok() ==> r.unwrap()@ == payload@.subrange(3, payload@.len() as int),
        r.is_err() ==> r == Err::<Vec<u8>, RdpError>(RdpError::X224Error),
{
    if payload.len() < 3 || payload[0] != 2 || payload[1] != 0xF0 || payload[2] != 0x80 {
        proof {
            if payload@.len() >= 3 && payload@.subrange(0, 3) == x224_data_header() {
                assert(payload@.subrange(0, 3)[0] == payload@[0]);
                assert(payload@.subrange(0, 3)[1] == payload@[1]);
                assert(payload@.subrange(0, 3)[2] == payload@[2]);
            }
        }
        return Err(RdpError::X224Error);
    }
    assert(payload@.subrange(0, 3) =~= x224_data_header());
    let n = payload.len();
    Ok(vstd::slice::slice_to_vec(&payload[3..n]))
}

/// Frames `data` as an X.224 Data TPDU in a TPKT packet.
pub fn encode_x224_data(data: &[u8]) -> (r: Vec<u8>)
    requires
        data@.len() + 7 <= 0xFFFF,
    ensures
        r@ == spec_encode_frame(Action::X224, x224_data_header() + data@),
{
    let mut payload: Vec<u8> = Vec::new();
    payload.push(2);
    payload.push(0xF0);
    payload.push(0x80);
    let ghost head = payload@;
    let mut i: usize = 0;
    while i < data.len()
        invariant
            i <= data@.len(),
            head == x224_data_header(),
            payload@ == head + data@.subrange(0, i as int),
        decreases data@.len() - i,
    {
        payload.push(data[i]);
        i += 1;
        assert(data@.subrange(0, i as int) == data@.subrange(0, i - 1).push(data@[i - 1]));
    }
    assert(data@.subrange(0, data@.len() as int) =~= data@);
    encode_frame(Action::X224, payload.as_slice())
}

/// The addressing of an MCS Send Data PDU.
#[derive(Clone, Copy, Debug, PartialEq, Eq, Structural)]
pub struct SendDataContext {
    pub initiator_id: u16,
    pub channel_id: u16,
    pub pdu_length: usize,
}

/// The MCS PDUs of the active stage.
#[derive(Clone, Copy, Debug, PartialEq, Eq, Structural)]
pub enum McsPdu {
    SendDataRequest(SendDataContext),
    SendDataIndication(SendDataContext),
    DisconnectProviderUltimatum(u8),
    /// Any other DomainMCSPDU, by its choice number.
    Other(u8),
}

/// The PER length determinant at `pos`: its value and its size.
pub open spec fn spec_per_length(b: Seq<u8>, pos: int) -> (int, int) {
    if b[pos] < 0x80 {
        (b[pos] as int, 1)
    } else {
        ((b[pos] - 0x80) * 256 + b[pos + 1], 2)
    }
}

/// The MCS PDU at the start of `b` and where its user data starts, if well formed.
pub open spec fn spec_mcs(b: Seq<u8>) -> Option<(McsPdu, int)> {
    if b.len() < 1 {
        None
    } else if b[0] / 4 == MCS_DISCONNECT_PROVIDER_ULTIMATUM {
        if b.len() < 2 {
            None
        } else {
            Some((McsPdu::DisconnectProviderUltimatum(((b[0] % 4) * 2 + b[1] / 128) as u8), 2))
        }
    } else if b[0] / 4 != MCS_SEND_DATA_REQUEST && b[0] / 4 != MCS_SEND_DATA_INDICATION {
        Some((McsPdu::Other(b[0] / 4), 1))
    } else if b.len() < 7 || be16(b, 1) > 0xFFFF - MCS_BASE_CHANNEL_ID || (b[6] >= 0x80 && b.len() < 8) {
        None
    } else {
        let start = 6 + spec_per_length(b, 6).1;
        let length = spec_per_length(b, 6).0;
        if b.len() - start != length {
            None
        } else {
            let c = SendDataContext {
                initiator_id: (be16(b, 1) + MCS_BASE_CHANNEL_ID) as u16,
                channel_id: be16(b, 3) as u16,
                pdu_length: length as usize,
            };
            if b[0] / 4 == MCS_SEND_DATA_INDICATION {
                Some((McsPdu::SendDataIndication(c), start))
            } else {
                Some((McsPdu::SendDataRequest(c), start))
            }
        }
    }
}

/// Parses the MCS PDU at the start of `b`; for Send Data PDUs also returns
/// where the user data starts, which runs to the end of `b`.
pub fn parse_mcs(b: &[u8]) -> (r: Result<(McsPdu, usize), RdpError>)
    ensures
        b@.len() >= 1 && b@[0] / 4 == MCS_DISCONNECT_PROVIDER_ULTIMATUM && b@.len() >= 2 ==> r
            == Ok::<(McsPdu, usize), RdpError>(
            (
                McsPdu::DisconnectProviderUltimatum(((b@[0] % 4) * 2 + b@[1] / 128) as u8),
                2,
            ),
        ),
        r matches Ok((McsPdu::SendDataIndication(c), start)) ==> {
            &&& b@[0] / 4 == MCS_SEND_DATA_INDICATION
            &&& c.initiator_id == be16(b@, 1) + MCS_BASE_CHANNEL_ID
            &&& c.channel_id == be16(b@, 3)
            &&& start == 6 + spec_per_length(b@, 6).1
            &&& c.pdu_length == spec_per_length(b@, 6).0
            &&& start + c.pdu_length == b@.len()
        },
        r matches Ok((McsPdu::SendDataRequest(c), start)) ==> {
            &&& b@[0] / 4 == MCS_SEND_DATA_REQUEST
            &&& c.initiator_id == be16(b@, 1) + MCS_BASE_CHANNEL_ID
            &&& c.channel_id == be16(b@, 3)
            &&& start + c.pdu_length == b@.len()
        },
        r.is_ok() ==> r.unwrap().1 <= b@.len() && b@.len() >= 1,
        r matches Ok((McsPdu::DisconnectProviderUltimatum(_), _)) ==> b@.len() >= 2 && b@[0] / 4
            == MCS_DISCONNECT_PROVIDER_ULTIMATUM,
        r matches Err(e) ==> e == RdpError::McsError,
        match spec_mcs(b@) {
            None => r is Err,
            Some((p, s)) => r == Ok::<(McsPdu, usize), RdpError>((p, s as usize)),
        },
{
    let n = b.len();
    if n < 1 {
        return Err(RdpError::McsError);
    }
    let choice = b[0] / 4;
    if choice == MCS_DISCONNECT_PROVIDER_ULTIMATUM {
        if n < 2 {
            return Err(RdpError::McsError);
        }
        let reason = (b[0] % 4) * 2 + b[1] / 128;
        return Ok((McsPdu::DisconnectProviderUltimatum(reason), 2));
    }
    if choice != MCS_SEND_DATA_REQUEST && choice != MCS_SEND_DATA_INDICATION {
        return Ok((McsPdu::Other(choice), 1));
    }
    if n < 7 {
        return Err(RdpError::McsError);
    }
    let user = read_u16_be(b, 1);
    if user > 0xFFFF - MCS_BASE_CHANNEL_ID {
        return Err(RdpError::McsError);
    }
    let channel_id = read_u16_be(b, 3);
    let (length, size): (usize, usize) = if b[6] < 0x80 {
        (b[6] as usize, 1)
    } else {
        if n < 8 {
            return Err(RdpError::McsError);
        }
        (((b[6] - 0x80) as usize) * 256 + b[7] as usize, 2)
    };
    let start = 6 + size;
    if n - start != length {
        return Err(RdpError::McsError);
    }
    let ctx = SendDataContext { initiator_id: user + MCS_BASE_CHANNEL_ID, channel_id, pdu_length: length };
    if choice == MCS_SEND_DATA_INDICATION {
        Ok((McsPdu::SendDataIndication(ctx), start))
    } else {
        Ok((McsPdu::SendDataRequest(ctx), start))
    }
}

/// The header of an MCS Send Data Request carrying `len` bytes.
pub open spec fn spec_send_data_request_header(initiator_id: u16, channel_id: u16, len: int) -> Seq<u8> {
    let user = initiator_id - MCS_BASE_CHANNEL_ID;
    seq![
        (MCS_SEND_DATA_REQUEST * 4) as u8,
        (user / 256) as u8,
        (user % 256) as u8,
        (channel_id / 256) as u8,
        (channel_id % 256) as u8,
        SEND_DATA_FLAGS,
    ] + if len < 0x80 {
        seq![len as u8]
    } else {
        seq![(len / 256 + 0x80) as u8, (len % 256) as u8]
    }
}

fn push_all(out: &mut Vec<u8>, data: &[u8])
    ensures
        final(out)@ == old(out)@ + data@,
{
    let ghost head = out@;
    let mut i: usize = 0;
    while i < data.len()
        invariant
            i <= data@.len(),
            head == old(out)@,
            out@ == head + data@.subrange(0, i as int),
        decreases data@.len() - i,
    {
        out.push(data[i]);
        i += 1;
        assert(data@.subrange(0, i as int) == data@.subrange(0, i - 1).push(data@[i - 1]));
    }
    assert(data@.subrange(0, data@.len() as int) =~= data@);
}

/// An MCS Send Data Request from `initiator_id` on `channel_id` carrying `data`.
pub fn encode_send_data_request(initiator_id: u16, channel_id: u16, data: &[u8]) -> (r: Vec<u8>)
    requires
        initiator_id >= MCS_BASE_CHANNEL_ID,
        data@.len() < 0x8000,
    ensures
        r@ == spec_send_data_request_header(initiator_id, channel_id, data@.len() as int) + data@,
{
    let user = initiator_id - MCS_BASE_CHANNEL_ID;
    let len = data.len();
    let mut out: Vec<u8> = Vec::new();
    out.push(MCS_SEND_DATA_REQUEST * 4);
    out.push((user / 256) as u8);
    out.push((user % 256) as u8);
    out.push((channel_id / 256) as u8);
    out.push((channel_id % 256) as u8);
    out.push(SEND_DATA_FLAGS);
    if len < 0x80 {
        out.push(len as u8);
    } else {
        out.push((len / 256 + 0x80) as u8);
        out.push((len % 256) as u8);
    }
    assert(out@ =~= spec_send_data_request_header(initiator_id, channel_id, len as int));
    push_all(&mut out, data);
    out
}

/// A static virtual channel PDU: its 8-byte header for a single, whole chunk, then `data`.
pub open spec fn spec_svc_pdu(data: Seq<u8>) -> Seq<u8> {
    let n = data.len();
    seq![
        (n % 256) as u8,
        ((n / 256) % 256) as u8,
        ((n / 65536) % 256) as u8,
        (n / 16777216) as u8,
        3u8,
        0u8,
        0u8,
        0u8,
    ] + data
}

/// Wraps `data` as one whole static virtual channel chunk.
pub fn encode_svc_pdu(data: &[u8]) -> (r: Vec<u8>)
    requires
        data@.len() <= u32::MAX,
    ensures
        r@ == spec_svc_pdu(data@),
{
    let n = data.len();
    let mut out: Vec<u8> = Vec::new();
    out.push((n % 256) as u8);
    out.push(((n / 256) % 256) as u8);
    out.push(((n / 65536) % 256) as u8);
    out.push((n / 16777216) as u8);
    out.push((CHANNEL_FLAG_FIRST + CHANNEL_FLAG_LAST) as u8);
    out.push(0);
    out.push(0);
    out.push(0);
    assert(out@ =~= seq![
        (n % 256) as u8,
        ((n / 256) % 256) as u8,
        ((n / 65536) % 256) as u8,
        (n / 16777216) as u8,
        3u8,
        0u8,
        0u8,
        0u8,
    ]);
    push_all(&mut out, data);
    out
}

/// The data of a static virtual channel PDU, after its 8-byte header.
pub fn parse_svc_pdu(b: &[u8]) -> (r: Result<Vec<u8>, RdpError>)
    ensures
        r.is_ok() <==> b@.len() >= 8,
        r.is_ok() ==> r.unwrap()@ == b@.subrange(8, b@.len() as int),
        r matches Err(e) ==> e == RdpError::DvcError,
{
    let n = b.len();
    if n < 8 {
        return Err(RdpError::DvcError);
    }
    let _total = read_u32_le(b, 0);
    Ok(vstd::slice::slice_to_vec(&b[8..n]))
}

} // verus!
