//! Share Control and Share Data headers of the global channel, and the Save
//! Session Info PDU.
use vstd::prelude::*;
use crate::error::{is_channel_error, RdpError, SessionError};
use crate::wire::{le16, le32, read_u16_le, read_u32_le};

verus! {

pub const SHARE_CONTROL_PDU_TYPE_DATA: u16 = 0x7;
pub const SHARE_CONTROL_HEADER_SIZE: usize = 6;
pub const SHARE_DATA_HEADER_SIZE: usize = 18;
pub const SHARE_DATA_SAVE_SESSION_INFO: u8 = 0x26;
pub const SHARE_DATA_SET_ERROR_INFO: u8 = 0x2F;
/// Stream priority "medium".
pub const STREAM_MEDIUM: u8 = 0x02;
/// The `pdu_source` that the server uses.
pub const SERVER_CHANNEL_ID: u16 = 0x03EA;
pub const LOGON_RECORD_SIZE: usize = 576;
pub const LOGON_V2_FIXED_SIZE: usize = 576;
pub const LOGON_EXTENDED_PADDING: usize = 570;

#[derive(Clone, Copy, Debug, PartialEq, Eq, Structural)]
pub enum InfoType {
    Logon,
    LogonLong,
    PlainNotify,
    LogonExtended,
}

/// The logon records are kept as their serialized bytes.
#[derive(Clone, Debug, PartialEq, Eq)]
pub enum InfoData {
    LogonInfoV1(Vec<u8>),
    LogonInfoV2(Vec<u8>),
    PlainNotify,
    LogonExtended(Vec<u8>),
}

#[derive(Clone, Debug, PartialEq, Eq)]
pub struct SaveSessionInfoPdu {
    pub info_type: InfoType,
    pub info_data: InfoData,
}

pub open spec fn spec_info_type(code: int) -> Option<InfoType> {
    if code == 0 {
        Some(InfoType::Logon)
    } else if code == 1 {
        Some(InfoType::LogonLong)
    } else if code == 2 {
        Some(InfoType::PlainNotify)
    } else if code == 3 {
        Some(InfoType::LogonExtended)
    } else {
        None
    }
}

pub open spec fn info_type_code(t: InfoType) -> u32 {
    match t {
        InfoType::Logon => 0,
        InfoType::LogonLong => 1,
        InfoType::PlainNotify => 2,
        InfoType::LogonExtended => 3,
    }
}

/// The serialized record of the info data; Plain Notify is padding of zeros.
pub open spec fn record_bytes(d: InfoData) -> Seq<u8> {
    match d {
        InfoData::LogonInfoV1(b) => b@,
        InfoData::LogonInfoV2(b) => b@,
        InfoData::PlainNotify => Seq::new(LOGON_RECORD_SIZE as nat, |i: int| 0u8),
        InfoData::LogonExtended(b) => b@,
    }
}

/// The little-endian bytes of a `u32`.
pub open spec fn le32_bytes(v: u32) -> Seq<u8> {
    seq![(v % 256) as u8, ((v / 256) % 256) as u8, ((v / 65536) % 256) as u8, (v / 16777216) as u8]
}

fn push_bytes(out: &mut Vec<u8>, data: &[u8])
    ensures
        final(out)@ == old(out)@ + data@,
{
    let ghost head = out@;
    let mut i: usize = 0;
    while i < data.len()
        invariant
            i <= data@.len(),
            head == old(out)@,
            out@ == head + data@.subrange(0, i as int),
        decreases data@.len() - i,
    {
        out.push(data[i]);
        i += 1;
        assert(data@.subrange(0, i as int) == data@.subrange(0, i - 1).push(data@[i - 1]));
    }
    assert(data@.subrange(0, data@.len() as int) =~= data@);
}

fn copy_range(b: &[u8], from: usize, to: usize) -> (r: Vec<u8>)
    requires
        from <= to <= b@.len(),
    ensures
        r@ == b@.subrange(from as int, to as int),
{
    vstd::slice::slice_to_vec(&b[from..to])
}

/// Whether `b` starts with a well-formed Save Session Info PDU.
pub open spec fn save_session_ok(b: Seq<u8>) -> bool {
    let rest = b.len() - 4;
    let code = le32(b, 0);
    &&& b.len() >= 4
    &&& if code == 0 || code == 2 {
        rest >= LOGON_RECORD_SIZE
    } else if code == 1 {
        &&& rest >= 18
        &&& le16(b, 4) == 1
        &&& le32(b, 6) == 18
        &&& le32(b, 14) <= 52
        &&& le32(b, 18) <= 512
        &&& rest >= LOGON_V2_FIXED_SIZE + le32(b, 14) + le32(b, 18)
    } else if code == 3 {
        rest >= 2 && le16(b, 4) >= 6 && rest >= le16(b, 4) + LOGON_EXTENDED_PADDING
    } else {
        false
    }
}

/// Whether `b` is a Share Control PDU carrying a well-formed Share Data PDU.
pub open spec fn share_data_ok(b: Seq<u8>) -> bool {
    &&& b.len() >= SHARE_DATA_HEADER_SIZE
    &&& le16(b, 2) % 16 == SHARE_CONTROL_PDU_TYPE_DATA
    &&& b[14] == SHARE_DATA_SAVE_SESSION_INFO ==> save_session_ok(b.subrange(18, b.len() as int))
    &&& b[14] == SHARE_DATA_SET_ERROR_INFO ==> b.len() >= 22
}

/// Whether the global channel accepts the Share Data PDU in `b`: session info,
/// or the "no error" error info.
pub open spec fn global_pdu_ok(b: Seq<u8>) -> bool {
    share_data_ok(b) && (b[14] == SHARE_DATA_SAVE_SESSION_INFO || (b[14] == SHARE_DATA_SET_ERROR_INFO && le32(
        b,
        18,
    ) == 0))
}

/// The error of a malformed Save Session Info PDU.
pub open spec fn save_session_error(b: Seq<u8>) -> SessionError {
    let rest = b.len() - 4;
    let code = le32(b, 0);
    if b.len() < 4 {
        SessionError::NotEnoughBytes
    } else if code == 0 || code == 2 {
        SessionError::NotEnoughBytes
    } else if code == 1 {
        if rest < 18 {
            SessionError::NotEnoughBytes
        } else if le16(b, 4) != 1 {
            SessionError::InvalidLogonVersion2
        } else if le32(b, 6) != 18 {
            SessionError::InvalidLogonVersion2Size
        } else if le32(b, 14) > 52 {
            SessionError::InvalidDomainNameSize
        } else if le32(b, 18) > 512 {
            SessionError::InvalidUserNameSize
        } else {
            SessionError::NotEnoughBytes
        }
    } else if code == 3 {
        if rest < 2 {
            SessionError::NotEnoughBytes
        } else if le16(b, 4) < 6 {
            SessionError::InvalidLogonErrorData
        } else {
            SessionError::NotEnoughBytes
        }
    } else {
        SessionError::InvalidSaveSessionInfoType
    }
}

/// The error of a Share Control PDU that does not carry a well-formed Share Data PDU.
pub open spec fn share_data_error(b: Seq<u8>) -> RdpError {
    if b.len() < SHARE_CONTROL_HEADER_SIZE {
        RdpError::ShareHeaderError
    } else if le16(b, 2) % 16 != SHARE_CONTROL_PDU_TYPE_DATA {
        RdpError::UnexpectedPdu
    } else if b.len() < SHARE_DATA_HEADER_SIZE {
        RdpError::ShareHeaderError
    } else if b[14] == SHARE_DATA_SAVE_SESSION_INFO {
        RdpError::SessionError(save_session_error(b.subrange(18, b.len() as int)))
    } else {
        RdpError::ShareHeaderError
    }
}

/// What the global channel makes of the Share Data PDU in `b`.
pub open spec fn global_result(b: Seq<u8>) -> Result<(), RdpError> {
    if !share_data_ok(b) {
        Err(share_data_error(b))
    } else if b[14] == SHARE_DATA_SAVE_SESSION_INFO {
        Ok(())
    } else if b[14] == SHARE_DATA_SET_ERROR_INFO {
        if le32(b, 18) == 0 {
            Ok(())
        } else {
            Err(RdpError::ServerError(le32(b, 18) as u32))
        }
    } else {
        Err(RdpError::UnexpectedPdu)
    }
}

impl SaveSessionInfoPdu {
    /// Parses the PDU at the start of `b`; returns it with its length.
    pub fn from_buffer(b: &[u8]) -> (r: Result<(SaveSessionInfoPdu, usize), SessionError>)
        ensures
            r.is_ok() <==> save_session_ok(b@),
            r matches Err(e) ==> e == save_session_error(b@),
            b@.len() >= 4 && spec_info_type(le32(b@, 0)).is_none() ==> r == Err::<
                (SaveSessionInfoPdu, usize),
                SessionError,
            >(SessionError::InvalidSaveSessionInfoType),
            r matches Ok((pdu, n)) ==> {
                &&& 4 <= n <= b@.len()
                &&& Some(pdu.info_type) == spec_info_type(le32(b@, 0))
                &&& record_bytes(pdu.info_data) == b@.subrange(4, n as int) || pdu.info_data
                    == InfoData::PlainNotify
                &&& pdu.info_type == InfoType::PlainNotify <==> pdu.info_data == InfoData::PlainNotify
                &&& pdu.info_data == InfoData::PlainNotify ==> n == 4 + LOGON_RECORD_SIZE
            },
    {
        let n = b.len();
        if n < 4 {
            return Err(SessionError::NotEnoughBytes);
        }
        let code = read_u32_le(b, 0);
        let rest = n - 4;
        if code == 0 {
            if rest < LOGON_RECORD_SIZE {
                return Err(SessionError::NotEnoughBytes);
            }
            let rec = copy_range(b, 4, 4 + LOGON_RECORD_SIZE);
            Ok((SaveSessionInfoPdu { info_type: InfoType::Logon, info_data: InfoData::LogonInfoV1(rec) }, 4 + LOGON_RECORD_SIZE))
        } else if code == 1 {
            if rest < 18 {
                return Err(SessionError::NotEnoughBytes);
            }
            if read_u16_le(b, 4) != 1 {
                return Err(SessionError::InvalidLogonVersion2);
            }
            if read_u32_le(b, 6) != 18 {
                return Err(SessionError::InvalidLogonVersion2Size);
            }
            let cb_domain = read_u32_le(b, 14) as usize;
            let cb_user = read_u32_le(b, 18) as usize;
            if cb_domain > 52 {
                return Err(SessionError::InvalidDomainNameSize);
            }
            if cb_user > 512 {
                return Err(SessionError::InvalidUserNameSize);
            }
            let size = LOGON_V2_FIXED_SIZE + cb_domain + cb_user;
            if rest < size {
                return Err(SessionError::NotEnoughBytes);
            }
            let rec = copy_range(b, 4, 4 + size);
            Ok((SaveSessionInfoPdu { info_type: InfoType::LogonLong, info_data: InfoData::LogonInfoV2(rec) }, 4 + size))
        } else if code == 2 {
            if rest < LOGON_RECORD_SIZE {
                return Err(SessionError::NotEnoughBytes);
            }
            Ok((SaveSessionInfoPdu { info_type: InfoType::PlainNotify, info_data: InfoData::PlainNotify }, 4 + LOGON_RECORD_SIZE))
        } else if code == 3 {
            if rest < 2 {
                return Err(SessionError::NotEnoughBytes);
            }
            let length = read_u16_le(b, 4) as usize;
            if length < 6 {
                return Err(SessionError::InvalidLogonErrorData);
            }
            let size = length + LOGON_EXTENDED_PADDING;
            if rest < size {
                return Err(SessionError::NotEnoughBytes);
            }
            let rec = copy_range(b, 4, 4 + size);
            Ok((SaveSessionInfoPdu { info_type: InfoType::LogonExtended, info_data: InfoData::LogonExtended(rec) }, 4 + size))
        } else {
            Err(SessionError::InvalidSaveSessionInfoType)
        }
    }

    /// Appends the serialized PDU to `out`.
    pub fn to_buffer(&self, out: &mut Vec<u8>)
        ensures
            final(out)@ == old(out)@ + le32_bytes(info_type_code(self.info_type)) + record_bytes(self.info_data),
    {
        let code: u32 = match self.info_type {
            InfoType::Logon => 0,
            InfoType::LogonLong => 1,
            InfoType::PlainNotify => 2,
            InfoType::LogonExtended => 3,
        };
        out.push((code % 256) as u8);
        out.push(((code / 256) % 256) as u8);
        out.push(((code / 65536) % 256) as u8);
        out.push((code / 16777216) as u8);
        let ghost head = out@;
        assert(head =~= old(out)@ + le32_bytes(info_type_code(self.info_type)));
        match &self.info_data {
            InfoData::LogonInfoV1(b) => push_bytes(out, b.as_slice()),
            InfoData::LogonInfoV2(b) => push_bytes(out, b.as_slice()),
            InfoData::PlainNotify => {
                let mut i: usize = 0;
                while i < LOGON_RECORD_SIZE
                    invariant
                        i <= LOGON_RECORD_SIZE,
                        out@ == head + Seq::new(i as nat, |k: int| 0u8),
                    decreases LOGON_RECORD_SIZE - i,
                {
                    out.push(0);
                    i += 1;
                    assert(out@ =~= head + Seq::new(i as nat, |k: int| 0u8));
                }
            },
            InfoData::LogonExtended(b) => push_bytes(out, b.as_slice()),
        }
    }

    /// The serialized length of the PDU.
    pub fn buffer_length(&self) -> (r: usize)
        requires
            record_bytes(self.info_data).len() + 4 <= usize::MAX,
        ensures
            r == 4 + record_bytes(self.info_data).len(),
    {
        let record = match &self.info_data {
            InfoData::LogonInfoV1(b) => b.len(),
            InfoData::LogonInfoV2(b) => b.len(),
            InfoData::PlainNotify => LOGON_RECORD_SIZE,
            InfoData::LogonExtended(b) => b.len(),
        };
        4 + record
    }
}

/// The header of a Share Data PDU on the global channel.
pub open spec fn spec_share_data_header(
    pdu_source: u16,
    share_id: u32,
    pdu_type2: u8,
    len: int,
) -> Seq<u8> {
    let total = len + SHARE_DATA_HEADER_SIZE;
    let uncompressed = len + 4;
    seq![
        (total % 256) as u8,
        (total / 256) as u8,
        0x17u8,
        0u8,
        (pdu_source % 256) as u8,
        (pdu_source / 256) as u8,
        (share_id % 256) as u8,
        ((share_id / 256) % 256) as u8,
        ((share_id / 65536) % 256) as u8,
        (share_id / 16777216) as u8,
        0u8,
        STREAM_MEDIUM,
        (uncompressed % 256) as u8,
        (uncompressed / 256) as u8,
        pdu_type2,
        0u8,
        0u8,
        0u8,
    ]
}

/// A Share Data PDU of type `pdu_type2` carrying `data`, uncompressed, at medium priority.
pub fn encode_share_data(pdu_source: u16, share_id: u32, pdu_type2: u8, data: &[u8]) -> (r: Vec<u8>)
    requires
        data@.len() + SHARE_DATA_HEADER_SIZE <= 0xFFFF,
    ensures
        r@ == spec_share_data_header(pdu_source, share_id, pdu_type2, data@.len() as int) + data@,
{
    let n = data.len();
    let total = n + SHARE_DATA_HEADER_SIZE;
    let uncompressed = n + 4;
    let mut out: Vec<u8> = Vec::new();
    out.push((total % 256) as u8);
    out.push((total / 256) as u8);
    out.push(0x17);
    out.push(0);
    out.push((pdu_source % 256) as u8);
    out.push((pdu_source / 256) as u8);
    out.push((share_id % 256) as u8);
    out.push(((share_id / 256) % 256) as u8);
    out.push(((share_id / 65536) % 256) as u8);
    out.push((share_id / 16777216) as u8);
    out.push(0);
    out.push(STREAM_MEDIUM);
    out.push((uncompressed % 256) as u8);
    out.push((uncompressed / 256) as u8);
    out.push(pdu_type2);
    out.push(0);
    out.push(0);
    out.push(0);
    assert(out@ =~= spec_share_data_header(pdu_source, share_id, pdu_type2, n as int));
    let ghost head = out@;
    let mut i: usize = 0;
    while i < n
        invariant
            i <= n,
            n == data@.len(),
            out@ == head + data@.subrange(0, i as int),
        decreases n - i,
    {
        out.push(data[i]);
        i += 1;
        assert(data@.subrange(0, i as int) == data@.subrange(0, i - 1).push(data@[i - 1]));
    }
    assert(data@.subrange(0, n as int) =~= data@);
    out
}

/// The Share Data PDUs that the global channel handles.
#[derive(Clone, Debug, PartialEq, Eq)]
pub enum ShareDataPdu {
    SaveSessionInfo(SaveSessionInfoPdu),
    ServerSetErrorInfo(u32),
    /// Any other Share Data PDU, by its `pduType2`.
    Other(u8),
}

/// A decoded Share Control header with the Share Data PDU it carries.
#[derive(Clone, Debug, PartialEq, Eq)]
pub struct ShareData {
    pub pdu_source: u16,
    pub share_id: u32,
    pub pdu: ShareDataPdu,
}

/// Parses a Share Control PDU that must carry a Share Data PDU.
pub fn parse_share_data(b: &[u8]) -> (r: Result<ShareData, RdpError>)
    ensures
        b@.len() < SHARE_DATA_HEADER_SIZE ==> r.is_err(),
        !(r matches Err(RdpError::ServerError(_))),
        r.is_ok() <==> share_data_ok(b@),
        r matches Err(e) ==> !is_channel_error(e) && e == share_data_error(b@),
        b@.len() >= SHARE_DATA_HEADER_SIZE && le16(b@, 2) % 16 == SHARE_CONTROL_PDU_TYPE_DATA && b@[14]
            != SHARE_DATA_SAVE_SESSION_INFO ==> (r.is_ok() <==> (b@[14] != SHARE_DATA_SET_ERROR_INFO
            || b@.len() >= 22)),
        b@.len() >= SHARE_CONTROL_HEADER_SIZE && le16(b@, 2) % 16 != SHARE_CONTROL_PDU_TYPE_DATA
            ==> r == Err::<ShareData, RdpError>(RdpError::UnexpectedPdu),
        r matches Ok(d) ==> {
            &&& le16(b@, 2) % 16 == SHARE_CONTROL_PDU_TYPE_DATA
            &&& d.pdu_source == le16(b@, 4)
            &&& d.share_id == le32(b@, 6)
            &&& (d.pdu is ServerSetErrorInfo <==> b@[14] == SHARE_DATA_SET_ERROR_INFO)
            &&& (d.pdu is SaveSessionInfo <==> b@[14] == SHARE_DATA_SAVE_SESSION_INFO)
            &&& d.pdu matches ShareDataPdu::ServerSetErrorInfo(e) ==> e == le32(b@, 18) && b@.len() >= 22
        },
{
    let n = b.len();
    if n < SHARE_CONTROL_HEADER_SIZE {
        return Err(RdpError::ShareHeaderError);
    }
    let pdu_type = read_u16_le(b, 2);
    if pdu_type % 16 != SHARE_CONTROL_PDU_TYPE_DATA {
        return Err(RdpError::UnexpectedPdu);
    }
    if n < SHARE_DATA_HEADER_SIZE {
        return Err(RdpError::ShareHeaderError);
    }
    let pdu_source = read_u16_le(b, 4);
    let share_id = read_u32_le(b, 6);
    let pdu_type2 = b[14];
    let body = copy_range(b, SHARE_DATA_HEADER_SIZE, n);
    proof {
        let s = b@.subrange(18, n as int);
        if s.len() >= 22 {
            assert(le32(s, 0) == le32(b@, 18));
            assert(le16(s, 4) == le16(b@, 22));
            assert(le32(s, 6) == le32(b@, 24));
            assert(le32(s, 14) == le32(b@, 32));
            assert(le32(s, 18) == le32(b@, 36));
        } else if s.len() >= 6 {
            assert(le32(s, 0) == le32(b@, 18));
            assert(le16(s, 4) == le16(b@, 22));
        } else if s.len() >= 4 {
            assert(le32(s, 0) == le32(b@, 18));
        }
    }
    let pdu = if pdu_type2 == SHARE_DATA_SAVE_SESSION_INFO {
        match SaveSessionInfoPdu::from_buffer(body.as_slice()) {
            Ok((p, _)) => ShareDataPdu::SaveSessionInfo(p),
            Err(e) => return Err(RdpError::SessionError(e)),
        }
    } else if pdu_type2 == SHARE_DATA_SET_ERROR_INFO {
        if n < SHARE_DATA_HEADER_SIZE + 4 {
            return Err(RdpError::ShareHeaderError);
        }
        ShareDataPdu::ServerSetErrorInfo(read_u32_le(b, 18))
    } else {
        ShareDataPdu::Other(pdu_type2)
    };
    Ok(ShareData { pdu_source, share_id, pdu })
}

/// What the global channel makes of a Share Data PDU: session info and the
/// "no error" notice are accepted, any other error info is a server error,
/// and any other PDU is unexpected.
pub fn process_global_channel_pdu(b: &[u8]) -> (r: Result<(), RdpError>)
    ensures
        r matches Err(RdpError::ServerError(e)) ==> e != 0 && b@.len() >= 22 && b@[14]
            == SHARE_DATA_SET_ERROR_INFO && e == le32(b@, 18),
        b@.len() >= 22 && le16(b@, 2) % 16 == SHARE_CONTROL_PDU_TYPE_DATA && b@[14]
            == SHARE_DATA_SET_ERROR_INFO ==> (r.is_ok() <==> le32(b@, 18) == 0),
        b@.len() >= SHARE_DATA_HEADER_SIZE && le16(b@, 2) % 16 == SHARE_CONTROL_PDU_TYPE_DATA
            && b@[14] != SHARE_DATA_SET_ERROR_INFO && b@[14] != SHARE_DATA_SAVE_SESSION_INFO ==> r
            == Err::<(), RdpError>(RdpError::UnexpectedPdu),
        r matches Err(e) ==> !is_channel_error(e),
        r.is_ok() <==> global_pdu_ok(b@),
        r == global_result(b@),
{
    let data = parse_share_data(b)?;
    match data.pdu {
        ShareDataPdu::SaveSessionInfo(_) => Ok(()),
        ShareDataPdu::ServerSetErrorInfo(e) => if e == 0 {
            Ok(())
        } else {
            Err(RdpError::ServerError(e))
        },
        ShareDataPdu::Other(_) => Err(RdpError::UnexpectedPdu),
    }
}

} // verus!
