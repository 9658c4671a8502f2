//! Dynamic virtual channel PDUs and the dynamic channels that receive them.
use vstd::prelude::*;
use crate::error::RdpError;
use crate::gfx::{gfx_processed, Handler};
use crate::reassembly::CompleteData;
use crate::wire::{le16, le32, read_u16_le, read_u32_le};

verus! {

pub const DVC_CMD_CREATE: u8 = 0x01;
pub const DVC_CMD_DATA_FIRST: u8 = 0x02;
pub const DVC_CMD_DATA: u8 = 0x03;
pub const DVC_CMD_CLOSE: u8 = 0x04;
pub const DVC_CMD_CAPABILITIES: u8 = 0x05;
pub const DVC_CREATION_STATUS_OK: u32 = 0;
pub const DVC_CREATION_STATUS_NO_LISTENER: u32 = 0xC000_0001;
pub const DVC_CAPS_VERSION_1: u16 = 1;

/// How a channel id or a length is serialized: in one, two or four bytes.
#[derive(Clone, Copy, Debug, PartialEq, Eq, Structural)]
pub enum FieldType {
    U8,
    U16,
    U32,
}

pub open spec fn spec_field_type(bits: int) -> Option<FieldType> {
    if bits == 0 {
        Some(FieldType::U8)
    } else if bits == 1 {
        Some(FieldType::U16)
    } else if bits == 2 {
        Some(FieldType::U32)
    } else {
        None
    }
}

pub open spec fn field_size(t: FieldType) -> int {
    match t {
        FieldType::U8 => 1,
        FieldType::U16 => 2,
        FieldType::U32 => 4,
    }
}

pub open spec fn field_code(t: FieldType) -> u8 {
    match t {
        FieldType::U8 => 0,
        FieldType::U16 => 1,
        FieldType::U32 => 2,
    }
}

/// The value of a field of type `t` at `pos`.
pub open spec fn field_value(b: Seq<u8>, pos: int, t: FieldType) -> int {
    match t {
        FieldType::U8 => b[pos] as int,
        FieldType::U16 => le16(b, pos),
        FieldType::U32 => le32(b, pos),
    }
}

/// The bytes of `v` as a field of type `t`.
pub open spec fn field_bytes(v: u32, t: FieldType) -> Seq<u8> {
    match t {
        FieldType::U8 => seq![(v % 256) as u8],
        FieldType::U16 => seq![(v % 256) as u8, ((v / 256) % 256) as u8],
        FieldType::U32 => seq![
            (v % 256) as u8,
            ((v / 256) % 256) as u8,
            ((v / 65536) % 256) as u8,
            (v / 16777216) as u8,
        ],
    }
}

fn field_type_of(bits: u8) -> (r: Result<FieldType, RdpError>)
    ensures
        r matches Err(e) ==> e == RdpError::DvcError,
        match spec_field_type(bits as int) {
            Some(t) => r == Ok::<FieldType, RdpError>(t),
            None => r.is_err(),
        },
{
    if bits == 0 {
        Ok(FieldType::U8)
    } else if bits == 1 {
        Ok(FieldType::U16)
    } else if bits == 2 {
        Ok(FieldType::U32)
    } else {
        Err(RdpError::DvcError)
    }
}

fn read_field(b: &[u8], pos: usize, t: FieldType) -> (r: Result<(u32, usize), RdpError>)
    ensures
        r matches Err(e) ==> e == RdpError::DvcError,
        r.is_ok() <==> pos + field_size(t) <= b@.len(),
        r.is_ok() ==> r.unwrap().0 == field_value(b@, pos as int, t) && r.unwrap().1 == pos
            + field_size(t),
{
    let n = b.len();
    let size: usize = match t {
        FieldType::U8 => 1,
        FieldType::U16 => 2,
        FieldType::U32 => 4,
    };
    if pos > n || n - pos < size {
        return Err(RdpError::DvcError);
    }
    let v = match t {
        FieldType::U8 => b[pos] as u32,
        FieldType::U16 => read_u16_le(b, pos) as u32,
        FieldType::U32 => read_u32_le(b, pos),
    };
    Ok((v, pos + size))
}

fn push_field(out: &mut Vec<u8>, v: u32, t: FieldType)
    ensures
        final(out)@ == old(out)@ + field_bytes(v, t),
{
    match t {
        FieldType::U8 => {
            out.push((v % 256) as u8);
        },
        FieldType::U16 => {
            out.push((v % 256) as u8);
            out.push(((v / 256) % 256) as u8);
        },
        FieldType::U32 => {
            out.push((v % 256) as u8);
            out.push(((v / 256) % 256) as u8);
            out.push(((v / 65536) % 256) as u8);
            out.push((v / 16777216) as u8);
        },
    }
    assert(out@ =~= old(out)@ + field_bytes(v, t));
}

/// The dynamic virtual channel PDUs that the server sends.
#[derive(Clone, Debug, PartialEq, Eq)]
pub enum ServerPdu {
    CapabilitiesRequest { version: u16 },
    CreateRequest { channel_id_type: FieldType, channel_id: u32, channel_name: Vec<u8> },
    DataFirst { channel_id_type: FieldType, channel_id: u32, total_data_size: u32, data: Vec<u8> },
    Data { channel_id_type: FieldType, channel_id: u32, data: Vec<u8> },
    CloseRequest { channel_id_type: FieldType, channel_id: u32 },
}

/// The bytes from `pos` up to (not including) the first zero, or to the end.
pub open spec fn cstr(b: Seq<u8>, pos: int) -> Seq<u8>
    decreases b.len() - pos,
{
    if pos < 0 || pos >= b.len() || b[pos] == 0 {
        Seq::empty()
    } else {
        seq![b[pos]] + cstr(b, pos + 1)
    }
}

/// A server DVC PDU as values.
pub enum DvcPdu {
    Caps { version: u16 },
    Create { t: FieldType, id: u32, name: Seq<u8> },
    DataFirst { t: FieldType, id: u32, total: u32, data: Seq<u8> },
    Data { t: FieldType, id: u32, data: Seq<u8> },
    Close { t: FieldType, id: u32 },
}

pub open spec fn pdu_view(p: ServerPdu) -> DvcPdu {
    match p {
        ServerPdu::CapabilitiesRequest { version } => DvcPdu::Caps { version },
        ServerPdu::CreateRequest { channel_id_type, channel_id, channel_name } => DvcPdu::Create {
            t: channel_id_type,
            id: channel_id,
            name: channel_name@,
        },
        ServerPdu::DataFirst { channel_id_type, channel_id, total_data_size, data } => DvcPdu::DataFirst {
            t: channel_id_type,
            id: channel_id,
            total: total_data_size,
            data: data@,
        },
        ServerPdu::Data { channel_id_type, channel_id, data } => DvcPdu::Data {
            t: channel_id_type,
            id: channel_id,
            data: data@,
        },
        ServerPdu::CloseRequest { channel_id_type, channel_id } => DvcPdu::Close { t: channel_id_type, id: channel_id },
    }
}

/// The server DVC PDU that `b` holds, if it is well formed.
pub open spec fn spec_server_pdu(b: Seq<u8>) -> Option<DvcPdu> {
    if b.len() == 0 {
        None
    } else if b[0] / 16 == DVC_CMD_CAPABILITIES {
        if b.len() >= 4 { Some(DvcPdu::Caps { version: le16(b, 2) as u16 }) } else { None }
    } else {
        match spec_field_type((b[0] % 4) as int) {
            None => None,
            Some(t) => if 1 + field_size(t) > b.len() {
                None
            } else {
                let id = field_value(b, 1, t) as u32;
                let p = 1 + field_size(t);
                if b[0] / 16 == DVC_CMD_CREATE {
                    Some(DvcPdu::Create { t, id, name: cstr(b, p) })
                } else if b[0] / 16 == DVC_CMD_DATA_FIRST {
                    match spec_field_type(((b[0] / 4) % 4) as int) {
                        None => None,
                        Some(lt) => if p + field_size(lt) > b.len() {
                            None
                        } else {
                            Some(DvcPdu::DataFirst {
                                t,
                                id,
                                total: field_value(b, p, lt) as u32,
                                data: b.subrange(p + field_size(lt), b.len() as int),
                            })
                        },
                    }
                } else if b[0] / 16 == DVC_CMD_DATA {
                    Some(DvcPdu::Data { t, id, data: b.subrange(p, b.len() as int) })
                } else if b[0] / 16 == DVC_CMD_CLOSE {
                    Some(DvcPdu::Close { t, id })
                } else {
                    None
                }
            },
        }
    }
}

/// Bytes from `pos` up to (not including) the first zero, or to the end.
fn read_name(b: &[u8], pos: usize) -> (r: Vec<u8>)
    requires
        pos <= b@.len(),
    ensures
        r@ == cstr(b@, pos as int),
{
    let mut name: Vec<u8> = Vec::new();
    let mut i = pos;
    while i < b.len() && b[i] != 0
        invariant
            pos <= i <= b@.len(),
            name@.len() == i - pos,
            cstr(b@, pos as int) == name@ + cstr(b@, i as int),
        decreases b@.len() - i,
    {
        let ghost before = name@;
        name.push(b[i]);
        assert(before + cstr(b@, i as int) =~= name@ + cstr(b@, i + 1));
        i += 1;
    }
    assert(name@ + cstr(b@, i as int) =~= name@);
    name
}

/// Parses a dynamic virtual channel PDU from the server. The header byte holds
/// the command in its high four bits, the length field type in bits 2-3 and the
/// channel id field type in bits 0-1.
pub fn parse_server_pdu(b: &[u8]) -> (r: Result<ServerPdu, RdpError>)
    ensures
        r.is_ok() <==> spec_server_pdu(b@) is Some,
        r matches Ok(p) ==> Some(pdu_view(p)) == spec_server_pdu(b@),
        b@.len() == 0 ==> r.is_err(),
        r matches Err(e) ==> e == RdpError::DvcError,
        r matches Ok(ServerPdu::DataFirst { channel_id_type, channel_id, total_data_size, data }) ==> {
            let lt = spec_field_type(((b@[0] / 4) % 4) as int).unwrap();
            &&& b@[0] / 16 == DVC_CMD_DATA_FIRST
            &&& Some(channel_id_type) == spec_field_type((b@[0] % 4) as int)
            &&& channel_id == field_value(b@, 1, channel_id_type)
            &&& total_data_size == field_value(b@, 1 + field_size(channel_id_type), lt)
            &&& data@ == b@.subrange(1 + field_size(channel_id_type) + field_size(lt), b@.len() as int)
        },
        r matches Ok(ServerPdu::Data { channel_id_type, channel_id, data }) ==> {
            &&& b@[0] / 16 == DVC_CMD_DATA
            &&& Some(channel_id_type) == spec_field_type((b@[0] % 4) as int)
            &&& channel_id == field_value(b@, 1, channel_id_type)
            &&& data@ == b@.subrange(1 + field_size(channel_id_type), b@.len() as int)
        },
        r matches Ok(ServerPdu::CreateRequest { channel_id_type, channel_id, channel_name }) ==> {
            &&& b@[0] / 16 == DVC_CMD_CREATE
            &&& Some(channel_id_type) == spec_field_type((b@[0] % 4) as int)
            &&& channel_id == field_value(b@, 1, channel_id_type)
        },
        r matches Ok(ServerPdu::CloseRequest { channel_id_type, channel_id }) ==> {
            &&& b@[0] / 16 == DVC_CMD_CLOSE
            &&& Some(channel_id_type) == spec_field_type((b@[0] % 4) as int)
            &&& channel_id == field_value(b@, 1, channel_id_type)
        },
        r matches Ok(ServerPdu::CapabilitiesRequest { version }) ==> b@[0] / 16 == DVC_CMD_CAPABILITIES
            && b@.len() >= 4 && version == le16(b@, 2),
{
    let n = b.len();
    if n < 1 {
        return Err(RdpError::DvcError);
    }
    let header = b[0];
    let cmd = header / 16;
    if cmd == DVC_CMD_CAPABILITIES {
        if n < 4 {
            return Err(RdpError::DvcError);
        }
        return Ok(ServerPdu::CapabilitiesRequest { version: read_u16_le(b, 2) });
    }
    let channel_id_type = field_type_of(header % 4)?;
    let (channel_id, pos) = read_field(b, 1, channel_id_type)?;
    if cmd == DVC_CMD_CREATE {
        let channel_name = read_name(b, pos);
        Ok(ServerPdu::CreateRequest { channel_id_type, channel_id, channel_name })
    } else if cmd == DVC_CMD_DATA_FIRST {
        let length_type = field_type_of((header / 4) % 4)?;
        let (total_data_size, start) = read_field(b, pos, length_type)?;
        let data = vstd::slice::slice_to_vec(&b[start..n]);
        Ok(ServerPdu::DataFirst { channel_id_type, channel_id, total_data_size, data })
    } else if cmd == DVC_CMD_DATA {
        let data = vstd::slice::slice_to_vec(&b[pos..n]);
        Ok(ServerPdu::Data { channel_id_type, channel_id, data })
    } else if cmd == DVC_CMD_CLOSE {
        Ok(ServerPdu::CloseRequest { channel_id_type, channel_id })
    } else {
        Err(RdpError::DvcError)
    }
}

/// The Capabilities Response PDU, version 1.
pub open spec fn spec_capabilities_response() -> Seq<u8> {
    seq![0x50u8, 0u8, 1u8, 0u8]
}

pub fn encode_capabilities_response() -> (r: Vec<u8>)
    ensures
        r@ == spec_capabilities_response(),
{
    let mut out: Vec<u8> = Vec::new();
    out.push(DVC_CMD_CAPABILITIES * 16);
    out.push(0);
    out.push(1);
    out.push(0);
    assert(out@ =~= spec_capabilities_response());
    out
}

pub open spec fn spec_create_response(t: FieldType, channel_id: u32, status: u32) -> Seq<u8> {
    seq![(DVC_CMD_CREATE * 16 + field_code(t)) as u8] + field_bytes(channel_id, t) + field_bytes(
        status,
        FieldType::U32,
    )
}

pub fn encode_create_response(t: FieldType, channel_id: u32, status: u32) -> (r: Vec<u8>)
    ensures
        r@ == spec_create_response(t, channel_id, status),
{
    let mut out: Vec<u8> = Vec::new();
    let code: u8 = match t {
        FieldType::U8 => 0,
        FieldType::U16 => 1,
        FieldType::U32 => 2,
    };
    out.push(DVC_CMD_CREATE * 16 + code);
    push_field(&mut out, channel_id, t);
    push_field(&mut out, status, FieldType::U32);
    assert(out@ =~= spec_create_response(t, channel_id, status));
    out
}

pub open spec fn spec_close_response(t: FieldType, channel_id: u32) -> Seq<u8> {
    seq![(DVC_CMD_CLOSE * 16 + field_code(t)) as u8] + field_bytes(channel_id, t)
}

pub fn encode_close_response(t: FieldType, channel_id: u32) -> (r: Vec<u8>)
    ensures
        r@ == spec_close_response(t, channel_id),
{
    let mut out: Vec<u8> = Vec::new();
    let code: u8 = match t {
        FieldType::U8 => 0,
        FieldType::U16 => 1,
        FieldType::U32 => 2,
    };
    out.push(DVC_CMD_CLOSE * 16 + code);
    push_field(&mut out, channel_id, t);
    assert(out@ =~= spec_close_response(t, channel_id));
    out
}

pub open spec fn spec_data_pdu(t: FieldType, channel_id: u32, data: Seq<u8>) -> Seq<u8> {
    seq![(DVC_CMD_DATA * 16 + field_code(t)) as u8] + field_bytes(channel_id, t) + data
}

/// A client Data PDU carrying `data` on the channel.
pub fn encode_data_pdu(t: FieldType, channel_id: u32, data: &[u8]) -> (r: Vec<u8>)
    ensures
        r@ == spec_data_pdu(t, channel_id, data@),
{
    let mut out: Vec<u8> = Vec::new();
    let code: u8 = match t {
        FieldType::U8 => 0,
        FieldType::U16 => 1,
        FieldType::U32 => 2,
    };
    out.push(DVC_CMD_DATA * 16 + code);
    push_field(&mut out, channel_id, t);
    let ghost head = out@;
    let mut i: usize = 0;
    while i < data.len()
        invariant
            i <= data@.len(),
            out@ == head + data@.subrange(0, i as int),
        decreases data@.len() - i,
    {
        out.push(data[i]);
        i += 1;
        assert(data@.subrange(0, i as int) == data@.subrange(0, i - 1).push(data@[i - 1]));
    }
    assert(data@.subrange(0, data@.len() as int) =~= data@);
    out
}

/// What a dynamic channel does with each reassembled message.
pub enum ChannelHandler {
    /// The graphics pipeline.
    Graphics(Handler),
    /// Display control: messages are consumed without reply.
    Display,
}

/// What a handler does with one complete message: display control consumes
/// it without reply; the graphics pipeline handles it as `gfx_processed` says.
pub open spec fn handled(old: ChannelHandler, new: ChannelHandler, msg: Seq<u8>, r: Result<Option<Vec<u8>>, RdpError>) -> bool {
    &&& r matches Err(e) ==> e == RdpError::GfxError || e == RdpError::ZgfxError
    &&& match old {
        ChannelHandler::Display => r == Ok::<Option<Vec<u8>>, RdpError>(None) && new is Display,
        ChannelHandler::Graphics(h) => match new {
            ChannelHandler::Graphics(h2) => gfx_processed(h, h2, msg, r),
            ChannelHandler::Display => false,
        },
    }
}

impl ChannelHandler {
    pub fn process_complete_data(&mut self, complete_data: Vec<u8>) -> (r: Result<Option<Vec<u8>>, RdpError>)
        ensures
            handled(*old(self), *final(self), complete_data@, r),
    {
        match self {
            ChannelHandler::Graphics(h) => h.process_complete_data(complete_data),
            ChannelHandler::Display => Ok(None),
        }
    }
}

/// What taking a DataFirst fragment does to a channel and returns.
pub open spec fn first_done(old: DynamicChannel, new: DynamicChannel, total: int, data: Seq<u8>, r: Result<Option<Vec<u8>>, RdpError>) -> bool {
    &&& new.spec_channel_id() == old.spec_channel_id()
    &&& new.spec_channel_id_type() == old.spec_channel_id_type()
    &&& new.spec_data().wf()
    &&& data.len() < total ==> r == Ok::<Option<Vec<u8>>, RdpError>(None) && new.spec_data().total() == total
        && new.spec_data().buffered() == data && new.spec_handler() == old.spec_handler()
    &&& data.len() > total ==> r == Ok::<Option<Vec<u8>>, RdpError>(None) && new.spec_data().is_idle()
        && new.spec_handler() == old.spec_handler()
    &&& data.len() == total ==> new.spec_data().is_idle() && handled(old.spec_handler(), new.spec_handler(), data, r)
}

/// What taking a Data fragment does to a channel and returns.
pub open spec fn data_done(old: DynamicChannel, new: DynamicChannel, data: Seq<u8>, r: Result<Option<Vec<u8>>, RdpError>) -> bool {
    let d = old.spec_data();
    let n = d.buffered().len() + data.len();
    &&& new.spec_channel_id() == old.spec_channel_id()
    &&& new.spec_channel_id_type() == old.spec_channel_id_type()
    &&& new.spec_data().wf()
    &&& d.is_idle() ==> new.spec_data() == d && handled(old.spec_handler(), new.spec_handler(), data, r)
    &&& !d.is_idle() && n == d.total() ==> new.spec_data().is_idle() && handled(
        old.spec_handler(),
        new.spec_handler(),
        d.buffered() + data,
        r,
    )
    &&& !d.is_idle() && n < d.total() ==> r == Ok::<Option<Vec<u8>>, RdpError>(None) && new.spec_handler()
        == old.spec_handler() && new.spec_data().total() == d.total() && new.spec_data().buffered() == d.buffered()
        + data
    &&& !d.is_idle() && n > d.total() ==> r == Ok::<Option<Vec<u8>>, RdpError>(None) && new.spec_handler()
        == old.spec_handler() && new.spec_data().is_idle()
}

/// An open dynamic channel.
pub struct DynamicChannel {
    data: CompleteData,
    channel_id_type: FieldType,
    channel_id: u32,
    handler: ChannelHandler,
}

impl DynamicChannel {
    pub closed spec fn spec_channel_id(&self) -> u32 {
        self.channel_id
    }

    pub closed spec fn spec_channel_id_type(&self) -> FieldType {
        self.channel_id_type
    }

    /// The reassembler of the channel's fragmented messages.
    pub closed spec fn spec_data(&self) -> CompleteData {
        self.data
    }

    pub closed spec fn spec_handler(&self) -> ChannelHandler {
        self.handler
    }

    pub fn new(handler: ChannelHandler, channel_id: u32, channel_id_type: FieldType) -> (r: Self)
        ensures
            r.spec_channel_id() == channel_id,
            r.spec_channel_id_type() == channel_id_type,
            r.spec_data().is_idle(),
            r.spec_handler() == handler,
    {
        DynamicChannel { data: CompleteData::new(), handler, channel_id_type, channel_id }
    }

    pub fn channel_id(&self) -> (r: u32)
        ensures
            r == self.spec_channel_id(),
    {
        self.channel_id
    }

    pub fn channel_id_type(&self) -> (r: FieldType)
        ensures
            r == self.spec_channel_id_type(),
    {
        self.channel_id_type
    }

    /// Takes a DataFirst fragment; a complete message goes to the handler.
    pub fn process_data_first_pdu(&mut self, total_data_size: usize, data: Vec<u8>) -> (r: Result<
        Option<Vec<u8>>,
        RdpError,
    >)
        ensures
            first_done(*old(self), *final(self), total_data_size as int, data@, r),
    {
        match self.data.process_data_first_pdu(total_data_size, data) {
            Some(complete) => self.handler.process_complete_data(complete),
            None => Ok(None),
        }
    }

    /// Takes a Data fragment; a complete message goes to the handler.
    pub fn process_data_pdu(&mut self, data: Vec<u8>) -> (r: Result<Option<Vec<u8>>, RdpError>)
        ensures
            data_done(*old(self), *final(self), data@, r),
    {
        match self.data.process_data_pdu(data) {
            Some(complete) => self.handler.process_complete_data(complete),
            None => Ok(None),
        }
    }
}

} // verus!
