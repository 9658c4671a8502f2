//! The layered transport: X.224 data, MCS, Send Data context, Share Control
//! and Share Data, each decoding from and encoding to bytes.
use vstd::prelude::*;
use crate::error::RdpError;
use crate::framing::{lemma_parse_encode_frame_with_rest, encode_frame, frame_payload, parse_frame, spec_encode_frame, spec_parse_frame, Action};
use crate::mcs::{
    encode_send_data_request, encode_x224_data, parse_mcs, parse_x224_data, spec_send_data_request_header,
    x224_data_header, McsPdu, MCS_BASE_CHANNEL_ID, MCS_DISCONNECT_PROVIDER_ULTIMATUM,
    MCS_SEND_DATA_INDICATION,
};
use crate::share::{encode_share_data, parse_share_data, share_data_error, share_data_ok, spec_share_data_header, ShareDataPdu};
use crate::wire::le32;
use crate::mcs::{spec_mcs, SendDataContext};

verus! {

/// Encodes items of one layer into the bytes of the layer below.
pub trait Encoder {
    type Item;

    fn encode(&mut self, item: Self::Item) -> Result<Vec<u8>, RdpError>;
}

/// Decodes items of one layer from the bytes of the layer below.
pub trait Decoder {
    type Item;

    fn decode(&mut self, input: &[u8]) -> Result<Self::Item, RdpError>;
}

/// Where a transport is in its decode / encode cycle.
#[derive(Clone, Copy, Debug, PartialEq, Eq, Structural)]
pub enum TransportState {
    ToDecode,
    Decoded,
}

/// The initiator and channel of a Send Data PDU.
#[derive(Clone, Copy, Debug, PartialEq, Eq, Structural)]
pub struct ChannelIdentificators {
    pub initiator_id: u16,
    pub channel_id: u16,
}

/// The user data of the X.224 Data TPDU framed at the start of `frame`, if any.
pub open spec fn frame_user(frame: Seq<u8>) -> Option<Seq<u8>> {
    let p = frame_payload(frame);
    if spec_parse_frame(frame) matches Ok((Action::X224, _)) && p.len() >= 3 && p.subrange(0, 3) == x224_data_header() {
        Some(p.subrange(3, p.len() as int))
    } else {
        None
    }
}

/// The Send Data Indication framed at the start of `frame`: its addressing
/// and user data.
pub open spec fn frame_indication(frame: Seq<u8>) -> Option<(SendDataContext, Seq<u8>)> {
    match frame_user(frame) {
        Some(u) => match spec_mcs(u) {
            Some((McsPdu::SendDataIndication(c), s)) => Some((c, u.subrange(s, u.len() as int))),
            _ => None,
        },
        None => None,
    }
}

/// The X.224 Data TPDU layer.
#[derive(Clone, Copy, Debug)]
pub struct DataTransport {}

impl DataTransport {
    pub fn new() -> (r: Self) {
        DataTransport {}
    }

    /// Nothing of the decoded length is kept: the TPKT header gives it.
    pub fn set_decoded_context(&mut self, _data_length: usize) {
    }

    /// Frames `data` as an X.224 Data TPDU in a TPKT packet.
    pub fn encode_data(&self, data: &[u8]) -> (r: Result<Vec<u8>, RdpError>)
        ensures
            r.is_ok() <==> data@.len() + 7 <= 0xFFFF,
            r matches Ok(v) ==> v@ == spec_encode_frame(Action::X224, x224_data_header() + data@),
    {
        if data.len() > 0xFFFF - 7 {
            return Err(RdpError::InvalidLength);
        }
        Ok(encode_x224_data(data))
    }

    /// The user data of the X.224 Data TPDU framed at the start of `frame`.
    pub fn decode_data(&self, frame: &[u8]) -> (r: Result<Vec<u8>, RdpError>)
        ensures
            r matches Ok(v) ==> (spec_parse_frame(frame@) matches Ok((Action::X224, p)) && p.len() >= 3 && v@
                == p.subrange(3, p.len() as int)),
            spec_parse_frame(frame@) matches Ok((Action::X224, _)) && frame_payload(frame@).len() >= 3
                && frame_payload(frame@).subrange(0, 3) == x224_data_header() ==> r is Ok,
            r.is_ok() <==> frame_user(frame@) is Some,
            r matches Ok(v) ==> v@ == frame_user(frame@).unwrap(),
    {
        let (action, payload) = parse_frame(frame)?;
        match action {
            Action::X224 => parse_x224_data(payload.as_slice()),
            Action::FastPath => Err(RdpError::UnexpectedPdu),
        }
    }
}

impl Encoder for DataTransport {
    type Item = Vec<u8>;

    fn encode(&mut self, item: Vec<u8>) -> Result<Vec<u8>, RdpError> {
        self.encode_data(item.as_slice())
    }
}

impl Decoder for DataTransport {
    type Item = Vec<u8>;

    fn decode(&mut self, input: &[u8]) -> Result<Vec<u8>, RdpError> {
        self.decode_data(input)
    }
}

/// The MCS layer, over the X.224 layer.
#[derive(Clone, Copy, Debug)]
pub struct McsTransport(pub DataTransport);

impl McsTransport {
    pub fn new(transport: DataTransport) -> (r: Self) {
        McsTransport(transport)
    }

    /// The bytes of an MCS Send Data Request followed by `extra_data`; its
    /// announced length must be that of the extra data. No other MCS PDU is
    /// sent in the active stage.
    pub fn prepare_data_to_encode(mcs_pdu: McsPdu, extra_data: Option<Vec<u8>>) -> (r: Result<Vec<u8>, RdpError>)
        ensures
            (mcs_pdu matches McsPdu::SendDataRequest(c) && c.initiator_id >= MCS_BASE_CHANNEL_ID && (match extra_data {
                Some(d) => d@.len() == c.pdu_length && d@.len() < 0x8000,
                None => c.pdu_length == 0,
            })) <==> r.is_ok(),
            r matches Err(e) ==> e == RdpError::McsError,
            r matches Ok(v) ==> (mcs_pdu matches McsPdu::SendDataRequest(c) && v@ == spec_send_data_request_header(
                c.initiator_id,
                c.channel_id,
                c.pdu_length as int,
            ) + match extra_data {
                Some(d) => d@,
                None => Seq::empty(),
            }),
    {
        let ctx = match mcs_pdu {
            McsPdu::SendDataRequest(c) => c,
            _ => return Err(RdpError::McsError),
        };
        let data = match extra_data {
            Some(d) => d,
            None => Vec::new(),
        };
        if ctx.initiator_id < MCS_BASE_CHANNEL_ID || data.len() != ctx.pdu_length || data.len() >= 0x8000 {
            return Err(RdpError::McsError);
        }
        Ok(encode_send_data_request(ctx.initiator_id, ctx.channel_id, data.as_slice()))
    }

    /// The MCS PDU framed at the start of `frame`, with its user data if any.
    pub fn decode_mcs(&self, frame: &[u8]) -> (r: Result<(McsPdu, Option<Vec<u8>>), RdpError>)
        ensures
            r matches Ok((pdu, _)) ==> (spec_parse_frame(frame@) matches Ok((Action::X224, p)) && p.len() >= 4 && (
            pdu is SendDataIndication ==> p[3] / 4 == MCS_SEND_DATA_INDICATION) && (pdu is DisconnectProviderUltimatum
                ==> p[3] / 4 == MCS_DISCONNECT_PROVIDER_ULTIMATUM)),
            ({
                let p = frame_payload(frame@);
                spec_parse_frame(frame@) matches Ok((Action::X224, _)) && p.len() >= 5 && p.subrange(0, 3)
                    == x224_data_header() && p[3] / 4 == MCS_DISCONNECT_PROVIDER_ULTIMATUM ==> (r matches Ok((pdu, _))
                    && pdu == McsPdu::DisconnectProviderUltimatum(((p[3] % 4) * 2 + p[4] / 128) as u8))
            }),
            r.is_ok() <==> frame_user(frame@) is Some && spec_mcs(frame_user(frame@).unwrap()) is Some,
            frame_user(frame@) is Some ==> (r matches Err(e) ==> e == RdpError::McsError),
            r matches Ok((pdu, d)) ==> {
                let u = frame_user(frame@).unwrap();
                let (p, s) = spec_mcs(u).unwrap();
                &&& pdu == p
                &&& s < u.len() ==> d is Some && d.unwrap()@ == u.subrange(s, u.len() as int)
                &&& s >= u.len() ==> d is None
            },
    {
        let user = self.0.decode_data(frame)?;
        proof {
            if let Ok((Action::X224, p)) = spec_parse_frame(frame@) {
                if p.len() >= 4 {
                    assert(user@[0] == p[3]);
                }
                if p.len() >= 5 {
                    assert(user@[1] == p[4]);
                }
            }
        }
        let (pdu, start) = parse_mcs(user.as_slice())?;
        let n = user.len();
        if start < n {
            Ok((pdu, Some(vstd::slice::slice_to_vec(&user.as_slice()[start..n]))))
        } else {
            Ok((pdu, None))
        }
    }
}

impl Encoder for McsTransport {
    type Item = Vec<u8>;

    fn encode(&mut self, item: Vec<u8>) -> Result<Vec<u8>, RdpError> {
        self.0.encode_data(item.as_slice())
    }
}

impl Decoder for McsTransport {
    type Item = (McsPdu, Option<Vec<u8>>);

    fn decode(&mut self, input: &[u8]) -> Result<(McsPdu, Option<Vec<u8>>), RdpError> {
        self.decode_mcs(input)
    }
}

/// The Send Data layer: remembers the last decoded initiator and channel so
/// that replies go back with them.
#[derive(Clone, Copy, Debug)]
pub struct SendDataContextTransport {
    pub mcs_transport: McsTransport,
    channel_ids: ChannelIdentificators,
}

impl SendDataContextTransport {
    pub closed spec fn spec_channel_ids(&self) -> ChannelIdentificators {
        self.channel_ids
    }

    pub fn new(mcs_transport: McsTransport, initiator_id: u16, channel_id: u16) -> (r: Self)
        ensures
            r.spec_channel_ids() == (ChannelIdentificators { initiator_id, channel_id }),
    {
        SendDataContextTransport { mcs_transport, channel_ids: ChannelIdentificators { initiator_id, channel_id } }
    }

    pub fn set_channel_ids(&mut self, channel_ids: ChannelIdentificators)
        ensures
            final(self).spec_channel_ids() == channel_ids,
    {
        self.channel_ids = channel_ids;
    }

    pub fn set_decoded_context(&mut self, channel_ids: ChannelIdentificators)
        ensures
            final(self).spec_channel_ids() == channel_ids,
    {
        self.set_channel_ids(channel_ids);
    }

    /// A framed Send Data Request carrying `data` with the stored addressing.
    pub fn encode_send_data(&self, data: &[u8]) -> (r: Result<Vec<u8>, RdpError>)
        ensures
            r.is_ok() <==> self.spec_channel_ids().initiator_id >= MCS_BASE_CHANNEL_ID && data@.len() + 16
                <= 0x7FFF,
            r matches Ok(v) ==> v@ == spec_encode_frame(
                Action::X224,
                x224_data_header() + spec_send_data_request_header(
                    self.spec_channel_ids().initiator_id,
                    self.spec_channel_ids().channel_id,
                    data@.len() as int,
                ) + data@,
            ),
    {
        if self.channel_ids.initiator_id < MCS_BASE_CHANNEL_ID || data.len() > 0x7FFF - 16 {
            return Err(RdpError::InvalidLength);
        }
        let mcs = encode_send_data_request(self.channel_ids.initiator_id, self.channel_ids.channel_id, data);
        let r = encode_x224_data(mcs.as_slice());
        assert(x224_data_header() + (spec_send_data_request_header(
            self.channel_ids.initiator_id,
            self.channel_ids.channel_id,
            data@.len() as int,
        ) + data@) =~= x224_data_header() + spec_send_data_request_header(
            self.channel_ids.initiator_id,
            self.channel_ids.channel_id,
            data@.len() as int,
        ) + data@);
        Ok(r)
    }

    /// The addressing and user data of the Send Data Indication framed in
    /// `frame`. A Disconnect Provider Ultimatum is reported as an unexpected
    /// disconnection; any other MCS PDU is unexpected.
    pub fn decode_send_data(&self, frame: &[u8]) -> (r: Result<(ChannelIdentificators, Option<Vec<u8>>), RdpError>)
        ensures
            r is Ok ==> (spec_parse_frame(frame@) matches Ok((Action::X224, p)) && p.len() >= 4 && p[3] / 4
                == MCS_SEND_DATA_INDICATION),
            ({
                let p = frame_payload(frame@);
                spec_parse_frame(frame@) matches Ok((Action::X224, _)) && p.len() >= 5 && p.subrange(0, 3)
                    == x224_data_header() && p[3] / 4 == MCS_DISCONNECT_PROVIDER_ULTIMATUM ==> r == Err::<
                    (ChannelIdentificators, Option<Vec<u8>>),
                    RdpError,
                >(RdpError::UnexpectedDisconnection(((p[3] % 4) * 2 + p[4] / 128) as u8))
            }),
            r.is_ok() <==> frame_indication(frame@) is Some,
            ({
                match frame_user(frame@) {
                    Some(u) => match spec_mcs(u) {
                        Some((McsPdu::DisconnectProviderUltimatum(reason), _)) => r == Err::<
                            (ChannelIdentificators, Option<Vec<u8>>),
                            RdpError,
                        >(RdpError::UnexpectedDisconnection(reason)),
                        Some((McsPdu::SendDataIndication(_), _)) => r is Ok,
                        Some(_) => r == Err::<(ChannelIdentificators, Option<Vec<u8>>), RdpError>(
                            RdpError::UnexpectedPdu,
                        ),
                        None => r == Err::<(ChannelIdentificators, Option<Vec<u8>>), RdpError>(RdpError::McsError),
                    },
                    None => r is Err,
                }
            }),
            r matches Ok((ids, d)) ==> {
                let (c, data) = frame_indication(frame@).unwrap();
                &&& ids.channel_id == c.channel_id && ids.initiator_id == c.initiator_id
                &&& data.len() > 0 ==> d is Some && d.unwrap()@ == data
                &&& data.len() == 0 ==> d is None
            },
    {
        let (pdu, data) = self.mcs_transport.decode_mcs(frame)?;
        match pdu {
            McsPdu::SendDataIndication(c) => Ok(
                (ChannelIdentificators { initiator_id: c.initiator_id, channel_id: c.channel_id }, data),
            ),
            McsPdu::DisconnectProviderUltimatum(reason) => Err(RdpError::UnexpectedDisconnection(reason)),
            _ => Err(RdpError::UnexpectedPdu),
        }
    }
}

impl Encoder for SendDataContextTransport {
    type Item = Vec<u8>;

    fn encode(&mut self, item: Vec<u8>) -> Result<Vec<u8>, RdpError> {
        self.encode_send_data(item.as_slice())
    }
}

impl Decoder for SendDataContextTransport {
    type Item = (ChannelIdentificators, Option<Vec<u8>>);

    fn decode(&mut self, input: &[u8]) -> Result<(ChannelIdentificators, Option<Vec<u8>>), RdpError> {
        self.decode_send_data(input)
    }
}

/// The Share Control layer of the global channel: captures the share id on
/// decode so that the encoder echoes it.
pub struct ShareControlHeaderTransport {
    global_channel_id: u16,
    share_id: u32,
    pdu_source: u16,
    send_data_context_transport: SendDataContextTransport,
}

impl ShareControlHeaderTransport {
    pub closed spec fn spec_share_id(&self) -> u32 {
        self.share_id
    }

    pub closed spec fn spec_pdu_source(&self) -> u16 {
        self.pdu_source
    }

    pub closed spec fn spec_global_id(&self) -> u16 {
        self.global_channel_id
    }

    pub closed spec fn spec_channel_ids(&self) -> ChannelIdentificators {
        self.send_data_context_transport.spec_channel_ids()
    }

    pub fn new(send_data_context_transport: SendDataContextTransport, pdu_source: u16, global_channel_id: u16) -> (r: Self)
        ensures
            r.spec_share_id() == 0,
            r.spec_pdu_source() == pdu_source,
            r.spec_global_id() == global_channel_id,
            r.spec_channel_ids() == send_data_context_transport.spec_channel_ids(),
    {
        ShareControlHeaderTransport { global_channel_id, send_data_context_transport, pdu_source, share_id: 0 }
    }
}

/// The Share Data layer of the global channel.
pub struct ShareDataHeaderTransport(ShareControlHeaderTransport);

impl ShareDataHeaderTransport {
    pub closed spec fn spec_share_id(&self) -> u32 {
        self.0.spec_share_id()
    }

    pub closed spec fn spec_global_channel_id(&self) -> u16 {
        self.0.global_channel_id
    }

    pub closed spec fn spec_pdu_source(&self) -> u16 {
        self.0.pdu_source
    }

    pub closed spec fn spec_channel_ids(&self) -> ChannelIdentificators {
        self.0.spec_channel_ids()
    }

    pub fn new(transport: ShareControlHeaderTransport) -> (r: Self)
        ensures
            r.spec_share_id() == transport.spec_share_id(),
    {
        ShareDataHeaderTransport(transport)
    }

    pub fn share_id(&self) -> (r: u32)
        ensures
            r == self.spec_share_id(),
    {
        self.0.share_id
    }

    /// A framed Share Data PDU of type `pdu_type2` carrying `data`.
    pub fn encode_share_data(&self, pdu_type2: u8, data: &[u8]) -> (r: Result<Vec<u8>, RdpError>)
        ensures
            ({
                let ids = self.spec_channel_ids();
                let pdu = spec_share_data_header(self.spec_pdu_source(), self.spec_share_id(), pdu_type2, data@.len() as int)
                    + data@;
                &&& r.is_ok() <==> data@.len() <= 0x7FFF - 64 && ids.initiator_id >= MCS_BASE_CHANNEL_ID
                &&& r matches Ok(v) ==> v@ == spec_encode_frame(
                    Action::X224,
                    x224_data_header() + spec_send_data_request_header(ids.initiator_id, ids.channel_id, pdu.len() as int)
                        + pdu,
                )
            }),
    {
        if data.len() > 0x7FFF - 64 {
            return Err(RdpError::InvalidLength);
        }
        let pdu = encode_share_data(self.0.pdu_source, self.0.share_id, pdu_type2, data);
        self.0.send_data_context_transport.encode_send_data(pdu.as_slice())
    }

    /// The Share Data PDU framed in `frame`, which must come on the global
    /// channel; its share id is kept.
    pub fn decode_share_data(&mut self, frame: &[u8]) -> (r: Result<ShareDataPdu, RdpError>)
        ensures
            r is Ok ==> (spec_parse_frame(frame@) matches Ok((Action::X224, p)) && p.len() >= 4 && p[3] / 4
                == MCS_SEND_DATA_INDICATION),
            r is Err ==> final(self).spec_share_id() == old(self).spec_share_id(),
            match frame_indication(frame@) {
                None => r is Err,
                Some((c, data)) => if c.channel_id != old(self).spec_global_channel_id() {
                    r == Err::<ShareDataPdu, RdpError>(RdpError::InvalidResponse)
                } else {
                    &&& data.len() == 0 ==> r == Err::<ShareDataPdu, RdpError>(RdpError::StaticChannelNotConnected)
                    &&& data.len() > 0 && !share_data_ok(data) ==> r == Err::<ShareDataPdu, RdpError>(share_data_error(data))
                    &&& r.is_ok() <==> data.len() > 0 && share_data_ok(data)
                    &&& r is Ok ==> final(self).spec_share_id() == le32(data, 6)
                },
            },
    {
        let (ids, data) = self.0.send_data_context_transport.decode_send_data(frame)?;
        if ids.channel_id != self.0.global_channel_id {
            return Err(RdpError::InvalidResponse);
        }
        let data = match data {
            Some(d) => d,
            None => return Err(RdpError::StaticChannelNotConnected),
        };
        let share = parse_share_data(data.as_slice())?;
        self.0.share_id = share.share_id;
        Ok(share.pdu)
    }
}

impl Decoder for ShareDataHeaderTransport {
    type Item = ShareDataPdu;

    fn decode(&mut self, input: &[u8]) -> Result<ShareDataPdu, RdpError> {
        self.decode_share_data(input)
    }
}

/// A framed PDU of either path, with what follows its framing header.
#[derive(Clone, Debug, PartialEq, Eq)]
pub enum RdpPdu {
    /// The user data of an X.224 Data TPDU.
    X224(Vec<u8>),
    /// The payload of a fast-path PDU.
    FastPath(Vec<u8>),
}

/// Decoding a framed PDU gives back the PDU that was framed, whatever follows it.
pub proof fn lemma_rdp_pdu_round_trip(pdu: RdpPdu, rest: Seq<u8>)
    requires
        match pdu {
            RdpPdu::X224(d) => d@.len() + 7 <= 0xFFFF,
            RdpPdu::FastPath(p) => p@.len() + 3 <= 0x7FFF,
        },
    ensures
        match pdu {
            RdpPdu::X224(d) => frame_user(spec_encode_frame(Action::X224, x224_data_header() + d@) + rest)
                == Some(d@),
            RdpPdu::FastPath(p) => spec_parse_frame(spec_encode_frame(Action::FastPath, p@) + rest) == Ok::<
                (Action, Seq<u8>),
                RdpError,
            >((Action::FastPath, p@)),
        },
{
    match pdu {
        RdpPdu::X224(d) => {
            let payload = x224_data_header() + d@;
            lemma_parse_encode_frame_with_rest(Action::X224, payload, rest);
            assert(payload.subrange(0, 3) =~= x224_data_header());
            assert(payload.subrange(3, payload.len() as int) =~= d@);
        },
        RdpPdu::FastPath(p) => {
            lemma_parse_encode_frame_with_rest(Action::FastPath, p@, rest);
        },
    }
}

/// The outer framing layer.
#[derive(Clone, Copy, Debug)]
pub struct RdpTransport;

impl RdpTransport {
    /// The PDU framed at the start of `frame`.
    pub fn decode_pdu(&self, frame: &[u8]) -> (r: Result<RdpPdu, RdpError>)
        ensures
            r matches Ok(RdpPdu::FastPath(p)) ==> spec_parse_frame(frame@) == Ok::<(Action, Seq<u8>), RdpError>(
                (Action::FastPath, p@),
            ),
            r matches Ok(RdpPdu::X224(d)) ==> (spec_parse_frame(frame@) matches Ok((Action::X224, p)) && p.len() >= 3
                && d@ == p.subrange(3, p.len() as int)),
            spec_parse_frame(frame@) is Err ==> r is Err,
            spec_parse_frame(frame@) matches Err(e) ==> r == Err::<RdpPdu, RdpError>(e),
            spec_parse_frame(frame@) matches Ok((Action::FastPath, _)) ==> r is Ok,
            spec_parse_frame(frame@) matches Ok((Action::X224, _)) ==> (r.is_ok() <==> frame_user(frame@) is Some),
    {
        let (action, payload) = parse_frame(frame)?;
        match action {
            Action::X224 => Ok(RdpPdu::X224(parse_x224_data(payload.as_slice())?)),
            Action::FastPath => Ok(RdpPdu::FastPath(payload)),
        }
    }

    /// Frames a PDU.
    pub fn encode_pdu(&self, pdu: &RdpPdu) -> (r: Result<Vec<u8>, RdpError>)
        ensures
            r matches Ok(v) ==> match pdu {
                RdpPdu::X224(d) => v@ == spec_encode_frame(Action::X224, x224_data_header() + d@),
                RdpPdu::FastPath(p) => v@ == spec_encode_frame(Action::FastPath, p@),
            },
            r.is_ok() <==> match pdu {
                RdpPdu::X224(d) => d@.len() + 7 <= 0xFFFF,
                RdpPdu::FastPath(p) => p@.len() + 3 <= 0x7FFF,
            },
            r matches Err(e) ==> e == RdpError::InvalidLength,
    {
        match pdu {
            RdpPdu::X224(d) => {
                if d.len() > 0xFFFF - 7 {
                    return Err(RdpError::InvalidLength);
                }
                Ok(encode_x224_data(d.as_slice()))
            },
            RdpPdu::FastPath(p) => {
                if p.len() > 0x7FFF - 3 {
                    return Err(RdpError::InvalidLength);
                }
                Ok(encode_frame(Action::FastPath, p.as_slice()))
            },
        }
    }
}

impl Decoder for RdpTransport {
    type Item = RdpPdu;

    fn decode(&mut self, input: &[u8]) -> Result<RdpPdu, RdpError> {
        self.decode_pdu(input)
    }
}

impl Encoder for RdpTransport {
    type Item = RdpPdu;

    fn encode(&mut self, item: RdpPdu) -> Result<Vec<u8>, RdpError> {
        self.encode_pdu(&item)
    }
}

} // verus!
