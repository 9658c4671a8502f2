//! The slow-path processor: MCS dispatch between the global channel and the
//! dynamic virtual channels.
use vstd::prelude::*;
use vstd::string::StringSliceAdditionalSpecFns;
use crate::share::global_result;
use crate::mcs::spec_mcs;
use crate::dvc::{
    encode_capabilities_response, encode_close_response, encode_create_response, encode_data_pdu,
    parse_server_pdu, ChannelHandler, DynamicChannel, FieldType, ServerPdu, DVC_CREATION_STATUS_NO_LISTENER,
    DVC_CREATION_STATUS_OK,
};
use crate::error::{is_channel_error, RdpError};
use crate::gfx::{create_capabilities_advertise, Handler};
use crate::framing::{spec_encode_frame, Action};
use crate::dvc::{
    data_done, first_done, pdu_view, spec_capabilities_response, spec_close_response, spec_create_response,
    spec_data_pdu, spec_server_pdu, DvcPdu,
};
use crate::gfx::spec_capabilities_advertise;
use crate::mcs::{spec_send_data_request_header, spec_svc_pdu, 
    encode_send_data_request, encode_svc_pdu, encode_x224_data, parse_mcs, parse_svc_pdu,
    parse_x224_data, x224_data_header, McsPdu, MCS_BASE_CHANNEL_ID, MCS_DISCONNECT_PROVIDER_ULTIMATUM,
};
use crate::share::process_global_channel_pdu;

verus! {

pub const RDP8_GRAPHICS_PIPELINE_NAME: &'static str = "Microsoft::Windows::RDS::Graphics";
pub const RDP8_DISPLAY_PIPELINE_NAME: &'static str = "Microsoft::Windows::RDS::DisplayControl";
pub const DRDYNVC_CHANNEL_NAME: &'static str = "drdynvc";

/// Whether two byte strings are equal.
pub fn bytes_equal(a: &[u8], b: &[u8]) -> (r: bool)
    ensures
        r == (a@ == b@),
{
    if a.len() != b.len() {
        return false;
    }
    let mut i: usize = 0;
    while i < a.len()
        invariant
            i <= a@.len(),
            a@.len() == b@.len(),
            forall|k: int| 0 <= k < i ==> a@[k] == b@[k],
        decreases a@.len() - i,
    {
        if a[i] != b[i] {
            return false;
        }
        i += 1;
    }
    assert(a@ =~= b@);
    true
}

fn to_bytes(s: &str) -> (r: Vec<u8>)
    ensures
        r@ == s.spec_bytes(),
{
    vstd::slice::slice_to_vec(s.as_bytes())
}

/// The handler for a dynamic channel of the given name, if the client serves it.
pub fn create_dvc(
    channel_name: &[u8],
    channel_id: u32,
    channel_id_type: FieldType,
    forward_gfx: bool,
) -> (r: Option<DynamicChannel>)
    ensures
        r.is_some() <==> channel_name@ == RDP8_GRAPHICS_PIPELINE_NAME.spec_bytes() || channel_name@
            == RDP8_DISPLAY_PIPELINE_NAME.spec_bytes(),
        r matches Some(c) ==> c.spec_channel_id() == channel_id && c.spec_channel_id_type()
            == channel_id_type && c.spec_data().is_idle(),
{
    if bytes_equal(channel_name, RDP8_GRAPHICS_PIPELINE_NAME.as_bytes()) {
        Some(DynamicChannel::new(ChannelHandler::Graphics(Handler::new(forward_gfx)), channel_id, channel_id_type))
    } else if bytes_equal(channel_name, RDP8_DISPLAY_PIPELINE_NAME.as_bytes()) {
        Some(DynamicChannel::new(ChannelHandler::Display, channel_id, channel_id_type))
    } else {
        None
    }
}

/// A reply on the dynamic channel transport: the DVC PDU in a static channel
/// chunk, in an MCS Send Data Request, in an X.224 Data TPDU.
pub open spec fn spec_dvc_reply(initiator_id: u16, channel_id: u16, dvc_pdu: Seq<u8>) -> Seq<u8> {
    spec_encode_frame(
        Action::X224,
        x224_data_header() + (spec_send_data_request_header(
            initiator_id,
            channel_id,
            spec_svc_pdu(dvc_pdu).len() as int,
        ) + spec_svc_pdu(dvc_pdu)),
    )
}

pub fn encode_dvc_reply(initiator_id: u16, channel_id: u16, dvc_pdu: &[u8]) -> (r: Result<Vec<u8>, RdpError>)
    ensures
        r.is_ok() <==> initiator_id >= MCS_BASE_CHANNEL_ID && dvc_pdu@.len() + 8 < 0x7F00,
        r matches Ok(v) ==> v@ == spec_dvc_reply(initiator_id, channel_id, dvc_pdu@),
        r matches Err(e) ==> e == RdpError::InvalidLength,
        res_view(r) == spec_reply(initiator_id, channel_id, dvc_pdu@),
{
    if initiator_id < MCS_BASE_CHANNEL_ID || dvc_pdu.len() >= 0x7F00 - 8 {
        return Err(RdpError::InvalidLength);
    }
    let svc = encode_svc_pdu(dvc_pdu);
    let mcs = encode_send_data_request(initiator_id, channel_id, svc.as_slice());
    Ok(encode_x224_data(mcs.as_slice()))
}

pub open spec fn res_view(r: Result<Vec<u8>, RdpError>) -> Result<Seq<u8>, RdpError> {
    match r {
        Ok(v) => Ok(v@),
        Err(e) => Err(e),
    }
}

/// The framed reply carrying `d`, or `InvalidLength` when it does not fit.
pub open spec fn spec_reply(initiator_id: u16, channel_id: u16, d: Seq<u8>) -> Result<Seq<u8>, RdpError> {
    if initiator_id >= MCS_BASE_CHANNEL_ID && d.len() + 8 < 0x7F00 {
        Ok(spec_dvc_reply(initiator_id, channel_id, d))
    } else {
        Err(RdpError::InvalidLength)
    }
}

/// The replies owed for a channel's result on a message: its reply data in
/// a Data PDU, nothing, or its error.
pub open spec fn reply_of(
    rc: Result<Option<Vec<u8>>, RdpError>,
    t: FieldType,
    id: u32,
    initiator_id: u16,
    channel_id: u16,
) -> Result<Seq<u8>, RdpError> {
    match rc {
        Err(e) => Err(e),
        Ok(None) => Ok(Seq::empty()),
        Ok(Some(v)) => spec_reply(initiator_id, channel_id, spec_data_pdu(t, id, v@)),
    }
}

/// The channels of `d` whose id is not `id`, in order.
pub open spec fn without(d: Seq<DynamicChannel>, id: u32) -> Seq<DynamicChannel>
    decreases d.len(),
{
    if d.len() == 0 {
        d
    } else if d[0].spec_channel_id() == id {
        without(d.drop_first(), id)
    } else {
        seq![d[0]] + without(d.drop_first(), id)
    }
}

/// Whether a channel with this id is open in `d`.
pub open spec fn has_channel(d: Seq<DynamicChannel>, id: u32) -> bool {
    exists|i: int| 0 <= i < d.len() && #[trigger] d[i].spec_channel_id() == id
}

/// The index of the first channel with this id in `d`.
pub open spec fn dyn_index(d: Seq<DynamicChannel>, id: u32) -> int {
    choose|i: int|
        0 <= i < d.len() && #[trigger] d[i].spec_channel_id() == id && forall|k: int|
            0 <= k < i ==> d[k].spec_channel_id() != id
}

/// The channel id mapped to `name`, by its first entry.
pub open spec fn map_lookup(m: Seq<(Seq<u8>, u32)>, name: Seq<u8>) -> Option<u32> {
    if exists|i: int| 0 <= i < m.len() && #[trigger] m[i].0 == name {
        let i = choose|i: int|
            0 <= i < m.len() && #[trigger] m[i].0 == name && forall|k: int| 0 <= k < i ==> m[k].0 != name;
        Some(m[i].1)
    } else {
        None
    }
}

proof fn lemma_first_dyn(d: Seq<DynamicChannel>, id: u32, i: int)
    requires
        0 <= i < d.len(),
        d[i].spec_channel_id() == id,
        forall|k: int| 0 <= k < i ==> d[k].spec_channel_id() != id,
    ensures
        dyn_index(d, id) == i,
        has_channel(d, id),
{
    let j = dyn_index(d, id);
    assert(d[j].spec_channel_id() == id);
    if j < i {
    } else if j > i {
    }
}

fn append(out: &mut Vec<u8>, mut more: Vec<u8>)
    ensures
        final(out)@ == old(out)@ + more@,
{
    out.append(&mut more);
}

/// What acting on one server DVC PDU does to the processor's channel tables
/// and returns.
pub open spec fn pdu_handled(
    old: Processor,
    new: Processor,
    pdu: DvcPdu,
    init: u16,
    ch: u16,
    r: Result<Vec<u8>, RdpError>,
) -> bool {
    &&& new.same_config(&old)
    &&& match pdu {
        DvcPdu::Caps { .. } => res_view(r) == Ok::<Seq<u8>, RdpError>(
            spec_dvc_reply(init, ch, spec_capabilities_response()),
        ) && new.spec_dynamic() == old.spec_dynamic() && new.spec_map() == old.spec_map(),
        DvcPdu::Create { t, id, name } => {
            let known = name == RDP8_GRAPHICS_PIPELINE_NAME.spec_bytes() || name
                == RDP8_DISPLAY_PIPELINE_NAME.spec_bytes();
            let status = if known { DVC_CREATION_STATUS_OK } else { DVC_CREATION_STATUS_NO_LISTENER };
            let first = spec_dvc_reply(init, ch, spec_create_response(t, id, status));
            &&& res_view(r) == Ok::<Seq<u8>, RdpError>(
                if name == RDP8_GRAPHICS_PIPELINE_NAME.spec_bytes() {
                    first + spec_dvc_reply(init, ch, spec_data_pdu(t, id, spec_capabilities_advertise()))
                } else {
                    first
                },
            )
            &&& known ==> {
                let d = new.spec_dynamic();
                &&& has_channel(d, id)
                &&& d[dyn_index(d, id)].spec_channel_id_type() == t
                &&& d[dyn_index(d, id)].spec_data().is_idle()
                &&& map_lookup(new.spec_map(), name) == Some(id)
            }
            &&& !known ==> new.spec_dynamic() == old.spec_dynamic() && new.spec_map() == old.spec_map()
        },
        DvcPdu::Close { t, id } => res_view(r) == Ok::<Seq<u8>, RdpError>(
            spec_dvc_reply(init, ch, spec_close_response(t, id)),
        ) && new.spec_dynamic() == without(old.spec_dynamic(), id) && !has_channel(new.spec_dynamic(), id)
            && new.spec_map() == old.spec_map(),
        DvcPdu::DataFirst { t, id, total, data } => {
            let d = old.spec_dynamic();
            let i = dyn_index(d, id);
            &&& new.spec_map() == old.spec_map()
            &&& !has_channel(d, id) ==> r == Err::<Vec<u8>, RdpError>(RdpError::AccessToNonExistingChannel(id))
                && new.spec_dynamic() == d
            &&& has_channel(d, id) ==> exists|c: DynamicChannel, rc: Result<Option<Vec<u8>>, RdpError>|
                #[trigger] first_done(d[i], c, total as int, data, rc) && new.spec_dynamic() == d.update(i, c)
                    && res_view(r) == reply_of(rc, t, id, init, ch)
        },
        DvcPdu::Data { t, id, data } => {
            let d = old.spec_dynamic();
            let i = dyn_index(d, id);
            &&& new.spec_map() == old.spec_map()
            &&& !has_channel(d, id) ==> r == Err::<Vec<u8>, RdpError>(RdpError::AccessToNonExistingChannel(id))
                && new.spec_dynamic() == d
            &&& has_channel(d, id) ==> exists|c: DynamicChannel, rc: Result<Option<Vec<u8>>, RdpError>|
                #[trigger] data_done(d[i], c, data, rc) && new.spec_dynamic() == d.update(i, c) && res_view(r)
                    == reply_of(rc, t, id, init, ch)
        },
    }
}

/// What handling the user data `data` of the dynamic channel transport does:
/// a static channel chunk holding one server DVC PDU.
pub open spec fn dvc_handled(
    old: Processor,
    new: Processor,
    data: Seq<u8>,
    init: u16,
    ch: u16,
    r: Result<Vec<u8>, RdpError>,
) -> bool {
    if data.len() < 8 {
        r == Err::<Vec<u8>, RdpError>(RdpError::DvcError) && new.same_config(&old) && new.spec_dynamic()
            == old.spec_dynamic() && new.spec_map() == old.spec_map()
    } else {
        match spec_server_pdu(data.subrange(8, data.len() as int)) {
            None => r == Err::<Vec<u8>, RdpError>(RdpError::DvcError) && new.same_config(&old)
                && new.spec_dynamic() == old.spec_dynamic() && new.spec_map() == old.spec_map(),
            Some(p) => pdu_handled(old, new, p, init, ch, r),
        }
    }
}

/// What handling the user data of one X.224 Data TPDU does to the processor
/// and returns.
pub open spec fn x224_processed(old: Processor, new: Processor, payload: Seq<u8>, r: Result<Vec<u8>, RdpError>) -> bool {
    &&& !(payload.len() >= 3 && payload.subrange(0, 3) == x224_data_header()) ==> r
        == Err::<Vec<u8>, RdpError>(RdpError::X224Error) && new == old
    &&& payload.len() >= 5 && payload.subrange(0, 3) == x224_data_header() && payload[3] / 4
        == MCS_DISCONNECT_PROVIDER_ULTIMATUM ==> r == Err::<Vec<u8>, RdpError>(
        RdpError::UnexpectedDisconnection(((payload[3] % 4) * 2 + payload[4] / 128) as u8),
    )
    &&& r matches Err(RdpError::UnknownChannel(id)) ==> !old.has_static(id)
    &&& r matches Err(RdpError::UnexpectedChannel(id)) ==> old.has_static(id)
    &&& payload.len() >= 3 && payload.subrange(0, 3) == x224_data_header() ==> {
                let u = payload.subrange(3, payload.len() as int);
                match spec_mcs(u) {
                    Some((McsPdu::SendDataIndication(c), s)) => {
                        let data = u.subrange(s, u.len() as int);
                        let ch = c.channel_id;
                        match old.static_name(ch) {
                            None => r == Err::<Vec<u8>, RdpError>(RdpError::UnknownChannel(ch)) && new
                                == old,
                            Some(name) => if name == DRDYNVC_CHANNEL_NAME.spec_bytes() {
                                new.spec_drdynvc_channel_id() == ch && dvc_handled(
                                    old,
                                    new,
                                    data,
                                    c.initiator_id,
                                    ch,
                                    r,
                                )
                            } else if name == old.spec_global_name() {
                                new == old && res_view(r) == match global_result(data) {
                                    Ok(()) => Ok::<Seq<u8>, RdpError>(Seq::empty()),
                                    Err(e) => Err::<Seq<u8>, RdpError>(e),
                                }
                            } else {
                                r == Err::<Vec<u8>, RdpError>(RdpError::UnexpectedChannel(ch)) && new
                                    == old
                            },
                        }
                    },
                    Some((McsPdu::DisconnectProviderUltimatum(reason), _)) => r == Err::<Vec<u8>, RdpError>(
                        RdpError::UnexpectedDisconnection(reason),
                    ) && new == old,
                    _ => r == Err::<Vec<u8>, RdpError>(RdpError::McsError) && new == old,
                }
            }
}

/// The processor of slow-path PDUs.
pub struct Processor {
    static_channels: Vec<(u16, Vec<u8>)>,
    channel_map: Vec<(Vec<u8>, u32)>,
    dynamic_channels: Vec<DynamicChannel>,
    global_channel_name: Vec<u8>,
    forward_gfx: bool,
    user_id: u16,
    drdynvc_channel_id: u16,
}

impl Processor {
    /// The name of the static channel with this id, by the first table entry.
    pub closed spec fn static_name(&self, id: u16) -> Option<Seq<u8>> {
        if exists|i: int| 0 <= i < self.static_channels@.len() && #[trigger] self.static_channels@[i].0 == id {
            let i = choose|i: int|
                0 <= i < self.static_channels@.len() && #[trigger] self.static_channels@[i].0 == id && forall|k: int|
                    0 <= k < i ==> self.static_channels@[k].0 != id;
            Some(self.static_channels@[i].1@)
        } else {
            None
        }
    }

    /// The open dynamic channels, in the order they were opened.
    pub closed spec fn spec_dynamic(&self) -> Seq<DynamicChannel> {
        self.dynamic_channels@
    }

    /// The names under which dynamic channels were opened, with their ids.
    pub closed spec fn spec_map(&self) -> Seq<(Seq<u8>, u32)> {
        self.channel_map@.map_values(|e: (Vec<u8>, u32)| (e.0@, e.1))
    }

    pub closed spec fn spec_forward(&self) -> bool {
        self.forward_gfx
    }

    /// The connection-time settings, which no PDU changes.
    pub closed spec fn same_config(&self, other: &Processor) -> bool {
        &&& self.static_channels@ == other.static_channels@
        &&& self.global_channel_name@ == other.global_channel_name@
        &&& self.forward_gfx == other.forward_gfx
        &&& self.user_id == other.user_id
    }

    /// Whether a static channel with this id was joined.
    pub closed spec fn has_static(&self, id: u16) -> bool {
        exists|i: int| 0 <= i < self.static_channels@.len() && #[trigger] self.static_channels@[i].0 == id
    }

    pub closed spec fn spec_global_name(&self) -> Seq<u8> {
        self.global_channel_name@
    }

    /// Ids of the open dynamic channels.
    pub closed spec fn open_channels(&self) -> Seq<u32> {
        self.dynamic_channels@.map_values(|c: DynamicChannel| c.spec_channel_id())
    }

    pub closed spec fn spec_drdynvc_channel_id(&self) -> u16 {
        self.drdynvc_channel_id
    }

    pub closed spec fn spec_user_id(&self) -> u16 {
        self.user_id
    }

    /// A processor for the static channels joined at connection time, by id
    /// and name; `forward_gfx` keeps graphics PDUs for an observer.
    pub fn new(
        static_channels: Vec<(u16, String)>,
        global_channel_name: &str,
        user_id: u16,
        forward_gfx: bool,
    ) -> (r: Self)
        ensures
            r.open_channels().len() == 0,
            r.spec_global_name() == global_channel_name.spec_bytes(),
            forall|id: u16|
                #![trigger r.has_static(id)]
                r.has_static(id) <==> exists|i: int| 0 <= i < static_channels@.len() && #[trigger] static_channels@[i].0 == id,
    {
        let mut table: Vec<(u16, Vec<u8>)> = Vec::new();
        let mut i: usize = 0;
        while i < static_channels.len()
            invariant
                i <= static_channels@.len(),
                table@.len() == i,
                forall|k: int| 0 <= k < i ==> #[trigger] table@[k].0 == static_channels@[k].0,
            decreases static_channels@.len() - i,
        {
            let id = static_channels[i].0;
            let name = to_bytes(static_channels[i].1.as_str());
            table.push((id, name));
            i += 1;
        }
        let p = Processor {
            static_channels: table,
            channel_map: Vec::new(),
            dynamic_channels: Vec::new(),
            global_channel_name: to_bytes(global_channel_name),
            forward_gfx,
            user_id,
            drdynvc_channel_id: 0,
        };
        assert(p.open_channels() =~= Seq::<u32>::empty());
        assert forall|id: u16|
            #![trigger p.has_static(id)]
            p.has_static(id) <==> exists|i: int| 0 <= i < static_channels@.len() && #[trigger] static_channels@[i].0 == id by {
            if p.has_static(id) {
                let i = choose|i: int| 0 <= i < p.static_channels@.len() && #[trigger] p.static_channels@[i].0 == id;
                assert(static_channels@[i].0 == id);
            }
            if exists|i: int| 0 <= i < static_channels@.len() && #[trigger] static_channels@[i].0 == id {
                let i = choose|i: int| 0 <= i < static_channels@.len() && #[trigger] static_channels@[i].0 == id;
                assert(p.static_channels@[i].0 == id);
            }
        }
        p
    }

    fn find_static(&self, id: u16) -> (r: Option<usize>)
        ensures
            r matches Some(i) ==> i < self.static_channels@.len() && self.static_channels@[i as int].0 == id
                && forall|k: int| 0 <= k < i ==> #[trigger] self.static_channels@[k].0 != id,
            r is None ==> forall|i: int| 0 <= i < self.static_channels@.len() ==> #[trigger] self.static_channels@[i].0 != id,
    {
        let mut i: usize = 0;
        while i < self.static_channels.len()
            invariant
                i <= self.static_channels@.len(),
                forall|k: int| 0 <= k < i ==> #[trigger] self.static_channels@[k].0 != id,
            decreases self.static_channels@.len() - i,
        {
            if self.static_channels[i].0 == id {
                return Some(i);
            }
            i += 1;
        }
        None
    }

    fn find_dynamic(&self, id: u32) -> (r: Option<usize>)
        ensures
            r matches Some(i) ==> i < self.dynamic_channels@.len() && self.dynamic_channels@[i as int].spec_channel_id() == id
                && forall|k: int| 0 <= k < i ==> #[trigger] self.dynamic_channels@[k].spec_channel_id() != id,
            r is None ==> forall|i: int| 0 <= i < self.dynamic_channels@.len() ==> #[trigger] self.dynamic_channels@[i].spec_channel_id() != id,
    {
        let mut i: usize = 0;
        while i < self.dynamic_channels.len()
            invariant
                i <= self.dynamic_channels@.len(),
                forall|k: int| 0 <= k < i ==> #[trigger] self.dynamic_channels@[k].spec_channel_id() != id,
            decreases self.dynamic_channels@.len() - i,
        {
            if self.dynamic_channels[i].channel_id() == id {
                return Some(i);
            }
            i += 1;
        }
        None
    }

    /// Whether a dynamic channel with this id is open.
    pub fn has_dynamic_channel(&self, id: u32) -> (r: bool)
        ensures
            r == self.open_channels().contains(id),
    {
        let f = self.find_dynamic(id);
        proof {
            if let Some(i) = f {
                assert(self.open_channels()[i as int] == id);
            } else {
                if self.open_channels().contains(id) {
                    let k = choose|k: int| 0 <= k < self.open_channels().len() && self.open_channels()[k] == id;
                    assert(self.dynamic_channels@[k].spec_channel_id() == id);
                }
            }
        }
        f.is_some()
    }

    /// Handles the user data of one X.224 Data TPDU (the payload of a TPKT
    /// frame) and returns the framed replies to send, possibly none.
    pub fn process(&mut self, payload: &[u8]) -> (r: Result<Vec<u8>, RdpError>)
        ensures
            x224_processed(*old(self), *final(self), payload@, r),
    {
        let user = parse_x224_data(payload)?;
        proof {
            if payload@.len() >= 5 {
                assert(user@[0] == payload@[3]);
                assert(user@[1] == payload@[4]);
            }
        }
        let (mcs, start) = parse_mcs(user.as_slice())?;
        let ctx = match mcs {
            McsPdu::SendDataIndication(c) => c,
            McsPdu::DisconnectProviderUltimatum(reason) => {
                return Err(RdpError::UnexpectedDisconnection(reason));
            },
            _ => {
                return Err(RdpError::McsError);
            },
        };
        let n = user.len();
        let data = vstd::slice::slice_to_vec(&user.as_slice()[start..n]);
        let index = match self.find_static(ctx.channel_id) {
            Some(i) => {
                proof {
                    let sc = self.static_channels@;
                    let id = ctx.channel_id;
                    let j = choose|j: int| 0 <= j < sc.len() && #[trigger] sc[j].0 == id && forall|k: int| 0 <= k < j ==> sc[k].0 != id;
                    assert(sc[i as int].0 == id);
                    assert(j == i);
                }
                i
            },
            None => {
                proof {
                    if exists|i: int| 0 <= i < self.static_channels@.len() && #[trigger] self.static_channels@[i].0 == ctx.channel_id {
                        let i = choose|i: int| 0 <= i < self.static_channels@.len() && #[trigger] self.static_channels@[i].0 == ctx.channel_id;
                        assert(self.static_channels@[i].0 != ctx.channel_id);
                    }
                }
                return Err(RdpError::UnknownChannel(ctx.channel_id));
            },
        };
        if bytes_equal(self.static_channels[index].1.as_slice(), DRDYNVC_CHANNEL_NAME.as_bytes()) {
            let ghost o = *self;
            self.drdynvc_channel_id = ctx.channel_id;
            let ghost o2 = *self;
            let r = self.process_dvc_message(data.as_slice(), ctx.initiator_id, ctx.channel_id);
            proof {
                assert(o2.same_config(&o) && o2.spec_dynamic() == o.spec_dynamic() && o2.spec_map() == o.spec_map());
            }
            r
        } else if bytes_equal(self.static_channels[index].1.as_slice(), self.global_channel_name.as_slice()) {
            process_global_channel_pdu(data.as_slice())?;
            Ok(Vec::new())
        } else {
            Err(RdpError::UnexpectedChannel(ctx.channel_id))
        }
    }

    /// Handles one PDU of the dynamic channel transport, replying with the
    /// addressing it came with.
    pub fn process_dvc_message(&mut self, data: &[u8], initiator_id: u16, channel_id: u16) -> (r: Result<Vec<u8>, RdpError>)
        requires
            initiator_id >= MCS_BASE_CHANNEL_ID,
        ensures
            r matches Err(e) ==> !is_channel_error(e),
            dvc_handled(*old(self), *final(self), data@, initiator_id, channel_id, r),
            final(self).spec_drdynvc_channel_id() == old(self).spec_drdynvc_channel_id(),
    {
        let svc = parse_svc_pdu(data)?;
        let pdu = parse_server_pdu(svc.as_slice())?;
        self.handle_server_pdu(pdu, initiator_id, channel_id)
    }

    /// Acts on one server DVC PDU and returns the framed replies.
    pub fn handle_server_pdu(&mut self, pdu: ServerPdu, initiator_id: u16, channel_id: u16) -> (r: Result<Vec<u8>, RdpError>)
        requires
            initiator_id >= MCS_BASE_CHANNEL_ID,
        ensures
            r matches Err(e) ==> !is_channel_error(e),
            pdu_handled(*old(self), *final(self), pdu_view(pdu), initiator_id, channel_id, r),
            final(self).spec_drdynvc_channel_id() == old(self).spec_drdynvc_channel_id(),
    {
        match pdu {
            ServerPdu::CapabilitiesRequest { .. } => {
                let reply = encode_capabilities_response();
                encode_dvc_reply(initiator_id, channel_id, reply.as_slice())
            },
            ServerPdu::CreateRequest { channel_id_type, channel_id: id, channel_name } => {
                self.handle_create(channel_id_type, id, channel_name, initiator_id, channel_id)
            },
            ServerPdu::CloseRequest { channel_id_type, channel_id: id } => {
                self.handle_close(channel_id_type, id, initiator_id, channel_id)
            },
            ServerPdu::DataFirst { channel_id_type, channel_id: id, total_data_size, data } => {
                self.handle_data_first(channel_id_type, id, total_data_size, data, initiator_id, channel_id)
            },
            ServerPdu::Data { channel_id_type, channel_id: id, data } => {
                self.handle_data(channel_id_type, id, data, initiator_id, channel_id)
            },
        }
    }

    #[verifier::rlimit(80)]
    fn handle_create(&mut self, channel_id_type: FieldType, id: u32, channel_name: Vec<u8>, initiator_id: u16, channel_id: u16) -> (r: Result<Vec<u8>, RdpError>)
        requires
            initiator_id >= MCS_BASE_CHANNEL_ID,
        ensures
            r matches Err(e) ==> !is_channel_error(e),
            pdu_handled(*old(self), *final(self), DvcPdu::Create { t: channel_id_type, id, name: channel_name@ }, initiator_id, channel_id, r),
            final(self).spec_drdynvc_channel_id() == old(self).spec_drdynvc_channel_id(),
    {
        let status = match create_dvc(channel_name.as_slice(), id, channel_id_type, self.forward_gfx) {
            Some(channel) => {
                self.remove_dynamic(id);
                let ghost before = self.dynamic_channels@;
                self.dynamic_channels.push(channel);
                proof {
                    assert forall|k: int| 0 <= k < before.len() implies self.dynamic_channels@[k].spec_channel_id() != id by {
                        assert(self.dynamic_channels@[k] == before[k]);
                        if before[k].spec_channel_id() == id {
                            assert(has_channel(before, id));
                        }
                    }
                    lemma_first_dyn(self.dynamic_channels@, id, before.len() as int);
                }
                self.map_name(channel_name.as_slice(), id);
                DVC_CREATION_STATUS_OK
            },
            None => DVC_CREATION_STATUS_NO_LISTENER,
        };
        let reply = encode_create_response(channel_id_type, id, status);
        let mut out = encode_dvc_reply(initiator_id, channel_id, reply.as_slice())?;
        if bytes_equal(channel_name.as_slice(), RDP8_GRAPHICS_PIPELINE_NAME.as_bytes()) {
            let caps = create_capabilities_advertise()?;
            let data_pdu = encode_data_pdu(channel_id_type, id, caps.as_slice());
            let more = encode_dvc_reply(initiator_id, channel_id, data_pdu.as_slice())?;
            append(&mut out, more);
        }
        Ok(out)
    }

    fn handle_close(&mut self, channel_id_type: FieldType, id: u32, initiator_id: u16, channel_id: u16) -> (r: Result<Vec<u8>, RdpError>)
        requires
            initiator_id >= MCS_BASE_CHANNEL_ID,
        ensures
            r matches Err(e) ==> !is_channel_error(e),
            pdu_handled(*old(self), *final(self), DvcPdu::Close { t: channel_id_type, id }, initiator_id, channel_id, r),
            final(self).spec_drdynvc_channel_id() == old(self).spec_drdynvc_channel_id(),
    {
        let reply = encode_close_response(channel_id_type, id);
        let out = encode_dvc_reply(initiator_id, channel_id, reply.as_slice())?;
        self.remove_dynamic(id);
        Ok(out)
    }

    fn handle_data_first(&mut self, channel_id_type: FieldType, id: u32, total_data_size: u32, data: Vec<u8>, initiator_id: u16, channel_id: u16) -> (r: Result<Vec<u8>, RdpError>)
        requires
            initiator_id >= MCS_BASE_CHANNEL_ID,
        ensures
            r matches Err(e) ==> !is_channel_error(e),
            pdu_handled(*old(self), *final(self), DvcPdu::DataFirst { t: channel_id_type, id, total: total_data_size, data: data@ }, initiator_id, channel_id, r),
            final(self).spec_drdynvc_channel_id() == old(self).spec_drdynvc_channel_id(),
    {
        let i = match self.find_dynamic(id) {
            Some(i) => i,
            None => {
                proof {
                    if has_channel(self.dynamic_channels@, id) {
                        let k = choose|k: int| 0 <= k < self.dynamic_channels@.len() && #[trigger] self.dynamic_channels@[k].spec_channel_id() == id;
                        assert(self.dynamic_channels@[k].spec_channel_id() != id);
                    }
                }
                return Err(RdpError::AccessToNonExistingChannel(id));
            },
        };
        let ghost d = self.dynamic_channels@;
        let ghost dv = data@;
        proof {
            lemma_first_dyn(d, id, i as int);
        }
        let mut channel = self.dynamic_channels.remove(i);
        let result = channel.process_data_first_pdu(total_data_size as usize, data);
        let ghost c = channel;
        let ghost rc = result;
        self.dynamic_channels.insert(i, channel);
        assert(self.dynamic_channels@ =~= d.update(i as int, c));
        let out = match result {
            Err(e) => Err(e),
            Ok(Some(reply)) => {
                let data_pdu = encode_data_pdu(channel_id_type, id, reply.as_slice());
                encode_dvc_reply(initiator_id, channel_id, data_pdu.as_slice())
            },
            Ok(None) => Ok(Vec::new()),
        };
        assert(res_view(out) == reply_of(rc, channel_id_type, id, initiator_id, channel_id));
        assert(first_done(d[i as int], c, total_data_size as int, dv, rc));
        assert(dyn_index(d, id) == i);
        assert(has_channel(d, id));
        let ghost pdu = DvcPdu::DataFirst { t: channel_id_type, id, total: total_data_size, data: dv };
        assert(pdu matches DvcPdu::DataFirst { t, id: id2, total, data } && id2 == id && total == total_data_size && data == dv && t == channel_id_type);
        assert(pdu_handled(*old(self), *self, pdu, initiator_id, channel_id, out));
        out
    }

    #[verifier::rlimit(50)]
    fn handle_data(&mut self, channel_id_type: FieldType, id: u32, data: Vec<u8>, initiator_id: u16, channel_id: u16) -> (r: Result<Vec<u8>, RdpError>)
        requires
            initiator_id >= MCS_BASE_CHANNEL_ID,
        ensures
            r matches Err(e) ==> !is_channel_error(e),
            pdu_handled(*old(self), *final(self), DvcPdu::Data { t: channel_id_type, id, data: data@ }, initiator_id, channel_id, r),
            final(self).spec_drdynvc_channel_id() == old(self).spec_drdynvc_channel_id(),
    {
        let i = match self.find_dynamic(id) {
            Some(i) => i,
            None => {
                proof {
                    if has_channel(self.dynamic_channels@, id) {
                        let k = choose|k: int| 0 <= k < self.dynamic_channels@.len() && #[trigger] self.dynamic_channels@[k].spec_channel_id() == id;
                        assert(self.dynamic_channels@[k].spec_channel_id() != id);
                    }
                }
                return Err(RdpError::AccessToNonExistingChannel(id));
            },
        };
        let ghost d = self.dynamic_channels@;
        let ghost dv = data@;
        proof {
            lemma_first_dyn(d, id, i as int);
        }
        let mut channel = self.dynamic_channels.remove(i);
        let result = channel.process_data_pdu(data);
        let ghost c = channel;
        let ghost rc = result;
        self.dynamic_channels.insert(i, channel);
        assert(self.dynamic_channels@ =~= d.update(i as int, c));
        let out = match result {
            Err(e) => Err(e),
            Ok(Some(reply)) => {
                let data_pdu = encode_data_pdu(channel_id_type, id, reply.as_slice());
                encode_dvc_reply(initiator_id, channel_id, data_pdu.as_slice())
            },
            Ok(None) => Ok(Vec::new()),
        };
        assert(res_view(out) == reply_of(rc, channel_id_type, id, initiator_id, channel_id));
        assert(data_done(d[i as int], c, dv, rc));
        assert(dyn_index(d, id) == i);
        assert(has_channel(d, id));
        let ghost pdu = DvcPdu::Data { t: channel_id_type, id, data: dv };
        assert(pdu matches DvcPdu::Data { t, id: id2, data } && id2 == id && data == dv && t == channel_id_type);
        assert(pdu_handled(*old(self), *self, pdu, initiator_id, channel_id, out));
        out
    }

    /// Closes the dynamic channels with this id, keeping the others in order.
    fn remove_dynamic(&mut self, id: u32)
        ensures
            !final(self).open_channels().contains(id),
            !has_channel(final(self).spec_dynamic(), id),
            final(self).spec_dynamic() == without(old(self).spec_dynamic(), id),
            final(self).same_config(old(self)),
            final(self).channel_map == old(self).channel_map,
            final(self).drdynvc_channel_id == old(self).drdynvc_channel_id,
    {
        let mut rest: Vec<DynamicChannel> = Vec::new();
        std::mem::swap(&mut rest, &mut self.dynamic_channels);
        let ghost orig = rest@;
        assert(self.dynamic_channels@ =~= Seq::<DynamicChannel>::empty());
        while rest.len() > 0
            invariant
                self.same_config(old(self)),
                self.channel_map == old(self).channel_map,
                self.drdynvc_channel_id == old(self).drdynvc_channel_id,
                orig == old(self).dynamic_channels@,
                without(orig, id) == self.dynamic_channels@ + without(rest@, id),
                forall|k: int| 0 <= k < self.dynamic_channels@.len() ==> #[trigger] self.dynamic_channels@[k].spec_channel_id() != id,
            decreases rest@.len(),
        {
            let ghost r0 = rest@;
            let c = rest.remove(0);
            assert(r0.drop_first() =~= rest@);
            if c.channel_id() != id {
                let ghost kept = self.dynamic_channels@;
                self.dynamic_channels.push(c);
                assert(kept + (seq![c] + without(rest@, id)) =~= self.dynamic_channels@ + without(rest@, id));
            }
        }
        assert(self.dynamic_channels@ + Seq::<DynamicChannel>::empty() =~= self.dynamic_channels@);
        proof {
            if self.open_channels().contains(id) {
                let k = choose|k: int| 0 <= k < self.open_channels().len() && self.open_channels()[k] == id;
                assert(self.dynamic_channels@[k].spec_channel_id() == id);
            }
            if has_channel(self.dynamic_channels@, id) {
                let k = choose|k: int| 0 <= k < self.dynamic_channels@.len() && #[trigger] self.dynamic_channels@[k].spec_channel_id() == id;
                assert(self.dynamic_channels@[k].spec_channel_id() != id);
            }
        }
    }

    /// Records the id of the dynamic channel opened under `name`.
    fn map_name(&mut self, name: &[u8], id: u32)
        ensures
            final(self).dynamic_channels == old(self).dynamic_channels,
            final(self).same_config(old(self)),
            final(self).drdynvc_channel_id == old(self).drdynvc_channel_id,
            map_lookup(final(self).spec_map(), name@) == Some(id),
    {
        let mut i: usize = 0;
        while i < self.channel_map.len()
            invariant
                i <= self.channel_map@.len(),
                self.dynamic_channels == old(self).dynamic_channels,
                self.same_config(old(self)),
                self.drdynvc_channel_id == old(self).drdynvc_channel_id,
                forall|k: int| 0 <= k < i ==> #[trigger] self.channel_map@[k].0@ != name@,
            decreases self.channel_map@.len() - i,
        {
            if bytes_equal(self.channel_map[i].0.as_slice(), name) {
                let _old = self.channel_map.remove(i);
            } else {
                i += 1;
            }
        }
        let ghost before = self.channel_map@;
        self.channel_map.push((vstd::slice::slice_to_vec(name), id));
        proof {
            let m = self.spec_map();
            let last = before.len() as int;
            assert(m[last].0 == name@);
            assert forall|k: int| 0 <= k < last implies m[k].0 != name@ by {
                assert(self.channel_map@[k] == before[k]);
            }
            let j = choose|j: int| 0 <= j < m.len() && #[trigger] m[j].0 == name@ && forall|k: int| 0 <= k < j ==> m[k].0 != name@;
            assert(j == last);
        }
    }

    /// The channel id mapped to `name`.
    fn find_mapped(&self, name: &[u8]) -> (r: Option<u32>)
        ensures
            r == map_lookup(self.spec_map(), name@),
    {
        let ghost m = self.spec_map();
        let mut i: usize = 0;
        while i < self.channel_map.len()
            invariant
                i <= self.channel_map@.len(),
                m == self.spec_map(),
                forall|k: int| 0 <= k < i ==> #[trigger] m[k].0 != name@,
            decreases self.channel_map@.len() - i,
        {
            if bytes_equal(self.channel_map[i].0.as_slice(), name) {
                proof {
                    assert(m[i as int].0 == name@);
                    let j = choose|j: int| 0 <= j < m.len() && #[trigger] m[j].0 == name@ && forall|k: int| 0 <= k < j ==> m[k].0 != name@;
                    assert(j == i);
                }
                return Some(self.channel_map[i].1);
            }
            i += 1;
        }
        proof {
            if exists|j: int| 0 <= j < m.len() && #[trigger] m[j].0 == name@ {
                let j = choose|j: int| 0 <= j < m.len() && #[trigger] m[j].0 == name@;
                assert(m[j].0 != name@);
            }
        }
        None
    }

    /// Sends `message` on the dynamic channel opened under `channel_name`.
    pub fn send(&mut self, channel_name: &str, message: Vec<u8>) -> (r: Result<Vec<u8>, RdpError>)
        ensures
            *final(self) == *old(self),
            match map_lookup(old(self).spec_map(), channel_name.spec_bytes()) {
                None => r matches Err(RdpError::AccessToNonExistingChannelName(n)) && n@ == channel_name@,
                Some(id) => {
                    let d = old(self).spec_dynamic();
                    if !has_channel(d, id) {
                        r == Err::<Vec<u8>, RdpError>(RdpError::AccessToNonExistingChannel(id))
                    } else {
                        res_view(r) == spec_reply(
                            old(self).spec_user_id(),
                            old(self).spec_drdynvc_channel_id(),
                            spec_data_pdu(d[dyn_index(d, id)].spec_channel_id_type(), id, message@),
                        )
                    }
                },
            },
    {
        let found = self.find_mapped(channel_name.as_bytes());
        let id = match found {
            Some(id) => id,
            None => return Err(RdpError::AccessToNonExistingChannelName(channel_name.to_owned())),
        };
        let index = match self.find_dynamic(id) {
            Some(k) => k,
            None => {
                proof {
                    if has_channel(self.dynamic_channels@, id) {
                        let k = choose|k: int| 0 <= k < self.dynamic_channels@.len() && #[trigger] self.dynamic_channels@[k].spec_channel_id() == id;
                        assert(self.dynamic_channels@[k].spec_channel_id() != id);
                    }
                }
                return Err(RdpError::AccessToNonExistingChannel(id));
            },
        };
        proof {
            lemma_first_dyn(self.dynamic_channels@, id, index as int);
        }
        let t = self.dynamic_channels[index].channel_id_type();
        let data_pdu = encode_data_pdu(t, id, message.as_slice());
        encode_dvc_reply(self.user_id, self.drdynvc_channel_id, data_pdu.as_slice())
    }
}

} // verus!
