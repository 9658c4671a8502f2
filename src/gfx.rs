//! The graphics pipeline dynamic channel: ZGFX segment framing, the server's
//! PDU stream and the client's frame acknowledgements.
use vstd::prelude::*;
use crate::error::RdpError;
use crate::zgfx::{spec_zgfx, zgfx_decompress};
use crate::wire::{le16, le32, read_u16_le, read_u32_le};

verus! {

pub const GFX_CMDID_END_FRAME: u16 = 0x000C;
pub const GFX_CMDID_FRAME_ACKNOWLEDGE: u16 = 0x000D;
pub const GFX_CMDID_CAPS_ADVERTISE: u16 = 0x0012;
/// Queue depth value that asks the server to stop sending acknowledgements' replies.
pub const QUEUE_DEPTH_SUSPEND: u32 = 0xFFFF_FFFF;
pub const CAPS_VERSION_8: u32 = 0x0008_0004;
pub const CAPS_VERSION_81: u32 = 0x0008_0105;
pub const CAPS_VERSION_10: u32 = 0x000A_0002;
pub const CAPS_VERSION_106: u32 = 0x000A_0600;
pub const CAPS_FLAG_SMALL_CACHE: u32 = 0x02;
pub const CAPS_FLAG_AVC420_ENABLED: u32 = 0x10;
pub const CAPS_FLAG_AVC_THIN_CLIENT: u32 = 0x40;

/// The little-endian bytes of a `u32`.
pub open spec fn le32_bytes(v: u32) -> Seq<u8> {
    seq![(v % 256) as u8, ((v / 256) % 256) as u8, ((v / 65536) % 256) as u8, (v / 16777216) as u8]
}

fn push_u32_le(out: &mut Vec<u8>, v: u32)
    ensures
        final(out)@ == old(out)@ + le32_bytes(v),
{
    out.push((v % 256) as u8);
    out.push(((v / 256) % 256) as u8);
    out.push(((v / 65536) % 256) as u8);
    out.push((v / 16777216) as u8);
    assert(out@ =~= old(out)@ + le32_bytes(v));
}

/// A Frame Acknowledge PDU.
pub open spec fn spec_frame_ack(frame_id: u32, total_frames_decoded: u32) -> Seq<u8> {
    seq![0x0Du8, 0u8, 0u8, 0u8, 20u8, 0u8, 0u8, 0u8] + le32_bytes(QUEUE_DEPTH_SUSPEND) + le32_bytes(
        frame_id,
    ) + le32_bytes(total_frames_decoded)
}

pub fn encode_frame_acknowledge(out: &mut Vec<u8>, frame_id: u32, total_frames_decoded: u32)
    ensures
        final(out)@ == old(out)@ + spec_frame_ack(frame_id, total_frames_decoded),
{
    let ghost start = out@;
    out.push(0x0D);
    out.push(0);
    out.push(0);
    out.push(0);
    out.push(20);
    out.push(0);
    out.push(0);
    out.push(0);
    let ghost h = out@;
    push_u32_le(out, QUEUE_DEPTH_SUSPEND);
    push_u32_le(out, frame_id);
    push_u32_le(out, total_frames_decoded);
    assert(out@ =~= start + spec_frame_ack(frame_id, total_frames_decoded));
}

/// The Capabilities Advertise PDU that the client sends when the graphics
/// channel opens: versions 8, 8.1 (AVC420), 10 and 10.6 (small cache, thin client).
pub open spec fn spec_capabilities_advertise() -> Seq<u8> {
    seq![0x12u8, 0u8, 0u8, 0u8, 58u8, 0u8, 0u8, 0u8, 4u8, 0u8]
        + le32_bytes(CAPS_VERSION_8) + le32_bytes(4) + le32_bytes(0)
        + le32_bytes(CAPS_VERSION_81) + le32_bytes(4) + le32_bytes(CAPS_FLAG_AVC420_ENABLED)
        + le32_bytes(CAPS_VERSION_10) + le32_bytes(4) + le32_bytes(0)
        + le32_bytes(CAPS_VERSION_106) + le32_bytes(4) + le32_bytes((CAPS_FLAG_SMALL_CACHE + CAPS_FLAG_AVC_THIN_CLIENT) as u32)
}

pub fn create_capabilities_advertise() -> (r: Result<Vec<u8>, RdpError>)
    ensures
        (r matches Ok(b) && b@ == spec_capabilities_advertise()),
{
    let mut out: Vec<u8> = Vec::new();
    out.push(0x12);
    out.push(0);
    out.push(0);
    out.push(0);
    out.push(58);
    out.push(0);
    out.push(0);
    out.push(0);
    out.push(4);
    out.push(0);
    push_u32_le(&mut out, CAPS_VERSION_8);
    push_u32_le(&mut out, 4);
    push_u32_le(&mut out, 0);
    push_u32_le(&mut out, CAPS_VERSION_81);
    push_u32_le(&mut out, 4);
    push_u32_le(&mut out, CAPS_FLAG_AVC420_ENABLED);
    push_u32_le(&mut out, CAPS_VERSION_10);
    push_u32_le(&mut out, 4);
    push_u32_le(&mut out, 0);
    push_u32_le(&mut out, CAPS_VERSION_106);
    push_u32_le(&mut out, 4);
    push_u32_le(&mut out, CAPS_FLAG_SMALL_CACHE + CAPS_FLAG_AVC_THIN_CLIENT);
    assert(out@ =~= spec_capabilities_advertise());
    Ok(out)
}

/// Whether the bytes from `pos` on are a sequence of whole graphics PDUs.
pub open spec fn pdus_ok(b: Seq<u8>, pos: int) -> bool
    decreases b.len() - pos,
{
    if pos < 0 || pos > b.len() {
        false
    } else if pos == b.len() {
        true
    } else if pos + 8 > b.len() || le32(b, pos + 4) < 8 || pos + le32(b, pos + 4) > b.len() {
        false
    } else if le16(b, pos) == GFX_CMDID_END_FRAME && le32(b, pos + 4) < 12 {
        false
    } else {
        pdus_ok(b, pos + le32(b, pos + 4))
    }
}

/// The count of decoded frames after one more frame.
pub open spec fn next_count(count: u32) -> u32 {
    if count == u32::MAX {
        0
    } else {
        (count + 1) as u32
    }
}

/// The acknowledgements owed for the End Frame PDUs from `pos` on, when
/// `count` frames were decoded before them.
pub open spec fn acks_from(b: Seq<u8>, pos: int, count: u32) -> Seq<u8>
    decreases b.len() - pos,
{
    if pos < 0 || pos + 8 > b.len() || le32(b, pos + 4) < 8 || pos + le32(b, pos + 4) > b.len() {
        Seq::empty()
    } else if le16(b, pos) == GFX_CMDID_END_FRAME {
        spec_frame_ack(le32(b, pos + 8) as u32, next_count(count)) + acks_from(
            b,
            pos + le32(b, pos + 4),
            next_count(count),
        )
    } else {
        acks_from(b, pos + le32(b, pos + 4), count)
    }
}

/// The count of decoded frames after the End Frame PDUs from `pos` on.
pub open spec fn count_after(b: Seq<u8>, pos: int, count: u32) -> u32
    decreases b.len() - pos,
{
    if pos < 0 || pos + 8 > b.len() || le32(b, pos + 4) < 8 || pos + le32(b, pos + 4) > b.len() {
        count
    } else if le16(b, pos) == GFX_CMDID_END_FRAME {
        count_after(b, pos + le32(b, pos + 4), next_count(count))
    } else {
        count_after(b, pos + le32(b, pos + 4), count)
    }
}

/// The PDUs other than End Frame from `pos` on, in order.
pub open spec fn others_from(b: Seq<u8>, pos: int) -> Seq<Seq<u8>>
    decreases b.len() - pos,
{
    if pos < 0 || pos + 8 > b.len() || le32(b, pos + 4) < 8 || pos + le32(b, pos + 4) > b.len() {
        Seq::empty()
    } else if le16(b, pos) == GFX_CMDID_END_FRAME {
        others_from(b, pos + le32(b, pos + 4))
    } else {
        seq![b.subrange(pos, pos + le32(b, pos + 4))] + others_from(b, pos + le32(b, pos + 4))
    }
}

/// What handling the decompressed PDUs `d` does to a handler and returns.
pub open spec fn pdus_handled(old: Handler, new: Handler, d: Seq<u8>, r: Result<Option<Vec<u8>>, RdpError>) -> bool {
    &&& r.is_ok() <==> pdus_ok(d, 0)
    &&& r.is_ok() ==> new.spec_frames_decoded() == count_after(d, 0, old.spec_frames_decoded())
    &&& r.is_ok() ==> new.spec_forwarded() == old.spec_forwarded() + if old.spec_forward() {
        others_from(d, 0)
    } else {
        Seq::empty()
    }
    &&& new.spec_forward() == old.spec_forward()
    &&& r matches Ok(Some(v)) ==> v@ == acks_from(d, 0, old.spec_frames_decoded()) && v@.len() > 0
    &&& r matches Ok(None) ==> acks_from(d, 0, old.spec_frames_decoded()).len() == 0
    &&& r matches Err(e) ==> e == RdpError::GfxError
}

/// What handling one reassembled graphics channel message does: it is
/// decompressed against the handler's history, then the PDUs it holds are handled.
pub open spec fn gfx_processed(old: Handler, new: Handler, msg: Seq<u8>, r: Result<Option<Vec<u8>>, RdpError>) -> bool {
    match spec_zgfx(old.spec_history(), msg) {
        None => r == Err::<Option<Vec<u8>>, RdpError>(RdpError::ZgfxError) && new.spec_frames_decoded()
            == old.spec_frames_decoded() && new.spec_forward() == old.spec_forward() && new.spec_forwarded()
            == old.spec_forwarded(),
        Some((h, d)) => new.spec_history() == h && pdus_handled(old, new, d, r),
    }
}

/// Graphics pipeline options of a connection.
pub struct GraphicsConfig {
    pub avc444: bool,
    pub h264: bool,
    pub thin_client: bool,
    pub small_cache: bool,
    pub capabilities: u32,
}

/// The graphics pipeline handler.
pub struct Handler {
    history: Vec<u8>,
    frames_decoded: u32,
    forward: bool,
    forwarded: Vec<Vec<u8>>,
}

impl Handler {
    pub closed spec fn spec_frames_decoded(&self) -> u32 {
        self.frames_decoded
    }

    /// The decompressor's history of earlier output.
    pub closed spec fn spec_history(&self) -> Seq<u8> {
        self.history@
    }

    pub closed spec fn spec_forward(&self) -> bool {
        self.forward
    }

    /// The PDUs kept for the observer, oldest first.
    pub closed spec fn spec_forwarded(&self) -> Seq<Seq<u8>> {
        self.forwarded@.map_values(|v: Vec<u8>| v@)
    }

    /// A handler; with `forward`, PDUs other than End Frame are kept for an observer.
    pub fn new(forward: bool) -> (r: Self)
        ensures
            r.spec_frames_decoded() == 0,
            r.spec_forward() == forward,
            r.spec_forwarded().len() == 0,
            r.spec_history().len() == 0,
    {
        let h = Handler { history: Vec::new(), frames_decoded: 0, forward, forwarded: Vec::new() };
        assert(h.spec_forwarded() =~= Seq::<Seq<u8>>::empty());
        h
    }

    pub fn frames_decoded(&self) -> (r: u32)
        ensures
            r == self.spec_frames_decoded(),
    {
        self.frames_decoded
    }

    /// Hands out the PDUs kept for the observer, oldest first.
    pub fn take_forwarded(&mut self) -> (r: Vec<Vec<u8>>)
        ensures
            final(self).spec_frames_decoded() == old(self).spec_frames_decoded(),
            final(self).spec_forward() == old(self).spec_forward(),
            final(self).spec_history() == old(self).spec_history(),
            final(self).spec_forwarded().len() == 0,
            r@.map_values(|v: Vec<u8>| v@) == old(self).spec_forwarded(),
    {
        let mut out: Vec<Vec<u8>> = Vec::new();
        std::mem::swap(&mut out, &mut self.forwarded);
        assert(self.spec_forwarded() =~= Seq::<Seq<u8>>::empty());
        out
    }

    /// Handles a decompressed run of graphics PDUs: each End Frame counts a
    /// frame and is acknowledged. Returns the acknowledgements, if any.
    pub fn process_decompressed(&mut self, b: &[u8]) -> (r: Result<Option<Vec<u8>>, RdpError>)
        ensures
            pdus_handled(*old(self), *final(self), b@, r),
            final(self).spec_history() == old(self).spec_history(),
    {
        let n = b.len();
        let mut replies: Vec<u8> = Vec::new();
        let mut pos: usize = 0;
        let ghost count0 = self.frames_decoded;
        while pos < n
            invariant
                pos <= n,
                n == b@.len(),
                pdus_ok(b@, 0) <==> pdus_ok(b@, pos as int),
                replies@ + acks_from(b@, pos as int, self.frames_decoded) == acks_from(b@, 0, count0),
                count_after(b@, pos as int, self.frames_decoded) == count_after(b@, 0, count0),
                self.forward == old(self).forward,
                self.history == old(self).history,
                count0 == old(self).frames_decoded,
                old(self).spec_forwarded() + (if self.forward { others_from(b@, 0) } else { Seq::empty() })
                    == self.spec_forwarded() + (if self.forward { others_from(b@, pos as int) } else { Seq::empty() }),
            decreases n - pos,
        {
            if n - pos < 8 {
                return Err(RdpError::GfxError);
            }
            let cmd = read_u16_le(b, pos);
            let len = read_u32_le(b, pos + 4) as usize;
            if len < 8 || len > n - pos {
                return Err(RdpError::GfxError);
            }
            if cmd == GFX_CMDID_END_FRAME {
                if len < 12 {
                    return Err(RdpError::GfxError);
                }
                let frame_id = read_u32_le(b, pos + 8);
                let ghost c_before = self.frames_decoded;
                let count = if self.frames_decoded == u32::MAX { 0 } else { self.frames_decoded + 1 };
                self.frames_decoded = count;
                let ghost before = replies@;
                encode_frame_acknowledge(&mut replies, frame_id, count);
                assert(replies@ + acks_from(b@, pos + len, count) == before + acks_from(b@, pos as int, c_before)) by {
                    assert(before + spec_frame_ack(frame_id, count) + acks_from(b@, pos + len, count)
                        =~= before + (spec_frame_ack(frame_id, count) + acks_from(b@, pos + len, count)));
                }
            } else if self.forward {
                let ghost fw = self.spec_forwarded();
                let item = vstd::slice::slice_to_vec(&b[pos..pos + len]);
                self.forwarded.push(item);
                assert(self.spec_forwarded() =~= fw.push(b@.subrange(pos as int, pos + len)));
                assert(fw + others_from(b@, pos as int) =~= self.spec_forwarded() + others_from(b@, pos + len));
            }
            pos = pos + len;
        }
        assert(replies@ + acks_from(b@, n as int, self.frames_decoded) =~= replies@);
        assert(self.spec_forwarded() + Seq::<Seq<u8>>::empty() =~= self.spec_forwarded());
        if replies.len() > 0 {
            Ok(Some(replies))
        } else {
            Ok(None)
        }
    }

    /// Handles one reassembled message of the graphics channel: unwraps its
    /// ZGFX segments, then handles the PDUs they hold.
    pub fn process_complete_data(&mut self, complete_data: Vec<u8>) -> (r: Result<Option<Vec<u8>>, RdpError>)
        ensures
            gfx_processed(*old(self), *final(self), complete_data@, r),
            r matches Err(e) ==> e == RdpError::GfxError || e == RdpError::ZgfxError,
    {
        let data = zgfx_decompress(&mut self.history, complete_data.as_slice())?;
        self.process_decompressed(data.as_slice())
    }
}

} // verus!
