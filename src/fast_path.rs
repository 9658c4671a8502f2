//! The fast-path processor: surface commands carrying RemoteFX frames.
use vstd::prelude::*;
use crate::error::RdpError;
use crate::image::{DecodedImage, PixelFormat};
use crate::region::Rectangle;
use crate::rfx::{decoded, DecodingContext, FrameId};
use crate::wire::{le16, le32, read_u16_le, read_u32_le};

verus! {

pub const FASTPATH_UPDATE_SURFACE_COMMANDS: u8 = 0x4;
pub const FASTPATH_FRAGMENT_SINGLE: u8 = 0x0;
pub const FASTPATH_COMPRESSION_USED: u8 = 0x2;
pub const CMDTYPE_SET_SURFACE_BITS: u16 = 0x0001;
pub const CMDTYPE_FRAME_MARKER: u16 = 0x0004;
pub const CMDTYPE_STREAM_SURFACE_BITS: u16 = 0x0006;
/// Codec id under which RemoteFX was negotiated.
pub const RFX_CODEC_ID: u8 = 3;
const EX_COMPRESSED_BITMAP_HEADER_PRESENT: u8 = 0x01;

/// One fast-path update: its update code and data.
pub struct FastPathUpdate {
    pub update_code: u8,
    pub fragmentation: u8,
    pub data: Vec<u8>,
}

pub open spec fn update_view(u: FastPathUpdate) -> (u8, u8, Seq<u8>) {
    (u.update_code, u.fragmentation, u.data@)
}

/// `xs` followed by the items of `o`, if there are any.
pub open spec fn prepend<T>(xs: Seq<T>, o: Option<Seq<T>>) -> Option<Seq<T>> {
    match o {
        Some(r) => Some(xs + r),
        None => None,
    }
}

/// The updates from `pos` on: each a header byte (update code in the low four
/// bits, fragmentation in the next two, compression in the top two), a
/// compression byte when compression is used, a 16-bit size and the data.
pub open spec fn spec_updates(b: Seq<u8>, pos: int) -> Option<Seq<(u8, u8, Seq<u8>)>>
    decreases b.len() - pos,
{
    if pos < 0 || pos >= b.len() {
        Some(Seq::empty())
    } else {
        let h = b[pos];
        let at = if h / 64 == FASTPATH_COMPRESSION_USED { pos + 2 } else { pos + 1 };
        if at + 2 > b.len() || at + 2 + le16(b, at) > b.len() {
            None
        } else {
            let start = at + 2;
            let size = le16(b, at);
            prepend(seq![((h % 16) as u8, ((h / 16) % 4) as u8, b.subrange(start, start + size))], spec_updates(b, start + size))
        }
    }
}

/// Splits the payload of a fast-path output PDU into its updates.
pub fn parse_updates(b: &[u8]) -> (r: Result<Vec<FastPathUpdate>, RdpError>)
    ensures
        r.is_ok() <==> spec_updates(b@, 0) is Some,
        r matches Err(e) ==> e == RdpError::FastPathError,
        r matches Ok(v) ==> v@.map_values(|u: FastPathUpdate| update_view(u)) == spec_updates(b@, 0).unwrap(),
{
    let n = b.len();
    let mut updates: Vec<FastPathUpdate> = Vec::new();
    let mut pos: usize = 0;
    while pos < n
        invariant
            pos <= n,
            n == b@.len(),
            spec_updates(b@, 0) == prepend(updates@.map_values(|u: FastPathUpdate| update_view(u)), spec_updates(b@, pos as int)),
        decreases n - pos,
    {
        let ghost xs = updates@.map_values(|u: FastPathUpdate| update_view(u));
        let header = b[pos];
        let update_code = header % 16;
        let fragmentation = (header / 16) % 4;
        let compression = header / 64;
        let mut at = pos + 1;
        if compression == FASTPATH_COMPRESSION_USED {
            if at >= n {
                return Err(RdpError::FastPathError);
            }
            at = at + 1;
        }
        if at > n || n - at < 2 {
            return Err(RdpError::FastPathError);
        }
        let size = read_u16_le(b, at) as usize;
        at = at + 2;
        if size > n - at {
            return Err(RdpError::FastPathError);
        }
        let data = vstd::slice::slice_to_vec(&b[at..at + size]);
        updates.push(FastPathUpdate { update_code, fragmentation, data });
        proof {
            let x = (update_code, fragmentation, b@.subrange(at as int, at + size));
            assert(updates@.map_values(|u: FastPathUpdate| update_view(u)) =~= xs.push(x));
            match spec_updates(b@, at + size) {
                Some(rest) => {
                    assert(xs + (seq![x] + rest) =~= xs.push(x) + rest);
                },
                None => {},
            }
        }
        pos = at + size;
    }
    proof {
        let xs = updates@.map_values(|u: FastPathUpdate| update_view(u));
        assert(xs + Seq::<(u8, u8, Seq<u8>)>::empty() =~= xs);
    }
    Ok(updates)
}

/// A surface command that carries codec data.
pub struct SurfaceBits {
    pub destination: Rectangle,
    pub codec_id: u8,
    pub data: Vec<u8>,
}

pub open spec fn surface_bits_view(c: SurfaceBits) -> (Rectangle, u8, Seq<u8>) {
    (c.destination, c.codec_id, c.data@)
}

/// The surface-bits commands from `pos` on. A frame marker is a command type
/// and six bytes; surface bits are a command type, the destination
/// rectangle, a bitmap data header (with codec id and data length), an
/// optional extended header and the data.
pub open spec fn spec_commands(b: Seq<u8>, pos: int) -> Option<Seq<(Rectangle, u8, Seq<u8>)>>
    decreases b.len() - pos,
{
    if pos < 0 || pos >= b.len() {
        Some(Seq::empty())
    } else if pos + 2 > b.len() {
        None
    } else {
        let cmd = le16(b, pos);
        let at = pos + 2;
        if cmd == CMDTYPE_FRAME_MARKER {
            if at + 6 > b.len() {
                None
            } else {
                spec_commands(b, at + 6)
            }
        } else if cmd == CMDTYPE_SET_SURFACE_BITS || cmd == CMDTYPE_STREAM_SURFACE_BITS {
            if at + 20 > b.len() {
                None
            } else {
                let destination = Rectangle {
                    left: le16(b, at) as u16,
                    top: le16(b, at + 2) as u16,
                    right: le16(b, at + 4) as u16,
                    bottom: le16(b, at + 6) as u16,
                };
                let start = if b[at + 9] % 2 == 1 { at + 44 } else { at + 20 };
                let length = le32(b, at + 16);
                if start > b.len() || start + length > b.len() {
                    None
                } else {
                    prepend(seq![(destination, b[at + 11], b.subrange(start, start + length))], spec_commands(b, start + length))
                }
            }
        } else {
            None
        }
    }
}

/// The surface-bits commands among the surface commands in `b`; frame
/// markers are passed over.
pub fn parse_surface_commands(b: &[u8]) -> (r: Result<Vec<SurfaceBits>, RdpError>)
    ensures
        r.is_ok() <==> spec_commands(b@, 0) is Some,
        r matches Err(e) ==> e == RdpError::FastPathError,
        r matches Ok(v) ==> v@.map_values(|c: SurfaceBits| surface_bits_view(c)) == spec_commands(b@, 0).unwrap(),
{
    let n = b.len();
    let mut out: Vec<SurfaceBits> = Vec::new();
    let mut pos: usize = 0;
    while pos < n
        invariant
            pos <= n,
            n == b@.len(),
            spec_commands(b@, 0) == prepend(out@.map_values(|c: SurfaceBits| surface_bits_view(c)), spec_commands(b@, pos as int)),
        decreases n - pos,
    {
        let ghost xs = out@.map_values(|c: SurfaceBits| surface_bits_view(c));
        if n - pos < 2 {
            return Err(RdpError::FastPathError);
        }
        let cmd = read_u16_le(b, pos);
        let at = pos + 2;
        if cmd == CMDTYPE_FRAME_MARKER {
            if n - at < 6 {
                return Err(RdpError::FastPathError);
            }
            pos = at + 6;
        } else if cmd == CMDTYPE_SET_SURFACE_BITS || cmd == CMDTYPE_STREAM_SURFACE_BITS {
            if n - at < 20 {
                return Err(RdpError::FastPathError);
            }
            let destination = Rectangle {
                left: read_u16_le(b, at),
                top: read_u16_le(b, at + 2),
                right: read_u16_le(b, at + 4),
                bottom: read_u16_le(b, at + 6),
            };
            let flags = b[at + 9];
            let codec_id = b[at + 11];
            let length = read_u32_le(b, at + 16) as usize;
            let mut start = at + 20;
            if flags % 2 == EX_COMPRESSED_BITMAP_HEADER_PRESENT {
                if n - start < 24 {
                    return Err(RdpError::FastPathError);
                }
                start = start + 24;
            }
            if length > n - start {
                return Err(RdpError::FastPathError);
            }
            let data = vstd::slice::slice_to_vec(&b[start..start + length]);
            out.push(SurfaceBits { destination, codec_id, data });
            proof {
                let x = (destination, codec_id, b@.subrange(start as int, start + length));
                assert(out@.map_values(|c: SurfaceBits| surface_bits_view(c)) =~= xs.push(x));
                match spec_commands(b@, start + length) {
                    Some(rest) => {
                        assert(xs + (seq![x] + rest) =~= xs.push(x) + rest);
                    },
                    None => {},
                }
            }
            pos = start + length;
        } else {
            return Err(RdpError::FastPathError);
        }
    }
    proof {
        let xs = out@.map_values(|c: SurfaceBits| surface_bits_view(c));
        assert(xs + Seq::<(Rectangle, u8, Seq<u8>)>::empty() =~= xs);
    }
    Ok(out)
}

/// The surface commands of the updates from `k` on: those of every
/// unfragmented surface-commands update, in order.
pub open spec fn commands_from(us: Seq<(u8, u8, Seq<u8>)>, k: int) -> Option<Seq<(Rectangle, u8, Seq<u8>)>>
    decreases us.len() - k,
{
    if k < 0 || k >= us.len() {
        Some(Seq::empty())
    } else if us[k].0 == FASTPATH_UPDATE_SURFACE_COMMANDS && us[k].1 == FASTPATH_FRAGMENT_SINGLE {
        match spec_commands(us[k].2, 0) {
            None => None,
            Some(cs) => prepend(cs, commands_from(us, k + 1)),
        }
    } else {
        commands_from(us, k + 1)
    }
}

/// The surface commands of a fast-path output PDU payload.
pub open spec fn fp_commands(payload: Seq<u8>) -> Option<Seq<(Rectangle, u8, Seq<u8>)>> {
    match spec_updates(payload, 0) {
        None => None,
        Some(us) => commands_from(us, 0),
    }
}

/// Running the surface commands `cmds` from `p0` reaches `p1`; `ok` tells
/// whether every RemoteFX frame decoded. Commands of other codecs are passed over.
pub open spec fn rfx_run(p0: FastPathProcessor, p1: FastPathProcessor, cmds: Seq<(Rectangle, u8, Seq<u8>)>, ok: bool) -> bool
    decreases cmds.len(),
{
    if cmds.len() == 0 {
        ok && p1 == p0
    } else if cmds[0].1 != RFX_CODEC_ID {
        rfx_run(p0, p1, cmds.drop_first(), ok)
    } else {
        exists|q: FastPathProcessor, r: Result<(FrameId, Rectangle), RdpError>|
            #[trigger] decoded(p0.spec_rfx(), q.spec_rfx(), p0.spec_image(), q.spec_image(), cmds[0].0, cmds[0].2, r)
                && match r {
                Err(_) => !ok,
                Ok((f, d)) => q.spec_damaged() == Some(d) && q.spec_last_frame() == Some(f) && rfx_run(
                    q,
                    p1,
                    cmds.drop_first(),
                    ok,
                ),
            }
    }
}

/// What handling the payload of one fast-path output PDU does and returns:
/// every RemoteFX surface command is decoded in order into the framebuffer.
pub open spec fn fast_path_processed(old: FastPathProcessor, new: FastPathProcessor, payload: Seq<u8>, r: Result<(), RdpError>) -> bool {
    match fp_commands(payload) {
        None => r == Err::<(), RdpError>(RdpError::FastPathError) && new == old,
        Some(cmds) => (r is Ok ==> rfx_run(old, new, cmds, true)) && (r is Err ==> rfx_run(old, new, cmds, false)),
    }
}

/// Decodes fast-path graphics updates into the framebuffer.
pub struct FastPathProcessor {
    rfx: DecodingContext,
    image: DecodedImage,
    damaged: Option<Rectangle>,
    last_frame: Option<FrameId>,
}

impl FastPathProcessor {
    pub closed spec fn wf(&self) -> bool {
        self.rfx.wf() && self.image.wf()
    }

    /// A processor drawing into a zeroed framebuffer of the desktop's size,
    /// unless the framebuffer would not fit in the address space.
    pub fn new(width: u16, height: u16, pixel_format: PixelFormat) -> (r: Result<Self, RdpError>)
        ensures
            r matches Ok(p) ==> p.wf(),
            width * height * 4 <= usize::MAX ==> r.is_ok(),
    {
        assert(width as u64 * height as u64 <= 0xFFFF * 0xFFFF) by (nonlinear_arith)
            requires
                width <= 0xFFFF,
                height <= 0xFFFF,
        ;
        let size = width as u64 * height as u64 * 4;
        if size > usize::MAX as u64 {
            return Err(RdpError::InvalidLength);
        }
        Ok(FastPathProcessor {
            rfx: DecodingContext::new(),
            image: DecodedImage::new(width as u32, height as u32, pixel_format),
            damaged: None,
            last_frame: None,
        })
    }

    pub closed spec fn spec_rfx(&self) -> DecodingContext {
        self.rfx
    }

    pub closed spec fn spec_image(&self) -> DecodedImage {
        self.image
    }

    pub closed spec fn spec_damaged(&self) -> Option<Rectangle> {
        self.damaged
    }

    pub closed spec fn spec_last_frame(&self) -> Option<FrameId> {
        self.last_frame
    }

    pub fn image(&self) -> (r: &DecodedImage)
        ensures
            *r == self.spec_image(),
    {
        &self.image
    }

    /// The repainted rectangle of the last RemoteFX frame, if one was decoded;
    /// it is handed out once.
    pub fn take_damaged(&mut self) -> (r: Option<Rectangle>)
        requires
            old(self).wf(),
        ensures
            final(self).wf(),
            r == old(self).spec_damaged(),
            final(self).spec_damaged() is None,
            final(self).spec_image() == old(self).spec_image(),
            final(self).spec_last_frame() == old(self).spec_last_frame(),
    {
        let d = self.damaged;
        self.damaged = None;
        d
    }

    pub fn last_frame(&self) -> (r: Option<FrameId>)
        ensures
            r == self.spec_last_frame(),
    {
        self.last_frame
    }

    /// Handles the payload of one fast-path output PDU. RemoteFX surface bits
    /// go to the RemoteFX decoder; other updates are passed over.
    pub fn process(&mut self, payload: &[u8]) -> (r: Result<(), RdpError>)
        requires
            old(self).wf(),
        ensures
            final(self).wf(),
            fast_path_processed(*old(self), *final(self), payload@, r),
    {
        let updates = match parse_updates(payload) {
            Ok(u) => u,
            Err(e) => return Err(e),
        };
        let ghost us = updates@.map_values(|u: FastPathUpdate| update_view(u));
        // the surface commands of all updates, in order
        let mut cmds: Vec<SurfaceBits> = Vec::new();
        let mut i: usize = 0;
        while i < updates.len()
            invariant
                us == updates@.map_values(|u: FastPathUpdate| update_view(u)),
                us == spec_updates(payload@, 0).unwrap(),
                spec_updates(payload@, 0) is Some,
                i <= updates@.len(),
                us.len() == updates@.len(),
                *self == *old(self),
                self.wf(),
                fp_commands(payload@) == prepend(cmds@.map_values(|c: SurfaceBits| surface_bits_view(c)), commands_from(us, i as int)),
            decreases updates@.len() - i,
        {
            let u = &updates[i];
            let ghost xs = cmds@.map_values(|c: SurfaceBits| surface_bits_view(c));
            if u.update_code == FASTPATH_UPDATE_SURFACE_COMMANDS && u.fragmentation == FASTPATH_FRAGMENT_SINGLE {
                assert(us[i as int].2 == u.data@ && us[i as int].1 == u.fragmentation);
                let mut commands = match parse_surface_commands(u.data.as_slice()) {
                    Ok(c) => c,
                    Err(e) => {
                        assert(commands_from(us, i as int) is None);
                        return Err(e);
                    },
                };
                let ghost cs = commands@.map_values(|c: SurfaceBits| surface_bits_view(c));
                cmds.append(&mut commands);
                proof {
                    assert(cmds@.map_values(|c: SurfaceBits| surface_bits_view(c)) =~= xs + cs);
                    match commands_from(us, i + 1) {
                        Some(rest) => {
                            assert(xs + (cs + rest) =~= (xs + cs) + rest);
                        },
                        None => {},
                    }
                }
            }
            i += 1;
        }
        proof {
            let xs = cmds@.map_values(|c: SurfaceBits| surface_bits_view(c));
            assert(xs + Seq::<(Rectangle, u8, Seq<u8>)>::empty() =~= xs);
        }
        let ghost all = cmds@.map_values(|c: SurfaceBits| surface_bits_view(c));
        let ghost p0 = *self;
        assert(fp_commands(payload@) == Some(all));
        assert(all.subrange(0, all.len() as int) =~= all);
        let mut k: usize = 0;
        while k < cmds.len()
            invariant
                self.wf(),
                k <= cmds@.len(),
                all == cmds@.map_values(|c: SurfaceBits| surface_bits_view(c)),
                p0 == *old(self),
                fp_commands(payload@) == Some(all),
                forall|pf: FastPathProcessor, ok: bool|
                    #[trigger] rfx_run(*self, pf, all.subrange(k as int, all.len() as int), ok) ==> rfx_run(p0, pf, all, ok),
            decreases cmds@.len() - k,
        {
            let c = &cmds[k];
            let ghost before = *self;
            let ghost rest = all.subrange(k as int, all.len() as int);
            assert(rest[0] == surface_bits_view(*c));
            assert(rest.drop_first() =~= all.subrange(k + 1, all.len() as int));
            if c.codec_id == RFX_CODEC_ID {
                let r = self.rfx.decode(&mut self.image, &c.destination, c.data.as_slice());
                match r {
                    Ok((frame, damage)) => {
                        self.damaged = Some(damage);
                        self.last_frame = Some(frame);
                        proof {
                            assert forall|pf: FastPathProcessor, ok: bool|
                                #[trigger] rfx_run(*self, pf, all.subrange(k + 1, all.len() as int), ok) implies rfx_run(p0, pf, all, ok) by {
                                assert(decoded(before.spec_rfx(), self.spec_rfx(), before.spec_image(), self.spec_image(), rest[0].0, rest[0].2, r));
                                assert(rfx_run(before, pf, rest, ok));
                            }
                        }
                    },
                    Err(e) => {
                        proof {
                            assert(decoded(before.spec_rfx(), self.spec_rfx(), before.spec_image(), self.spec_image(), rest[0].0, rest[0].2, r));
                            assert(rfx_run(before, *self, rest, false));
                            assert(rfx_run(p0, *self, all, false));
                        }
                        return Err(e);
                    },
                }
            } else {
                proof {
                    assert forall|pf: FastPathProcessor, ok: bool|
                        #[trigger] rfx_run(*self, pf, all.subrange(k + 1, all.len() as int), ok) implies rfx_run(p0, pf, all, ok) by {
                        assert(rfx_run(before, pf, rest, ok));
                    }
                }
            }
            k += 1;
        }
        proof {
            assert(all.subrange(cmds@.len() as int, all.len() as int) =~= Seq::<(Rectangle, u8, Seq<u8>)>::empty());
            assert(rfx_run(*self, *self, all.subrange(cmds@.len() as int, all.len() as int), true));
        }
        Ok(())
    }
}

} // verus!
