//! The RemoteFX sequence engine: header and data messages, tile decoding and
//! blitting into the framebuffer.
use vstd::prelude::*;
use crate::dwt::dwt_decode;
use crate::error::{RdpError, RfxError};
use crate::image::DecodedImage;
use crate::region::{
    all_nonempty, bounding_box, contains, covered, lemma_bounding_box_unique, pairwise_disjoint, within, Rectangle,
    Region,
};
use crate::rfx_messages::{
    parse_frame_begin, parse_frame_end, parse_header, parse_region, parse_sync, parse_tile_set,
    block_end, block_fits, spec_channel, spec_context, spec_quant, spec_rfx_rect, spec_tiles, tile_view,
    BLOCK_CHANNELS, BLOCK_CONTEXT, BLOCK_SYNC, SYNC_MAGIC, SYNC_VERSION, header_ok, tile_set_ok, BLOCK_FRAME_BEGIN,
    BLOCK_REGION, BLOCK_FRAME_END, ChannelsPdu, ContextPdu, EntropyAlgorithm,
    Headers, Quant, RfxChannel, RfxRectangle, Tile, TileView, IMAGE_MODE,
};
use crate::image::{converted, pix, tile_source, PixelFormat};
use crate::wire::{le16, le32};
use crate::rfx_tile::{
    band_factor, blue, decode_ll3, dequantize, dequantized, green, ll3_value, red, ycbcr_to_bgra, LL3_START,
    TILE_BYTES,
    TILE_PIXELS,
};
use crate::dwt::idwt;
use crate::rlgr::{lemma_rlgr_ignores_buffer, rlgr_decode, rlgr_decoded};

verus! {

pub const TILE_SIZE: u16 = 64;

pub type FrameId = u32;

#[derive(Clone, Copy, Debug, PartialEq, Eq, Structural)]
pub enum SequenceState {
    HeaderMessages,
    DataMessages,
}

/// The three scratch buffers reused for every tile.
struct DecodingTileContext {
    tile_output: Vec<u8>,
    y: Vec<i16>,
    cb: Vec<i16>,
    cr: Vec<i16>,
    temp: Vec<i16>,
}

impl DecodingTileContext {
    spec fn wf(&self) -> bool {
        &&& self.tile_output@.len() == TILE_BYTES
        &&& self.y@.len() == TILE_PIXELS
        &&& self.cb@.len() == TILE_PIXELS
        &&& self.cr@.len() == TILE_PIXELS
        &&& self.temp@.len() == TILE_PIXELS
    }

    fn new() -> (r: Self)
        ensures
            r.wf(),
            r.tile_output@ == Seq::new(TILE_BYTES as nat, |i: int| 0u8),
            r.y@ == Seq::new(TILE_PIXELS as nat, |i: int| 0i16),
            r.cb@ == Seq::new(TILE_PIXELS as nat, |i: int| 0i16),
            r.cr@ == Seq::new(TILE_PIXELS as nat, |i: int| 0i16),
            r.temp@ == Seq::new(TILE_PIXELS as nat, |i: int| 0i16),
    {
        DecodingTileContext {
            tile_output: vec![0u8; TILE_BYTES],
            y: vec![0i16; TILE_PIXELS],
            cb: vec![0i16; TILE_PIXELS],
            cr: vec![0i16; TILE_PIXELS],
            temp: vec![0i16; TILE_PIXELS],
        }
    }
}

/// Whether every factor of a quantization table is a 4-bit value.
pub open spec fn quant_ok(q: Quant) -> bool {
    q.ll3 < 16 && q.lh3 < 16 && q.hl3 < 16 && q.hh3 < 16 && q.lh2 < 16 && q.hl2 < 16 && q.hh2 < 16
        && q.lh1 < 16 && q.hl1 < 16 && q.hh1 < 16
}

/// Whether the Sync block at the start of `b` is well formed.
pub open spec fn sync_ok(b: Seq<u8>) -> bool {
    block_fits(b, 0, BLOCK_SYNC, 12) && le32(b, 6) == SYNC_MAGIC && le16(b, 10) == SYNC_VERSION
}

/// Position of header block `i` after Sync.
pub open spec fn header_pos(b: Seq<u8>, i: nat) -> int
    decreases i,
{
    if i == 0 {
        block_end(b, 0)
    } else {
        block_end(b, header_pos(b, (i - 1) as nat))
    }
}

/// Whether the first `i` header blocks are well formed.
pub open spec fn headers_ok(b: Seq<u8>, i: nat) -> bool
    decreases i,
{
    i == 0 || (headers_ok(b, (i - 1) as nat) && header_pos(b, (i - 1) as nat) + 6 <= b.len() && header_ok(
        b,
        header_pos(b, (i - 1) as nat),
    ))
}

/// The last Context among the first `i` header blocks.
pub open spec fn last_context(b: Seq<u8>, i: nat) -> Option<ContextPdu>
    decreases i,
{
    if i == 0 {
        None
    } else if le16(b, header_pos(b, (i - 1) as nat)) == BLOCK_CONTEXT {
        spec_context(b, header_pos(b, (i - 1) as nat))
    } else {
        last_context(b, (i - 1) as nat)
    }
}

/// The channels of the last Channels block among the first `i` header blocks.
pub open spec fn last_channels(b: Seq<u8>, i: nat) -> Option<Seq<RfxChannel>>
    decreases i,
{
    if i == 0 {
        None
    } else if le16(b, header_pos(b, (i - 1) as nat)) == BLOCK_CHANNELS {
        let p = header_pos(b, (i - 1) as nat);
        Some(Seq::new(b[p + 6] as nat, |k: int| spec_channel(b, p + 7 + 5 * k)))
    } else {
        last_channels(b, (i - 1) as nat)
    }
}

proof fn lemma_headers_ok_prefix(b: Seq<u8>, i: nat, j: nat)
    requires
        i <= j,
        !headers_ok(b, i),
    ensures
        !headers_ok(b, j),
    decreases j - i,
{
    if i < j {
        lemma_headers_ok_prefix(b, i, (j - 1) as nat);
    }
}

/// Whether the header messages at the start of `b` are well formed and
/// announce a Context and a non-empty list of channels.
pub open spec fn headers_good(b: Seq<u8>) -> bool {
    sync_ok(b) && headers_ok(b, 3) && last_context(b, 3) is Some && last_channels(b, 3) is Some && last_channels(
        b,
        3,
    ).unwrap().len() > 0
}

/// Where the frame starts: after the header messages when they are due.
pub open spec fn frame_pos(b: Seq<u8>, headers_due: bool) -> int {
    if headers_due { header_pos(b, 3) } else { 0 }
}

/// `damage` is the bounding box of the clipping region of the frame at `pos`:
/// of disjoint non-empty rectangles covering exactly its clipped rectangles.
pub open spec fn damage_of(damage: Rectangle, b: Seq<u8>, pos: int, destination: Rectangle, width: u16, height: u16) -> bool {
    exists|rs: Seq<Rectangle>|
        #[trigger] pairwise_disjoint(rs) && all_nonempty(rs) && damage == bounding_box(rs) && (forall|x: int, y: int|
            covered(rs, x, y) <==> covered(clip_rects(frame_rects(b, pos, width, height), destination, width, height), x, y))
}

/// Whether the operating mode flags select image mode.
pub open spec fn image_mode(flags: u8) -> bool {
    (flags / IMAGE_MODE) % 2 == 1
}

/// What decoding `input` does to the decoding state and the framebuffer, and
/// what it returns.
#[verifier::opaque]
pub open spec fn decoded(
    old: DecodingContext,
    new: DecodingContext,
    old_image: DecodedImage,
    new_image: DecodedImage,
    destination: Rectangle,
    input: Seq<u8>,
    r: Result<(FrameId, Rectangle), RdpError>,
) -> bool {
    &&& r.is_ok() ==> new.spec_channels().len() > 0
    &&& r matches Ok((_, damage)) ==> {
                let w = new.spec_channels()[0].width as u16;
                let h = new.spec_channels()[0].height as u16;
                &&& within(damage, w as int, h as int)
                &&& exists|rs: Seq<Rectangle>|
                    pairwise_disjoint(rs) && all_nonempty(rs) && damage == bounding_box(rs) && forall|k: int|
                        0 <= k < rs.len() ==> within(#[trigger] rs[k], w as int, h as int)
            }
    &&& r.is_ok() && !image_mode(new.spec_context().flags) ==> new.spec_state()
                == SequenceState::DataMessages
    &&& r.is_ok() && image_mode(new.spec_context().flags) ==> new.spec_state()
                == SequenceState::HeaderMessages
    &&& new_image.spec_width() == old_image.spec_width()
    &&& new_image.spec_height() == old_image.spec_height()
    &&& new_image.spec_format() == old_image.spec_format()
    &&& old.spec_state() == SequenceState::HeaderMessages ==> ({
                let b = input;
                let ok = sync_ok(b) && headers_ok(b, 3);
                &&& r == Err::<(FrameId, Rectangle), RdpError>(RdpError::MandatoryHeaderIsAbsent) <==> ok && (
                last_context(b, 3) is None || last_channels(b, 3) is None)
                &&& r == Err::<(FrameId, Rectangle), RdpError>(RdpError::NoRfxChannelsAnnounced) <==> (ok
                    && last_context(b, 3) is Some && last_channels(b, 3) is Some && last_channels(b, 3).unwrap().len()
                    == 0)
            })
    &&& ({
                let b = input;
                let hdr = old.spec_state() == SequenceState::HeaderMessages;
                let p = frame_pos(b, hdr);
                let good = headers_good(b);
                let mode = if hdr { last_context(b, 3).unwrap().entropy_algorithm } else { old.spec_context().entropy_algorithm };
                &&& hdr && !good ==> r is Err && new == old && new_image == old_image
                &&& hdr && good ==> Some(new.spec_context()) == last_context(b, 3) && Some(
                    new.spec_channels(),
                ) == last_channels(b, 3)
                &&& !hdr ==> new.spec_context() == old.spec_context() && new.spec_channels()
                    == old.spec_channels()
                &&& r.is_ok() <==> (!hdr || good) && frame_ok(b, p, destination, mode)
                &&& r is Err && (!hdr || good) && !frame_blocks_ok(b, p) ==> new_image.bytes() == old_image.bytes()
                &&& r is Err && (!hdr || good) && frame_blocks_ok(b, p) ==> r == Err::<(FrameId, Rectangle), RdpError>(
                    RdpError::Rfx(tile_error(frame_tiles(b, p)[first_bad_tile(b, p, destination, mode)], frame_quants(b, p), destination)),
                )
                &&& r is Err && (!hdr || good) && frame_blocks_ok(b, p) ==> frame_partly_drawn(
                    old_image.bytes(),
                    new_image.bytes(),
                    old_image.spec_width(),
                    old_image.spec_height(),
                    old_image.spec_format(),
                    b,
                    p,
                    destination,
                    new.spec_channels()[0].width as u16,
                    new.spec_channels()[0].height as u16,
                    mode,
                    first_bad_tile(b, p, destination, mode),
                )
                &&& r matches Ok((id, _)) ==> id == le32(b, p + 8)
                &&& r matches Ok((_, damage)) ==> damage_of(
                    damage,
                    b,
                    p,
                    destination,
                    new.spec_channels()[0].width as u16,
                    new.spec_channels()[0].height as u16,
                )
                &&& r is Ok ==> frame_drawn(
                    old_image.bytes(),
                    new_image.bytes(),
                    old_image.spec_width(),
                    old_image.spec_height(),
                    old_image.spec_format(),
                    b,
                    p,
                    destination,
                    new.spec_channels()[0].width as u16,
                    new.spec_channels()[0].height as u16,
                    mode,
                )
            })
}

/// The decoding state of one RemoteFX stream.
pub struct DecodingContext {
    state: SequenceState,
    context: ContextPdu,
    channels: ChannelsPdu,
    decoding_tiles: DecodingTileContext,
}

/// The clipping rectangle of a region rectangle placed at `destination`,
/// clamped to `width` by `height`.
pub open spec fn clip_rect(r: RfxRectangle, destination: Rectangle, width: u16, height: u16) -> Rectangle {
    let left = destination.left + r.x;
    let top = destination.top + r.y;
    let right = destination.left + r.x + r.width;
    let bottom = destination.top + r.y + r.height;
    Rectangle {
        left: if left < width { left as u16 } else { width },
        top: if top < height { top as u16 } else { height },
        right: if right < width { right as u16 } else { width },
        bottom: if bottom < height { bottom as u16 } else { height },
    }
}

pub open spec fn clip_rects(
    rs: Seq<RfxRectangle>,
    destination: Rectangle,
    width: u16,
    height: u16,
) -> Seq<Rectangle> {
    rs.map_values(|r: RfxRectangle| clip_rect(r, destination, width, height))
}

fn clip_one(r: &RfxRectangle, destination: &Rectangle, width: u16, height: u16) -> (c: Rectangle)
    ensures
        c == clip_rect(*r, *destination, width, height),
{
    let left = destination.left as u32 + r.x as u32;
    let top = destination.top as u32 + r.y as u32;
    let right = left + r.width as u32;
    let bottom = top + r.height as u32;
    Rectangle {
        left: if left < width as u32 { left as u16 } else { width },
        top: if top < height as u32 { top as u16 } else { height },
        right: if right < width as u32 { right as u16 } else { width },
        bottom: if bottom < height as u32 { bottom as u16 } else { height },
    }
}

/// A well-formed region whose rectangles all lie within `width` by `height`
/// has its bounding box there too.
pub proof fn lemma_bounding_box_within(rs: Seq<Rectangle>, width: int, height: int)
    requires
        forall|k: int| 0 <= k < rs.len() ==> within(#[trigger] rs[k], width, height),
        width >= 0,
        height >= 0,
    ensures
        within(bounding_box(rs), width, height),
    decreases rs.len(),
{
    if rs.len() > 1 {
        lemma_bounding_box_within(rs.drop_last(), width, height);
        assert(within(rs.last(), width, height));
    }
}

/// The region of pixels to repaint: the region rectangles placed at
/// `destination`, clamped to the channel, merged into disjoint rectangles.
pub fn clipping_rectangles(
    rectangles: &[RfxRectangle],
    destination: &Rectangle,
    width: u16,
    height: u16,
) -> (r: Region)
    ensures
        r.wf(),
        forall|x: int, y: int|
            #![trigger r.covers(x, y)]
            r.covers(x, y) <==> covered(clip_rects(rectangles@, *destination, width, height), x, y),
        forall|k: int| 0 <= k < r.rectangles@.len() ==> within(#[trigger] r.rectangles@[k], width as int, height as int),
        within(r.extents, width as int, height as int),
{
    let mut clipped: Vec<Rectangle> = Vec::new();
    let mut i: usize = 0;
    while i < rectangles.len()
        invariant
            i <= rectangles@.len(),
            clipped@ == clip_rects(rectangles@.subrange(0, i as int), *destination, width, height),
        decreases rectangles@.len() - i,
    {
        clipped.push(clip_one(&rectangles[i], destination, width, height));
        i += 1;
        assert(clipped@ =~= clip_rects(rectangles@.subrange(0, i as int), *destination, width, height));
    }
    assert(rectangles@.subrange(0, rectangles@.len() as int) =~= rectangles@);
    let region = Region::from_rectangles(clipped.as_slice());
    proof {
        let cs = clipped@;
        assert forall|k: int| 0 <= k < region.rectangles@.len() implies within(
            #[trigger] region.rectangles@[k],
            width as int,
            height as int,
        ) by {
            let rk = region.rectangles@[k];
            assert(contains(rk, rk.right - 1, rk.bottom - 1));
            assert(region.covers(rk.right - 1, rk.bottom - 1));
            let j = choose|j: int| 0 <= j < cs.len() && #[trigger] contains(cs[j], rk.right - 1, rk.bottom - 1);
        }
        lemma_bounding_box_within(region.rectangles@, width as int, height as int);
    }
    region
}

/// The destination rectangle of a tile at `destination`, if it fits the 16-bit space.
pub fn tile_rectangle(tile: &Tile, destination: &Rectangle) -> (r: Option<Rectangle>)
    ensures
        r.is_some() <==> destination.left + tile.x * 64 + 64 <= u16::MAX && destination.top
            + tile.y * 64 + 64 <= u16::MAX,
        r.is_some() ==> r.unwrap() == (Rectangle {
            left: (destination.left + tile.x * 64) as u16,
            top: (destination.top + tile.y * 64) as u16,
            right: (destination.left + tile.x * 64 + 64) as u16,
            bottom: (destination.top + tile.y * 64 + 64) as u16,
        }),
{
    let left = destination.left as u32 + tile.x as u32 * 64;
    let top = destination.top as u32 + tile.y as u32 * 64;
    if left + 64 > 0xFFFF || top + 64 > 0xFFFF {
        return None;
    }
    Some(
        Rectangle {
            left: left as u16,
            top: top as u16,
            right: (left + 64) as u16,
            bottom: (top + 64) as u16,
        },
    )
}

/// The quantization tables of a tile's three components, if the tile set carries them.
pub fn tile_quants(tile: &Tile, quants: &Vec<Quant>) -> (r: Result<[Quant; 3], RfxError>)
    ensures
        r.is_ok() <==> tile.y_quant_index < quants@.len() && tile.cb_quant_index < quants@.len()
            && tile.cr_quant_index < quants@.len(),
        r matches Err(e) ==> e == RfxError::InvalidQuantIndex(
            if tile.y_quant_index >= quants@.len() {
                tile.y_quant_index
            } else if tile.cb_quant_index >= quants@.len() {
                tile.cb_quant_index
            } else {
                tile.cr_quant_index
            },
        ),
        r.is_ok() ==> r.unwrap()@ == seq![
            quants@[tile.y_quant_index as int],
            quants@[tile.cb_quant_index as int],
            quants@[tile.cr_quant_index as int],
        ],
{
    let n = quants.len();
    if tile.y_quant_index as usize >= n {
        return Err(RfxError::InvalidQuantIndex(tile.y_quant_index));
    }
    if tile.cb_quant_index as usize >= n {
        return Err(RfxError::InvalidQuantIndex(tile.cb_quant_index));
    }
    if tile.cr_quant_index as usize >= n {
        return Err(RfxError::InvalidQuantIndex(tile.cr_quant_index));
    }
    let r = [
        quants[tile.y_quant_index as usize],
        quants[tile.cb_quant_index as usize],
        quants[tile.cr_quant_index as usize],
    ];
    assert(r@ =~= seq![
        quants@[tile.y_quant_index as int],
        quants@[tile.cb_quant_index as int],
        quants@[tile.cr_quant_index as int],
    ]);
    Ok(r)
}

/// The coefficients once the LL3 differences are added up.
pub open spec fn ll3_decoded(s: Seq<i16>) -> Seq<i16> {
    Seq::new(s.len(), |k: int| if k < LL3_START { s[k] } else { ll3_value(s, k) })
}

/// The coefficients scaled back by their subbands' factors.
pub open spec fn dequantized_all(s: Seq<i16>, q: Quant) -> Seq<i16> {
    Seq::new(s.len(), |i: int| dequantized(s[i], band_factor(q, i)))
}

/// The spatial samples of a component from its entropy-decoded coefficients.
pub open spec fn reconstructed(coefficients: Seq<i16>, q: Quant) -> Seq<i16> {
    idwt(dequantized_all(ll3_decoded(coefficients), q))
}

/// Turns entropy-decoded coefficients into spatial samples: LL3 differential
/// decoding, dequantization and the inverse DWT.
pub fn reconstruct_component(quant: &Quant, coefficients: &mut Vec<i16>, temp: &mut Vec<i16>)
    requires
        quant_ok(*quant),
        old(coefficients)@.len() == TILE_PIXELS,
        old(temp)@.len() == TILE_PIXELS,
    ensures
        final(coefficients)@ == reconstructed(old(coefficients)@, *quant),
        final(temp)@.len() == TILE_PIXELS,
{
    let ghost c0 = coefficients@;
    decode_ll3(coefficients);
    assert(coefficients@ =~= ll3_decoded(c0));
    let ghost c1 = coefficients@;
    dequantize(coefficients, quant);
    assert(coefficients@ =~= dequantized_all(c1, *quant));
    dwt_decode(coefficients, temp);
}

/// The spatial samples of a tile component, or `None` when its entropy-coded
/// data is malformed.
pub open spec fn component_samples(mode: EntropyAlgorithm, data: Seq<u8>, q: Quant) -> Option<Seq<i16>> {
    if data.len() >= 0x1000_0000 {
        None
    } else {
        match rlgr_decoded(mode, data, Seq::new(TILE_PIXELS as nat, |i: int| 0i16)) {
            Some(c) => Some(reconstructed(c, q)),
            None => None,
        }
    }
}

/// The 64x64 BGRA pixels of three planes of samples.
pub open spec fn bgra_pixels(y: Seq<i16>, cb: Seq<i16>, cr: Seq<i16>) -> Seq<u8> {
    Seq::new(
        TILE_BYTES as nat,
        |j: int|
            if j % 4 == 0 {
                blue(y[j / 4], cb[j / 4], cr[j / 4])
            } else if j % 4 == 1 {
                green(y[j / 4], cb[j / 4], cr[j / 4])
            } else if j % 4 == 2 {
                red(y[j / 4], cb[j / 4], cr[j / 4])
            } else {
                0xFFu8
            },
    )
}

/// The decoded pixels of a tile, or `None` when one of its components is malformed.
#[verifier::opaque]
pub open spec fn tile_pixels(tile: TileView, quants: Seq<Quant>, mode: EntropyAlgorithm) -> Option<Seq<u8>> {
    match (
        component_samples(mode, tile.5, quants[0]),
        component_samples(mode, tile.6, quants[1]),
        component_samples(mode, tile.7, quants[2]),
    ) {
        (Some(y), Some(cb), Some(cr)) => Some(bgra_pixels(y, cb, cr)),
        _ => None,
    }
}

/// The region rectangles of the frame whose FrameBegin block is at `pos`; the
/// whole channel when the Region block lists none.
pub open spec fn frame_rects(b: Seq<u8>, pos: int, width: u16, height: u16) -> Seq<RfxRectangle> {
    let p1 = block_end(b, pos);
    let n = le16(b, p1 + 9);
    if n == 0 {
        seq![RfxRectangle { x: 0, y: 0, width, height }]
    } else {
        Seq::new(n as nat, |i: int| spec_rfx_rect(b, p1 + 11 + 8 * i))
    }
}

/// Position of the TileSet block of the frame whose FrameBegin block is at `pos`.
pub open spec fn tile_set_pos(b: Seq<u8>, pos: int) -> int {
    block_end(b, block_end(b, pos))
}

pub open spec fn frame_quants(b: Seq<u8>, pos: int) -> Seq<Quant> {
    let p = tile_set_pos(b, pos);
    Seq::new(b[p + 14] as nat, |i: int| spec_quant(b, p + 22 + 5 * i))
}

pub open spec fn frame_tiles(b: Seq<u8>, pos: int) -> Seq<TileView> {
    let p = tile_set_pos(b, pos);
    spec_tiles(b, p + 22 + 5 * b[p + 14], block_end(b, p), le16(b, p + 16) as nat).unwrap()
}

/// The destination rectangle of a tile placed at `destination`.
pub open spec fn tile_update(t: TileView, destination: Rectangle) -> Rectangle {
    Rectangle {
        left: (destination.left + t.3 * 64) as u16,
        top: (destination.top + t.4 * 64) as u16,
        right: (destination.left + t.3 * 64 + 64) as u16,
        bottom: (destination.top + t.4 * 64 + 64) as u16,
    }
}

/// Each tile of the frame with its destination and its decoded pixels.
pub open spec fn drawn_tiles(b: Seq<u8>, pos: int, destination: Rectangle, mode: EntropyAlgorithm) -> Seq<(Rectangle, Seq<u8>)> {
    let q = frame_quants(b, pos);
    frame_tiles(b, pos).map_values(
        |t: TileView|
            (
                tile_update(t, destination),
                tile_pixels(t, seq![q[t.0 as int], q[t.1 as int], q[t.2 as int]], mode).unwrap(),
            ),
    )
}

/// Whether a tile can be drawn: its rectangle fits the 16-bit space, its
/// quantization indices are in range and its components decode.
pub open spec fn tile_ok(t: TileView, q: Seq<Quant>, destination: Rectangle, mode: EntropyAlgorithm) -> bool {
    &&& destination.left + t.3 * 64 + 64 <= u16::MAX
    &&& destination.top + t.4 * 64 + 64 <= u16::MAX
    &&& t.0 < q.len() && t.1 < q.len() && t.2 < q.len()
    &&& tile_pixels(t, seq![q[t.0 as int], q[t.1 as int], q[t.2 as int]], mode) is Some
}

/// Whether the frame whose FrameBegin block is at `pos` decodes: its four
/// blocks are well formed and every tile can be drawn.
pub open spec fn frame_ok(b: Seq<u8>, pos: int, destination: Rectangle, mode: EntropyAlgorithm) -> bool {
    let p1 = block_end(b, pos);
    let p2 = block_end(b, p1);
    &&& block_fits(b, pos, BLOCK_FRAME_BEGIN, 14)
    &&& block_fits(b, p1, BLOCK_REGION, 15) && p1 + 15 + 8 * le16(b, p1 + 9) <= block_end(b, p1)
    &&& tile_set_ok(b, p2)
    &&& block_fits(b, block_end(b, p2), BLOCK_FRAME_END, 8)
    &&& forall|i: int|
        0 <= i < frame_tiles(b, pos).len() ==> tile_ok(#[trigger] frame_tiles(b, pos)[i], frame_quants(b, pos), destination, mode)
}

/// The error of a tile that cannot be drawn.
pub open spec fn tile_error(t: TileView, q: Seq<Quant>, destination: Rectangle) -> RfxError {
    if !(destination.left + t.3 * 64 + 64 <= u16::MAX && destination.top + t.4 * 64 + 64 <= u16::MAX) {
        RfxError::TileOutOfRange
    } else if t.0 >= q.len() {
        RfxError::InvalidQuantIndex(t.0)
    } else if t.1 >= q.len() {
        RfxError::InvalidQuantIndex(t.1)
    } else if t.2 >= q.len() {
        RfxError::InvalidQuantIndex(t.2)
    } else {
        RfxError::RlgrFailed
    }
}

/// Whether the four blocks of the frame at `pos` are well formed.
pub open spec fn frame_blocks_ok(b: Seq<u8>, pos: int) -> bool {
    let p1 = block_end(b, pos);
    let p2 = block_end(b, p1);
    &&& block_fits(b, pos, BLOCK_FRAME_BEGIN, 14)
    &&& block_fits(b, p1, BLOCK_REGION, 15) && p1 + 15 + 8 * le16(b, p1 + 9) <= block_end(b, p1)
    &&& tile_set_ok(b, p2)
    &&& block_fits(b, block_end(b, p2), BLOCK_FRAME_END, 8)
}

/// The index of the first tile of the frame at `pos` that cannot be drawn.
pub open spec fn first_bad_tile(b: Seq<u8>, pos: int, destination: Rectangle, mode: EntropyAlgorithm) -> int {
    choose|j: int|
        0 <= j < frame_tiles(b, pos).len() && !tile_ok(frame_tiles(b, pos)[j], frame_quants(b, pos), destination, mode)
            && forall|k: int| 0 <= k < j ==> #[trigger] tile_ok(frame_tiles(b, pos)[k], frame_quants(b, pos), destination, mode)
}

/// The framebuffer `new` is `old` with the first `n` tiles of the frame at `pos` drawn.
pub open spec fn frame_partly_drawn(
    old: Seq<u8>,
    new: Seq<u8>,
    w: int,
    h: int,
    format: PixelFormat,
    b: Seq<u8>,
    pos: int,
    destination: Rectangle,
    width: u16,
    height: u16,
    mode: EntropyAlgorithm,
    n: int,
) -> bool {
    forall|x: int, y: int, c: int|
        0 <= x < w && 0 <= y < h && 0 <= c < 4 ==> #[trigger] new[pix(w, x, y) + c] == frame_byte(
            old,
            w,
            format,
            drawn_tiles(b, pos, destination, mode).subrange(0, n),
            clip_rects(frame_rects(b, pos, width, height), destination, width, height),
            x,
            y,
            c,
        )
}

/// Byte `c` of framebuffer pixel `(x, y)` once the tiles of `drawn` are
/// blitted in order over `old` where the clipping rectangles allow.
pub open spec fn frame_byte(
    old: Seq<u8>,
    w: int,
    format: PixelFormat,
    drawn: Seq<(Rectangle, Seq<u8>)>,
    clip: Seq<Rectangle>,
    x: int,
    y: int,
    c: int,
) -> u8
    decreases drawn.len(),
{
    if drawn.len() == 0 {
        old[pix(w, x, y) + c]
    } else {
        let (u, px) = drawn.last();
        if contains(u, x, y) && covered(clip, x, y) {
            converted(format, px, tile_source(u, x, y), c)
        } else {
            frame_byte(old, w, format, drawn.drop_last(), clip, x, y, c)
        }
    }
}

/// Blitting one more tile extends the drawn prefix by one.
proof fn lemma_frame_step(
    old: Seq<u8>,
    before: Seq<u8>,
    after: Seq<u8>,
    w: int,
    h: int,
    format: PixelFormat,
    drawn: Seq<(Rectangle, Seq<u8>)>,
    clip: Seq<Rectangle>,
    i: int,
)
    requires
        0 <= i < drawn.len(),
        forall|x: int, y: int, c: int|
            0 <= x < w && 0 <= y < h && 0 <= c < 4 ==> #[trigger] before[pix(w, x, y) + c] == frame_byte(
                old,
                w,
                format,
                drawn.subrange(0, i),
                clip,
                x,
                y,
                c,
            ),
        forall|x: int, y: int, c: int|
            0 <= x < w && 0 <= y < h && 0 <= c < 4 ==> #[trigger] after[pix(w, x, y) + c] == if contains(
                drawn[i].0,
                x,
                y,
            ) && covered(clip, x, y) {
                converted(format, drawn[i].1, tile_source(drawn[i].0, x, y), c)
            } else {
                before[pix(w, x, y) + c]
            },
    ensures
        forall|x: int, y: int, c: int|
            0 <= x < w && 0 <= y < h && 0 <= c < 4 ==> #[trigger] after[pix(w, x, y) + c] == frame_byte(
                old,
                w,
                format,
                drawn.subrange(0, i + 1),
                clip,
                x,
                y,
                c,
            ),
{
    let pre = drawn.subrange(0, i);
    let pre1 = drawn.subrange(0, i + 1);
    assert(pre1.drop_last() =~= pre);
    assert(pre1.last() == drawn[i]);
    assert forall|x: int, y: int, c: int| 0 <= x < w && 0 <= y < h && 0 <= c < 4 implies #[trigger] after[pix(
        w,
        x,
        y,
    ) + c] == frame_byte(old, w, format, pre1, clip, x, y, c) by {
        assert(before[pix(w, x, y) + c] == frame_byte(old, w, format, pre, clip, x, y, c));
    }
}

/// The framebuffer `new` is `old` with the frame at `pos` drawn.
pub open spec fn frame_drawn(
    old: Seq<u8>,
    new: Seq<u8>,
    w: int,
    h: int,
    format: PixelFormat,
    b: Seq<u8>,
    pos: int,
    destination: Rectangle,
    width: u16,
    height: u16,
    mode: EntropyAlgorithm,
) -> bool {
    forall|x: int, y: int, c: int|
        0 <= x < w && 0 <= y < h && 0 <= c < 4 ==> #[trigger] new[pix(w, x, y) + c] == frame_byte(
            old,
            w,
            format,
            drawn_tiles(b, pos, destination, mode),
            clip_rects(frame_rects(b, pos, width, height), destination, width, height),
            x,
            y,
            c,
        )
}

/// Decoding a frame is deterministic: two framebuffers that both hold the
/// same frame drawn over the same contents are equal.
pub proof fn lemma_frame_decoding_deterministic(
    old: Seq<u8>,
    new1: Seq<u8>,
    new2: Seq<u8>,
    w: int,
    h: int,
    format: PixelFormat,
    b: Seq<u8>,
    pos: int,
    destination: Rectangle,
    width: u16,
    height: u16,
    mode: EntropyAlgorithm,
)
    requires
        w > 0,
        h >= 0,
        new1.len() == w * h * 4,
        new2.len() == w * h * 4,
        frame_drawn(old, new1, w, h, format, b, pos, destination, width, height, mode),
        frame_drawn(old, new2, w, h, format, b, pos, destination, width, height, mode),
    ensures
        new1 == new2,
{
    assert forall|k: int| 0 <= k < new1.len() implies new1[k] == new2[k] by {
        let p = k / 4;
        let c = k % 4;
        let x = p % w;
        let y = p / w;
        vstd::arithmetic::div_mod::lemma_fundamental_div_mod(k, 4);
        vstd::arithmetic::div_mod::lemma_fundamental_div_mod(p, w);
        assert(k == (y * w + x) * 4 + c) by (nonlinear_arith)
            requires
                k == 4 * p + c,
                p == w * y + x,
        ;
        assert(0 <= x < w);
        assert(0 <= y < h) by (nonlinear_arith)
            requires
                k < w * h * 4,
                k == (y * w + x) * 4 + c,
                0 <= x < w,
                0 <= c < 4,
                0 <= k,
                w > 0,
        ;
        assert(new1[pix(w, x, y) + c] == new2[pix(w, x, y) + c]);
    }
    assert(new1 =~= new2);
}

/// A frame that fails part-way is deterministic too: two framebuffers that
/// both hold the same first tiles of a frame drawn over the same contents are equal.
pub proof fn lemma_partial_frame_deterministic(
    old: Seq<u8>,
    new1: Seq<u8>,
    new2: Seq<u8>,
    w: int,
    h: int,
    format: PixelFormat,
    b: Seq<u8>,
    pos: int,
    destination: Rectangle,
    width: u16,
    height: u16,
    mode: EntropyAlgorithm,
    n: int,
)
    requires
        w > 0,
        h >= 0,
        new1.len() == w * h * 4,
        new2.len() == w * h * 4,
        frame_partly_drawn(old, new1, w, h, format, b, pos, destination, width, height, mode, n),
        frame_partly_drawn(old, new2, w, h, format, b, pos, destination, width, height, mode, n),
    ensures
        new1 == new2,
{
    assert forall|k: int| 0 <= k < new1.len() implies new1[k] == new2[k] by {
        let p = k / 4;
        let c = k % 4;
        let x = p % w;
        let y = p / w;
        vstd::arithmetic::div_mod::lemma_fundamental_div_mod(k, 4);
        vstd::arithmetic::div_mod::lemma_fundamental_div_mod(p, w);
        assert(k == (y * w + x) * 4 + c) by (nonlinear_arith)
            requires
                k == 4 * p + c,
                p == w * y + x,
        ;
        assert(0 <= x < w);
        assert(0 <= y < h) by (nonlinear_arith)
            requires
                k < w * h * 4,
                k == (y * w + x) * 4 + c,
                0 <= x < w,
                0 <= c < 4,
                0 <= k,
                w > 0,
        ;
        assert(new1[pix(w, x, y) + c] == new2[pix(w, x, y) + c]);
    }
    assert(new1 =~= new2);
}

/// The damage of a frame is the extents of the region that `clipping_rectangles`
/// builds for it, or of any region covering exactly its clipped rectangles.
pub proof fn lemma_damage_is_region_extents(
    damage: Rectangle,
    g: Region,
    input: Seq<u8>,
    pos: int,
    destination: Rectangle,
    width: u16,
    height: u16,
)
    requires
        damage_of(damage, input, pos, destination, width, height),
        g.wf(),
        forall|x: int, y: int|
            #![trigger g.covers(x, y)]
            g.covers(x, y) <==> covered(clip_rects(frame_rects(input, pos, width, height), destination, width, height), x, y),
    ensures
        damage == g.extents,
{
    let cs = clip_rects(frame_rects(input, pos, width, height), destination, width, height);
    let rs = choose|rs: Seq<Rectangle>|
        #[trigger] pairwise_disjoint(rs) && all_nonempty(rs) && damage == bounding_box(rs) && (forall|x: int, y: int|
            covered(rs, x, y) <==> covered(cs, x, y));
    assert forall|x: int, y: int| covered(rs, x, y) <==> covered(g.rectangles@, x, y) by {
        assert(g.covers(x, y) <==> covered(cs, x, y));
    }
    lemma_bounding_box_unique(rs, g.rectangles@);
}

/// The damage of a frame is determined: two rectangles that are both the
/// bounding box of the frame's clipping region are equal.
pub proof fn lemma_damage_unique(
    d1: Rectangle,
    d2: Rectangle,
    input: Seq<u8>,
    pos: int,
    destination: Rectangle,
    width: u16,
    height: u16,
)
    requires
        damage_of(d1, input, pos, destination, width, height),
        damage_of(d2, input, pos, destination, width, height),
    ensures
        d1 == d2,
{
    let cs = clip_rects(frame_rects(input, pos, width, height), destination, width, height);
    let rs1 = choose|rs: Seq<Rectangle>|
        #[trigger] pairwise_disjoint(rs) && all_nonempty(rs) && d1 == bounding_box(rs) && (forall|x: int, y: int|
            covered(rs, x, y) <==> covered(cs, x, y));
    let rs2 = choose|rs: Seq<Rectangle>|
        #[trigger] pairwise_disjoint(rs) && all_nonempty(rs) && d2 == bounding_box(rs) && (forall|x: int, y: int|
            covered(rs, x, y) <==> covered(cs, x, y));
    lemma_bounding_box_unique(rs1, rs2);
}

/// Decodes one component of a tile into `output`: entropy decoding, LL3
/// differential decoding, dequantization and the inverse DWT.
fn decode_component(
    quant: &Quant,
    entropy_algorithm: EntropyAlgorithm,
    data: &Vec<u8>,
    output: &mut Vec<i16>,
    temp: &mut Vec<i16>,
) -> (r: Result<(), RfxError>)
    requires
        quant_ok(*quant),
        old(output)@.len() == TILE_PIXELS,
        old(temp)@.len() == TILE_PIXELS,
    ensures
        final(output)@.len() == TILE_PIXELS,
        final(temp)@.len() == TILE_PIXELS,
        r.is_ok() <==> component_samples(entropy_algorithm, data@, *quant) is Some,
        r matches Err(e) ==> e == RfxError::RlgrFailed,
        r.is_ok() ==> final(output)@ == component_samples(entropy_algorithm, data@, *quant).unwrap(),
{
    if data.len() >= 0x1000_0000 {
        return Err(RfxError::RlgrFailed);
    }
    proof {
        lemma_rlgr_ignores_buffer(entropy_algorithm, data@, output@, Seq::new(TILE_PIXELS as nat, |i: int| 0i16));
    }
    rlgr_decode(entropy_algorithm, data.as_slice(), output)?;
    reconstruct_component(quant, output, temp);
    Ok(())
}

/// Decodes a tile into BGRA pixels in the scratch output buffer.
fn decode_tile(
    tile: &Tile,
    quants: &[Quant; 3],
    entropy_algorithm: EntropyAlgorithm,
    ctx: &mut DecodingTileContext,
) -> (r: Result<(), RfxError>)
    requires
        old(ctx).wf(),
        quant_ok(quants@[0]) && quant_ok(quants@[1]) && quant_ok(quants@[2]),
    ensures
        final(ctx).wf(),
        r.is_ok() <==> tile_pixels(tile_view(*tile), quants@, entropy_algorithm) is Some,
        r matches Err(e) ==> e == RfxError::RlgrFailed,
        r.is_ok() ==> final(ctx).tile_output@ == tile_pixels(tile_view(*tile), quants@, entropy_algorithm).unwrap(),
{
    proof {
        reveal(tile_pixels);
    }
    decode_component(&quants[0], entropy_algorithm, &tile.y_data, &mut ctx.y, &mut ctx.temp)?;
    decode_component(&quants[1], entropy_algorithm, &tile.cb_data, &mut ctx.cb, &mut ctx.temp)?;
    decode_component(&quants[2], entropy_algorithm, &tile.cr_data, &mut ctx.cr, &mut ctx.temp)?;
    ycbcr_to_bgra(&ctx.y, &ctx.cb, &ctx.cr, &mut ctx.tile_output);
    proof {
        let out = ctx.tile_output@;
        let expected = bgra_pixels(ctx.y@, ctx.cb@, ctx.cr@);
        assert forall|j: int| 0 <= j < TILE_BYTES implies #[trigger] out[j] == expected[j] by {
            vstd::arithmetic::div_mod::lemma_fundamental_div_mod(j, 4);
            let i = j / 4;
            assert(0 <= i < TILE_PIXELS);
            assert(out[4 * i] == blue(ctx.y@[i], ctx.cb@[i], ctx.cr@[i]));
            if j % 4 == 0 {
                assert(j == 4 * i);
            } else if j % 4 == 1 {
                assert(j == 4 * i + 1);
            } else if j % 4 == 2 {
                assert(j == 4 * i + 2);
            } else {
                assert(j == 4 * i + 3);
            }
        }
        assert(out =~= expected);
    }
    Ok(())
}

impl DecodingContext {
    pub open spec fn wf(&self) -> bool {
        &&& self.tiles_ok()
        &&& self.spec_state() == SequenceState::DataMessages ==> self.spec_channels().len() > 0
    }

    pub closed spec fn tiles_ok(&self) -> bool {
        self.decoding_tiles.wf()
    }

    /// The scratch buffers: tile output, the Y, Cb and Cr planes, and the
    /// transform's temporary plane.
    pub closed spec fn scratch(&self) -> (Seq<u8>, Seq<i16>, Seq<i16>, Seq<i16>, Seq<i16>) {
        (
            self.decoding_tiles.tile_output@,
            self.decoding_tiles.y@,
            self.decoding_tiles.cb@,
            self.decoding_tiles.cr@,
            self.decoding_tiles.temp@,
        )
    }

    pub closed spec fn spec_state(&self) -> SequenceState {
        self.state
    }

    pub closed spec fn spec_channels(&self) -> Seq<RfxChannel> {
        self.channels.0@
    }

    pub closed spec fn spec_context(&self) -> ContextPdu {
        self.context
    }

    pub fn new() -> (r: Self)
        ensures
            r.wf(),
            r.spec_state() == SequenceState::HeaderMessages,
            r.spec_context() == (ContextPdu { flags: 0, entropy_algorithm: EntropyAlgorithm::Rlgr1 }),
            r.spec_channels().len() == 0,
            r.scratch().0 == Seq::new(TILE_BYTES as nat, |i: int| 0u8),
            r.scratch().1 == Seq::new(TILE_PIXELS as nat, |i: int| 0i16),
            r.scratch().2 == Seq::new(TILE_PIXELS as nat, |i: int| 0i16),
            r.scratch().3 == Seq::new(TILE_PIXELS as nat, |i: int| 0i16),
            r.scratch().4 == Seq::new(TILE_PIXELS as nat, |i: int| 0i16),
    {
        DecodingContext {
            state: SequenceState::HeaderMessages,
            context: ContextPdu { flags: 0, entropy_algorithm: EntropyAlgorithm::Rlgr1 },
            channels: ChannelsPdu(Vec::new()),
            decoding_tiles: DecodingTileContext::new(),
        }
    }

    pub fn state(&self) -> (r: SequenceState)
        ensures
            r == self.spec_state(),
    {
        self.state
    }

    /// Decodes the messages at the start of `input`: the header messages first
    /// when they are due, then one frame, which is drawn into `image`. Returns
    /// the frame index and the bounding box of the repainted region.
    pub fn decode(&mut self, image: &mut DecodedImage, destination: &Rectangle, input: &[u8]) -> (r:
        Result<(FrameId, Rectangle), RdpError>)
        requires
            old(self).wf(),
            old(image).wf(),
        ensures
            final(self).wf(),
            final(image).wf(),
            decoded(*old(self), *final(self), *old(image), *final(image), *destination, input@, r),
    {
        proof {
            reveal(decoded);
        }
        let mut pos: usize = 0;
        if self.state == SequenceState::HeaderMessages {
            pos = self.process_headers(input)?;
        }
        self.process_data_messages(image, destination, input, pos)
    }

    /// Reads Sync and the three header messages, in any order, of which
    /// Context and Channels are required. Returns the position after them.
    fn process_headers(&mut self, input: &[u8]) -> (r: Result<usize, RdpError>)
        requires
            old(self).wf(),
        ensures
            final(self).wf(),
            r.is_ok() ==> final(self).spec_state() == SequenceState::DataMessages,
            r.is_err() ==> *final(self) == *old(self),
            ({
                let b = input@;
                let ok = sync_ok(b) && headers_ok(b, 3);
                &&& r == Err::<usize, RdpError>(RdpError::MandatoryHeaderIsAbsent) <==> ok && (last_context(b, 3) is None
                    || last_channels(b, 3) is None)
                &&& r == Err::<usize, RdpError>(RdpError::NoRfxChannelsAnnounced) <==> (ok && last_context(b, 3) is Some
                    && last_channels(b, 3) is Some && last_channels(b, 3).unwrap().len() == 0)
                &&& r is Ok <==> (ok && last_context(b, 3) is Some && last_channels(b, 3) is Some
                    && last_channels(b, 3).unwrap().len() > 0)
                &&& r is Ok ==> Some(final(self).spec_context()) == last_context(b, 3) && Some(final(self).spec_channels())
                    == last_channels(b, 3) && r.unwrap() == header_pos(b, 3)
            }),
    {
        let mut pos = match parse_sync(input, 0) {
            Ok(p) => p,
            Err(e) => return Err(RdpError::Rfx(e)),
        };
        assert(pos == header_pos(input@, 0));
        let mut context: Option<ContextPdu> = None;
        let mut channels: Option<ChannelsPdu> = None;
        let mut i: usize = 0;
        while i < 3
            invariant
                i <= 3,
                *self == *old(self),
                self.wf(),
                sync_ok(input@),
                headers_ok(input@, i as nat),
                pos == header_pos(input@, i as nat),
                context == last_context(input@, i as nat),
                match channels {
                    Some(c) => last_channels(input@, i as nat) == Some(c.0@),
                    None => last_channels(input@, i as nat) is None,
                },
            decreases 3 - i,
        {
            let (header, next) = match parse_header(input, pos) {
                Ok(h) => h,
                Err(e) => {
                    proof {
                        assert(!headers_ok(input@, (i + 1) as nat));
                        lemma_headers_ok_prefix(input@, (i + 1) as nat, 3);
                    }
                    return Err(RdpError::Rfx(e));
                },
            };
            match header {
                Headers::Context(c) => context = Some(c),
                Headers::Channels(c) => {
                    assert(c.0@ =~= Seq::new(input@[pos + 6] as nat, |k: int| spec_channel(input@, pos + 7 + 5 * k)));
                    channels = Some(c);
                },
                Headers::CodecVersions => {},
            }
            pos = next;
            i += 1;
        }
        let context = match context {
            Some(c) => c,
            None => return Err(RdpError::MandatoryHeaderIsAbsent),
        };
        let channels = match channels {
            Some(c) => c,
            None => return Err(RdpError::MandatoryHeaderIsAbsent),
        };
        if channels.0.len() == 0 {
            return Err(RdpError::NoRfxChannelsAnnounced);
        }
        self.context = context;
        self.channels = channels;
        self.state = SequenceState::DataMessages;
        Ok(pos)
    }

    /// Decodes one tile and draws it where the clipping region allows.
    fn draw_tile(
        &mut self,
        image: &mut DecodedImage,
        tile: &Tile,
        quants: &Vec<Quant>,
        clipping: &Region,
        destination: &Rectangle,
    ) -> (r: Result<(), RdpError>)
        requires
            old(self).wf(),
            old(image).wf(),
            forall|k: int| 0 <= k < quants@.len() ==> quant_ok(#[trigger] quants@[k]),
        ensures
            final(self).wf(),
            final(image).wf(),
            final(self).channels.0@ == old(self).channels.0@,
            final(self).context == old(self).context,
            final(self).state == old(self).state,
            final(image).spec_width() == old(image).spec_width(),
            final(image).spec_height() == old(image).spec_height(),
            final(image).spec_format() == old(image).spec_format(),
            r matches Err(e) ==> e is Rfx,
            r is Err ==> final(image).bytes() == old(image).bytes(),
            r matches Err(e) ==> e == RdpError::Rfx(tile_error(tile_view(*tile), quants@, *destination)),
            r.is_ok() <==> tile_ok(tile_view(*tile), quants@, *destination, old(self).context.entropy_algorithm),
            r is Ok ==> {
                let t = tile_view(*tile);
                let q = quants@;
                let u = tile_update(t, *destination);
                let px = tile_pixels(t, seq![q[t.0 as int], q[t.1 as int], q[t.2 as int]], old(self).context.entropy_algorithm).unwrap();
                forall|x: int, y: int, c: int|
                    0 <= x < old(image).spec_width() && 0 <= y < old(image).spec_height() && 0 <= c < 4
                        ==> #[trigger] final(image).bytes()[pix(old(image).spec_width(), x, y) + c] == if contains(u, x, y)
                        && clipping.covers(x, y) {
                        converted(old(image).spec_format(), px, tile_source(u, x, y), c)
                    } else {
                        old(image).bytes()[pix(old(image).spec_width(), x, y) + c]
                    }
            },
    {
        let update = match tile_rectangle(tile, destination) {
            Some(u) => u,
            None => return Err(RdpError::Rfx(RfxError::TileOutOfRange)),
        };
        let tq = match tile_quants(tile, quants) {
            Ok(q) => q,
            Err(e) => return Err(RdpError::Rfx(e)),
        };
        let ghost t = tile_view(*tile);
        assert(tq@ =~= seq![quants@[t.0 as int], quants@[t.1 as int], quants@[t.2 as int]]);
        match decode_tile(tile, &tq, self.context.entropy_algorithm, &mut self.decoding_tiles) {
            Ok(()) => {},
            Err(e) => return Err(RdpError::Rfx(e)),
        }
        image.apply_tile(&self.decoding_tiles.tile_output, clipping, &update);
        Ok(())
    }

    /// Decodes one frame: FrameBegin, Region, TileSet and FrameEnd.
    #[verifier::rlimit(100)]
    fn process_data_messages(
        &mut self,
        image: &mut DecodedImage,
        destination: &Rectangle,
        input: &[u8],
        pos: usize,
    ) -> (r: Result<(FrameId, Rectangle), RdpError>)
        requires
            old(self).wf(),
            old(image).wf(),
            old(self).spec_state() == SequenceState::DataMessages,
        ensures
            final(self).wf(),
            final(image).wf(),
            final(self).spec_channels() == old(self).spec_channels(),
            final(self).spec_context() == old(self).spec_context(),
            !image_mode(final(self).spec_context().flags) ==> final(self).spec_state()
                == SequenceState::DataMessages,
            r.is_ok() && image_mode(final(self).spec_context().flags) ==> final(self).spec_state()
                == SequenceState::HeaderMessages,
            final(self).spec_channels().len() > 0,
            r matches Ok((_, damage)) ==> {
                let w = final(self).spec_channels()[0].width as u16;
                let h = final(self).spec_channels()[0].height as u16;
                &&& within(damage, w as int, h as int)
                &&& exists|rs: Seq<Rectangle>|
                    pairwise_disjoint(rs) && all_nonempty(rs) && damage == bounding_box(rs) && forall|k: int|
                        0 <= k < rs.len() ==> within(#[trigger] rs[k], w as int, h as int)
            },
            final(image).spec_width() == old(image).spec_width(),
            final(image).spec_height() == old(image).spec_height(),
            final(image).spec_format() == old(image).spec_format(),
            r matches Err(e) ==> e is Rfx,
            r.is_ok() <==> frame_ok(input@, pos as int, *destination, old(self).spec_context().entropy_algorithm),
            r matches Ok((id, _)) ==> id == le32(input@, pos + 8),
            r matches Ok((_, damage)) ==> damage_of(
                damage,
                input@,
                pos as int,
                *destination,
                old(self).spec_channels()[0].width as u16,
                old(self).spec_channels()[0].height as u16,
            ),
            r is Err ==> final(self).spec_state() == old(self).spec_state(),
            r is Err && !frame_blocks_ok(input@, pos as int) ==> final(image).bytes() == old(image).bytes(),
            r is Err && frame_blocks_ok(input@, pos as int) ==> ({
                let ts = frame_tiles(input@, pos as int);
                let j = first_bad_tile(input@, pos as int, *destination, old(self).spec_context().entropy_algorithm);
                r == Err::<(FrameId, Rectangle), RdpError>(
                    RdpError::Rfx(tile_error(ts[j], frame_quants(input@, pos as int), *destination)),
                )
            }),
            r is Err && frame_blocks_ok(input@, pos as int) ==> frame_partly_drawn(
                old(image).bytes(),
                final(image).bytes(),
                old(image).spec_width(),
                old(image).spec_height(),
                old(image).spec_format(),
                input@,
                pos as int,
                *destination,
                old(self).spec_channels()[0].width as u16,
                old(self).spec_channels()[0].height as u16,
                old(self).spec_context().entropy_algorithm,
                first_bad_tile(input@, pos as int, *destination, old(self).spec_context().entropy_algorithm),
            ),
            r is Ok ==> frame_drawn(
                old(image).bytes(),
                final(image).bytes(),
                old(image).spec_width(),
                old(image).spec_height(),
                old(image).spec_format(),
                input@,
                pos as int,
                *destination,
                old(self).spec_channels()[0].width as u16,
                old(self).spec_channels()[0].height as u16,
                old(self).spec_context().entropy_algorithm,
            ),
    {
        let ghost p0 = pos as int;
        let width = self.channels.0[0].width as u16;
        let height = self.channels.0[0].height as u16;
        let entropy_algorithm = self.context.entropy_algorithm;
        let (frame_begin, at) = match parse_frame_begin(input, pos) {
            Ok(f) => f,
            Err(e) => return Err(RdpError::Rfx(e)),
        };
        let (region, at) = match parse_region(input, at) {
            Ok(f) => f,
            Err(e) => return Err(RdpError::Rfx(e)),
        };
        let (tile_set, at) = match parse_tile_set(input, at) {
            Ok(f) => f,
            Err(e) => return Err(RdpError::Rfx(e)),
        };
        let _end = match parse_frame_end(input, at) {
            Ok(f) => f,
            Err(e) => return Err(RdpError::Rfx(e)),
        };
        let mut rectangles = region.rectangles;
        if rectangles.len() == 0 {
            // no region: the whole channel
            rectangles.push(RfxRectangle { x: 0, y: 0, width, height });
        }
        let clipping = clipping_rectangles(rectangles.as_slice(), destination, width, height);
        let tiles = &tile_set.tiles;
        let quants = &tile_set.quants;
        let ghost b = input@;
        let ghost w = image.spec_width();
        let ghost fmt = image.spec_format();
        let ghost clip = clip_rects(frame_rects(b, p0, width, height), *destination, width, height);
        let ghost drawn = drawn_tiles(b, p0, *destination, entropy_algorithm);
        proof {
            assert(rectangles@ =~= frame_rects(b, p0, width, height));
            assert(quants@ =~= frame_quants(b, p0));
            assert(tiles@.map_values(|t: Tile| tile_view(t)) =~= frame_tiles(b, p0));
            assert(drawn.subrange(0, 0) =~= Seq::<(Rectangle, Seq<u8>)>::empty());
        }
        let mut i: usize = 0;
        while i < tiles.len()
            invariant
                i <= tiles@.len(),
                self.wf(),
                image.wf(),
                image.spec_width() == old(image).spec_width(),
                image.spec_height() == old(image).spec_height(),
                image.spec_format() == old(image).spec_format(),
                w == old(image).spec_width(),
                fmt == old(image).spec_format(),
                b == input@,
                p0 == pos,
                frame_blocks_ok(b, p0),
                width == old(self).spec_channels()[0].width as u16,
                height == old(self).spec_channels()[0].height as u16,
                entropy_algorithm == old(self).spec_context().entropy_algorithm,
                clip == clip_rects(frame_rects(b, p0, width, height), *destination, width, height),
                drawn == drawn_tiles(b, p0, *destination, entropy_algorithm),
                tiles@.map_values(|t: Tile| tile_view(t)) == frame_tiles(b, p0),
                quants@ == frame_quants(b, p0),
                forall|x: int, y: int| #![trigger clipping.covers(x, y)] clipping.covers(x, y) <==> covered(clip, x, y),
                forall|x: int, y: int, c: int|
                    0 <= x < w && 0 <= y < old(image).spec_height() && 0 <= c < 4 ==> #[trigger] image.bytes()[pix(w, x, y) + c]
                        == frame_byte(old(image).bytes(), w, fmt, drawn.subrange(0, i as int), clip, x, y, c),
                self.channels.0@ == old(self).channels.0@,
                self.context == old(self).context,
                self.state == old(self).state,
                self.state == SequenceState::DataMessages,
                self.channels.0@.len() > 0,
                forall|k: int| 0 <= k < quants@.len() ==> quant_ok(#[trigger] quants@[k]),
                forall|k: int| 0 <= k < i ==> tile_ok(#[trigger] frame_tiles(b, p0)[k], frame_quants(b, p0), *destination, entropy_algorithm),
            decreases tiles@.len() - i,
        {
            let tile = &tiles[i];
            let ghost before = image.bytes();
            proof {
                assert(tiles@.map_values(|t: Tile| tile_view(t))[i as int] == tile_view(*tile));
            }
            match self.draw_tile(image, tile, quants, &clipping, destination) {
                Ok(()) => {},
                Err(e) => {
                    proof {
                        let q = frame_quants(b, p0);
                        let ts = frame_tiles(b, p0);
                        assert(!tile_ok(ts[i as int], q, *destination, entropy_algorithm));
                        let j = first_bad_tile(b, p0, *destination, entropy_algorithm);
                        assert(0 <= j < ts.len() && !tile_ok(ts[j], q, *destination, entropy_algorithm));
                        if j < i {
                            assert(tile_ok(ts[j], q, *destination, entropy_algorithm));
                        }
                        if j > i {
                            assert(tile_ok(ts[i as int], q, *destination, entropy_algorithm));
                        }
                    }
                    return Err(e);
                },
            }
            proof {
                let t = frame_tiles(b, p0)[i as int];
                assert(t == tile_view(*tile));
                let q = frame_quants(b, p0);
                assert(drawn[i as int] == (
                    tile_update(t, *destination),
                    tile_pixels(t, seq![q[t.0 as int], q[t.1 as int], q[t.2 as int]], entropy_algorithm).unwrap(),
                ));
                lemma_frame_step(old(image).bytes(), before, image.bytes(), w, old(image).spec_height(), fmt, drawn, clip, i as int);
            }
            i += 1;
        }
        if (self.context.flags / IMAGE_MODE) % 2 == 1 {
            self.state = SequenceState::HeaderMessages;
        }
        assert(drawn.subrange(0, tiles@.len() as int) =~= drawn);
        proof {
            let rs = clipping.rectangles@;
            assert(pairwise_disjoint(rs));
            assert forall|x: int, y: int| covered(rs, x, y) <==> covered(clip, x, y) by {
                assert(clipping.covers(x, y) <==> covered(clip, x, y));
            }
        }
        Ok((frame_begin.index, clipping.extents))
    }
}

} // verus!
