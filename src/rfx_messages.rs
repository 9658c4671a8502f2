//! The RemoteFX message blocks: header messages and data messages.
use vstd::prelude::*;
use crate::error::RfxError;
use crate::wire::{le16, le32, read_u16_le, read_u32_le};

verus! {

pub const BLOCK_SYNC: u16 = 0xCCC0;
pub const BLOCK_CODEC_VERSIONS: u16 = 0xCCC1;
pub const BLOCK_CHANNELS: u16 = 0xCCC2;
pub const BLOCK_CONTEXT: u16 = 0xCCC3;
pub const BLOCK_FRAME_BEGIN: u16 = 0xCCC4;
pub const BLOCK_FRAME_END: u16 = 0xCCC5;
pub const BLOCK_REGION: u16 = 0xCCC6;
pub const BLOCK_TILESET: u16 = 0xCCC7;
pub const BLOCK_TILE: u16 = 0xCAC3;
pub const SYNC_MAGIC: u32 = 0xCACC_ACCA;
pub const SYNC_VERSION: u16 = 0x0100;
pub const TILESET_SUBTYPE: u16 = 0xCAC2;

/// Operating mode flag: every frame is followed by fresh header messages.
pub const IMAGE_MODE: u8 = 0x02;

#[derive(Clone, Copy, Debug, PartialEq, Eq, Structural)]
pub enum EntropyAlgorithm {
    Rlgr1,
    Rlgr3,
}

/// The entropy algorithm named by the 4-bit field of a Context or TileSet block.
pub open spec fn spec_entropy(et: int) -> Option<EntropyAlgorithm> {
    if et == 1 {
        Some(EntropyAlgorithm::Rlgr1)
    } else if et == 4 {
        Some(EntropyAlgorithm::Rlgr3)
    } else {
        None
    }
}

#[derive(Clone, Copy, Debug, PartialEq, Eq, Structural)]
pub struct ContextPdu {
    /// Operating mode flags (`IMAGE_MODE` or none for video mode).
    pub flags: u8,
    pub entropy_algorithm: EntropyAlgorithm,
}

#[derive(Clone, Copy, Debug, PartialEq, Eq, Structural)]
pub struct RfxChannel {
    pub width: i16,
    pub height: i16,
}

#[derive(Clone, Debug, PartialEq, Eq)]
pub struct ChannelsPdu(pub Vec<RfxChannel>);

#[derive(Clone, Debug, PartialEq, Eq)]
pub enum Headers {
    Context(ContextPdu),
    Channels(ChannelsPdu),
    CodecVersions,
}

#[derive(Clone, Copy, Debug, PartialEq, Eq, Structural)]
pub struct FrameBeginPdu {
    pub index: u32,
    pub number_of_regions: i16,
}

#[derive(Clone, Copy, Debug, PartialEq, Eq, Structural)]
pub struct RfxRectangle {
    pub x: u16,
    pub y: u16,
    pub width: u16,
    pub height: u16,
}

#[derive(Clone, Debug, PartialEq, Eq)]
pub struct RegionPdu {
    pub rectangles: Vec<RfxRectangle>,
}

/// Quantization factors of the ten DWT subbands, each a 4-bit value.
#[derive(Clone, Copy, Debug, PartialEq, Eq, Structural)]
pub struct Quant {
    pub ll3: u8,
    pub lh3: u8,
    pub hl3: u8,
    pub hh3: u8,
    pub lh2: u8,
    pub hl2: u8,
    pub hh2: u8,
    pub lh1: u8,
    pub hl1: u8,
    pub hh1: u8,
}

#[derive(Clone, Debug, PartialEq, Eq)]
pub struct Tile {
    pub y_quant_index: u8,
    pub cb_quant_index: u8,
    pub cr_quant_index: u8,
    pub x: u16,
    pub y: u16,
    pub y_data: Vec<u8>,
    pub cb_data: Vec<u8>,
    pub cr_data: Vec<u8>,
}

#[derive(Clone, Debug, PartialEq, Eq)]
pub struct TileSetPdu {
    pub entropy_algorithm: EntropyAlgorithm,
    pub quants: Vec<Quant>,
    pub tiles: Vec<Tile>,
}

/// A block of type `ty` and of at least `min_len` bytes starts at `pos` and ends within `b`.
pub open spec fn block_fits(b: Seq<u8>, pos: int, ty: u16, min_len: int) -> bool {
    &&& pos + 6 <= b.len()
    &&& le16(b, pos) == ty
    &&& le32(b, pos + 2) >= min_len
    &&& pos + le32(b, pos + 2) <= b.len()
}

/// The end of the block that starts at `pos`.
pub open spec fn block_end(b: Seq<u8>, pos: int) -> int {
    pos + le32(b, pos + 2)
}

/// Checks the header of a block of type `ty` at `pos` and returns the block's end.
fn block(b: &[u8], pos: usize, ty: u16, min_len: u32) -> (r: Result<usize, RfxError>)
    requires
        min_len >= 6,
    ensures
        r.is_ok() <==> block_fits(b@, pos as int, ty, min_len as int),
        r.is_ok() ==> r.unwrap() == block_end(b@, pos as int),
{
    let n = b.len();
    if pos > n || n - pos < 6 {
        return Err(RfxError::NotEnoughBytes);
    }
    let t = read_u16_le(b, pos);
    if t != ty {
        return Err(RfxError::UnexpectedBlockType(t));
    }
    let len = read_u32_le(b, pos + 2);
    if len < min_len {
        return Err(RfxError::InvalidBlockLength);
    }
    if len as usize > n - pos {
        return Err(RfxError::NotEnoughBytes);
    }
    Ok(pos + len as usize)
}

/// Parses the Sync block at `pos`; returns the position after it.
pub fn parse_sync(b: &[u8], pos: usize) -> (r: Result<usize, RfxError>)
    ensures
        r.is_ok() <==> block_fits(b@, pos as int, BLOCK_SYNC, 12) && le32(b@, pos + 6)
            == SYNC_MAGIC && le16(b@, pos + 10) == SYNC_VERSION,
        r.is_ok() ==> r.unwrap() == block_end(b@, pos as int),
{
    let end = block(b, pos, BLOCK_SYNC, 12)?;
    if read_u32_le(b, pos + 6) != SYNC_MAGIC || read_u16_le(b, pos + 10) != SYNC_VERSION {
        return Err(RfxError::InvalidBlockLength);
    }
    Ok(end)
}

fn parse_context(b: &[u8], pos: usize) -> (r: Result<ContextPdu, RfxError>)
    requires
        block_fits(b@, pos as int, BLOCK_CONTEXT, 13),
    ensures
        r.is_ok() <==> spec_entropy((le16(b@, pos + 11) / 512) % 16).is_some(),
        r.is_ok() ==> r.unwrap().flags == le16(b@, pos + 11) % 8 && Some(r.unwrap().entropy_algorithm)
            == spec_entropy((le16(b@, pos + 11) / 512) % 16),
{
    let _n = b.len();
    let properties = read_u16_le(b, pos + 11);
    let flags = (properties % 8) as u8;
    let et = (properties / 512) % 16;
    let entropy_algorithm = if et == 1 {
        EntropyAlgorithm::Rlgr1
    } else if et == 4 {
        EntropyAlgorithm::Rlgr3
    } else {
        return Err(RfxError::InvalidEntropyAlgorithm(et));
    };
    Ok(ContextPdu { flags, entropy_algorithm })
}

/// The channel whose five bytes start at `at`: id, then 16-bit width and height.
pub open spec fn spec_channel(b: Seq<u8>, at: int) -> RfxChannel {
    RfxChannel { width: le16(b, at + 1) as i16, height: le16(b, at + 3) as i16 }
}

/// The Context message at `pos`, if its entropy algorithm is known.
pub open spec fn spec_context(b: Seq<u8>, pos: int) -> Option<ContextPdu> {
    match spec_entropy((le16(b, pos + 11) / 512) % 16) {
        Some(e) => Some(ContextPdu { flags: (le16(b, pos + 11) % 8) as u8, entropy_algorithm: e }),
        None => None,
    }
}

fn parse_channels(b: &[u8], pos: usize, end: usize) -> (r: Result<ChannelsPdu, RfxError>)
    requires
        block_fits(b@, pos as int, BLOCK_CHANNELS, 7),
        end == block_end(b@, pos as int),
    ensures
        r.is_ok() <==> pos + 7 + 5 * b@[pos + 6] <= end,
        r.is_ok() ==> r.unwrap().0@.len() == b@[pos + 6] && forall|i: int|
            0 <= i < r.unwrap().0@.len() ==> #[trigger] r.unwrap().0@[i] == spec_channel(b@, pos + 7 + 5 * i),
{
    let count = b[pos + 6] as usize;
    if end - pos < 7 + 5 * count {
        return Err(RfxError::InvalidBlockLength);
    }
    let mut channels: Vec<RfxChannel> = Vec::new();
    let mut i: usize = 0;
    while i < count
        invariant
            i <= count,
            channels@.len() == i,
            count == b@[pos + 6],
            pos + 7 + 5 * count <= end,
            end <= b@.len(),
            forall|k: int| 0 <= k < i ==> #[trigger] channels@[k] == spec_channel(b@, pos + 7 + 5 * k),
        decreases count - i,
    {
        let at = pos + 7 + 5 * i;
        let width = read_u16_le(b, at + 1) as i16;
        let height = read_u16_le(b, at + 3) as i16;
        channels.push(RfxChannel { width, height });
        i += 1;
    }
    Ok(ChannelsPdu(channels))
}

/// Whether a well-formed Context, Channels or CodecVersions block starts at `pos`.
pub open spec fn header_ok(b: Seq<u8>, pos: int) -> bool {
    let ty = le16(b, pos);
    if ty == BLOCK_CONTEXT {
        block_fits(b, pos, BLOCK_CONTEXT, 13) && spec_context(b, pos) is Some
    } else if ty == BLOCK_CHANNELS {
        block_fits(b, pos, BLOCK_CHANNELS, 7) && pos + 7 + 5 * b[pos + 6] <= block_end(b, pos)
    } else if ty == BLOCK_CODEC_VERSIONS {
        block_fits(b, pos, BLOCK_CODEC_VERSIONS, 7)
    } else {
        false
    }
}

/// Parses one of the three header blocks that follow Sync, in any order.
pub fn parse_header(b: &[u8], pos: usize) -> (r: Result<(Headers, usize), RfxError>)
    ensures
        r.is_ok() <==> pos + 6 <= b@.len() && header_ok(b@, pos as int),
        r.is_ok() ==> pos + 6 <= b@.len() && r.unwrap().1 == block_end(b@, pos as int)
            && block_end(b@, pos as int) <= b@.len(),
        r.is_ok() ==> (r.unwrap().0 is Context <==> le16(b@, pos as int) == BLOCK_CONTEXT),
        r.is_ok() ==> (r.unwrap().0 is Channels <==> le16(b@, pos as int) == BLOCK_CHANNELS),
        r.is_ok() ==> (r.unwrap().0 is CodecVersions <==> le16(b@, pos as int)
            == BLOCK_CODEC_VERSIONS),
        pos + 2 <= b@.len() && le16(b@, pos as int) != BLOCK_CONTEXT && le16(b@, pos as int)
            != BLOCK_CHANNELS && le16(b@, pos as int) != BLOCK_CODEC_VERSIONS ==> r.is_err(),
        r matches Ok((Headers::Context(c), _)) ==> Some(c) == spec_context(b@, pos as int),
        r matches Ok((Headers::Channels(c), _)) ==> c.0@.len() == b@[pos + 6] && forall|i: int|
            0 <= i < c.0@.len() ==> #[trigger] c.0@[i] == spec_channel(b@, pos + 7 + 5 * i),
{
    let n = b.len();
    if pos > n || n - pos < 6 {
        return Err(RfxError::NotEnoughBytes);
    }
    let ty = read_u16_le(b, pos);
    if ty == BLOCK_CONTEXT {
        let end = block(b, pos, BLOCK_CONTEXT, 13)?;
        let c = parse_context(b, pos)?;
        Ok((Headers::Context(c), end))
    } else if ty == BLOCK_CHANNELS {
        let end = block(b, pos, BLOCK_CHANNELS, 7)?;
        let c = parse_channels(b, pos, end)?;
        Ok((Headers::Channels(c), end))
    } else if ty == BLOCK_CODEC_VERSIONS {
        let end = block(b, pos, BLOCK_CODEC_VERSIONS, 7)?;
        Ok((Headers::CodecVersions, end))
    } else {
        Err(RfxError::UnexpectedBlockType(ty))
    }
}

/// Parses the FrameBegin block at `pos`.
pub fn parse_frame_begin(b: &[u8], pos: usize) -> (r: Result<(FrameBeginPdu, usize), RfxError>)
    ensures
        r.is_ok() <==> block_fits(b@, pos as int, BLOCK_FRAME_BEGIN, 14),
        r.is_ok() ==> r.unwrap().1 == block_end(b@, pos as int) && r.unwrap().0.index == le32(
            b@,
            pos + 8,
        ),
{
    let end = block(b, pos, BLOCK_FRAME_BEGIN, 14)?;
    let index = read_u32_le(b, pos + 8);
    let number_of_regions = read_u16_le(b, pos + 12) as i16;
    Ok((FrameBeginPdu { index, number_of_regions }, end))
}

/// Parses the FrameEnd block at `pos`.
pub fn parse_frame_end(b: &[u8], pos: usize) -> (r: Result<usize, RfxError>)
    ensures
        r.is_ok() <==> block_fits(b@, pos as int, BLOCK_FRAME_END, 8),
        r.is_ok() ==> r.unwrap() == block_end(b@, pos as int),
{
    block(b, pos, BLOCK_FRAME_END, 8)
}

/// The rectangle whose eight bytes start at `at`.
pub open spec fn spec_rfx_rect(b: Seq<u8>, at: int) -> RfxRectangle {
    RfxRectangle {
        x: le16(b, at) as u16,
        y: le16(b, at + 2) as u16,
        width: le16(b, at + 4) as u16,
        height: le16(b, at + 6) as u16,
    }
}

/// Parses the Region block at `pos`.
pub fn parse_region(b: &[u8], pos: usize) -> (r: Result<(RegionPdu, usize), RfxError>)
    ensures
        r.is_ok() <==> block_fits(b@, pos as int, BLOCK_REGION, 15) && pos + 15 + 8 * le16(
            b@,
            pos + 9,
        ) <= block_end(b@, pos as int),
        r.is_ok() ==> r.unwrap().1 == block_end(b@, pos as int),
        r.is_ok() ==> r.unwrap().0.rectangles@.len() == le16(b@, pos + 9) && forall|i: int|
            0 <= i < r.unwrap().0.rectangles@.len() ==> #[trigger] r.unwrap().0.rectangles@[i]
                == spec_rfx_rect(b@, pos + 11 + 8 * i),
{
    let end = block(b, pos, BLOCK_REGION, 15)?;
    let count = read_u16_le(b, pos + 9) as usize;
    if end - pos < 15 + 8 * count {
        return Err(RfxError::InvalidBlockLength);
    }
    let mut rectangles: Vec<RfxRectangle> = Vec::new();
    let mut i: usize = 0;
    while i < count
        invariant
            i <= count,
            count == le16(b@, pos + 9),
            rectangles@.len() == i,
            pos + 15 + 8 * count <= end,
            end <= b@.len(),
            forall|k: int| 0 <= k < i ==> #[trigger] rectangles@[k] == spec_rfx_rect(b@, pos + 11 + 8 * k),
        decreases count - i,
    {
        let at = pos + 11 + 8 * i;
        let x = read_u16_le(b, at);
        let y = read_u16_le(b, at + 2);
        let width = read_u16_le(b, at + 4);
        let height = read_u16_le(b, at + 6);
        rectangles.push(RfxRectangle { x, y, width, height });
        i += 1;
    }
    Ok((RegionPdu { rectangles }, end))
}

/// The quantization table whose five bytes start at `at`, low nibble first.
pub open spec fn spec_quant(b: Seq<u8>, at: int) -> Quant {
    Quant {
        ll3: b[at] % 16,
        lh3: b[at] / 16,
        hl3: b[at + 1] % 16,
        hh3: b[at + 1] / 16,
        lh2: b[at + 2] % 16,
        hl2: b[at + 2] / 16,
        hh2: b[at + 3] % 16,
        lh1: b[at + 3] / 16,
        hl1: b[at + 4] % 16,
        hh1: b[at + 4] / 16,
    }
}

fn parse_quant(b: &[u8], at: usize) -> (r: Quant)
    requires
        at + 5 <= b@.len(),
    ensures
        r == spec_quant(b@, at as int),
{
    Quant {
        ll3: b[at] % 16,
        lh3: b[at] / 16,
        hl3: b[at + 1] % 16,
        hh3: b[at + 1] / 16,
        lh2: b[at + 2] % 16,
        hl2: b[at + 2] / 16,
        hh2: b[at + 3] % 16,
        lh1: b[at + 3] / 16,
        hl1: b[at + 4] % 16,
        hh1: b[at + 4] / 16,
    }
}

fn copy_bytes(b: &[u8], from: usize, len: usize) -> (r: Vec<u8>)
    requires
        from + len <= b@.len(),
    ensures
        r@ == b@.subrange(from as int, from + len),
{
    let _n = b.len();
    vstd::slice::slice_to_vec(&b[from..from + len])
}

pub type TileView = (u8, u8, u8, u16, u16, Seq<u8>, Seq<u8>, Seq<u8>);

pub open spec fn tile_view(t: Tile) -> TileView {
    (t.y_quant_index, t.cb_quant_index, t.cr_quant_index, t.x, t.y, t.y_data@, t.cb_data@, t.cr_data@)
}

/// Whether a well-formed tile block starts at `pos` and ends by `limit`.
pub open spec fn tile_fits(b: Seq<u8>, pos: int, limit: int) -> bool {
    &&& pos + 19 <= limit
    &&& block_fits(b, pos, BLOCK_TILE, 19)
    &&& block_end(b, pos) <= limit
    &&& 19 + le16(b, pos + 13) + le16(b, pos + 15) + le16(b, pos + 17) <= le32(b, pos + 2)
}

/// The tile in the block at `pos`: quantization indices, position, and the
/// Y, Cb and Cr data whose lengths its header gives.
pub open spec fn spec_tile(b: Seq<u8>, pos: int) -> TileView {
    let yl = le16(b, pos + 13);
    let cbl = le16(b, pos + 15);
    let crl = le16(b, pos + 17);
    let d = pos + 19;
    (
        b[pos + 6],
        b[pos + 7],
        b[pos + 8],
        le16(b, pos + 9) as u16,
        le16(b, pos + 11) as u16,
        b.subrange(d, d + yl),
        b.subrange(d + yl, d + yl + cbl),
        b.subrange(d + yl + cbl, d + yl + cbl + crl),
    )
}

/// The `n` tiles from `pos` on, each block ending by `limit`.
pub open spec fn spec_tiles(b: Seq<u8>, pos: int, limit: int, n: nat) -> Option<Seq<TileView>>
    decreases n,
{
    if n == 0 {
        Some(Seq::empty())
    } else if !tile_fits(b, pos, limit) {
        None
    } else {
        match spec_tiles(b, block_end(b, pos), limit, (n - 1) as nat) {
            Some(rest) => Some(seq![spec_tile(b, pos)] + rest),
            None => None,
        }
    }
}

/// Parses the tile block at `pos`, which must end by `limit`.
fn parse_tile(b: &[u8], pos: usize, limit: usize) -> (r: Result<(Tile, usize), RfxError>)
    requires
        limit <= b@.len(),
    ensures
        r.is_ok() <==> tile_fits(b@, pos as int, limit as int),
        r matches Ok((t, next)) ==> tile_view(t) == spec_tile(b@, pos as int) && next == block_end(b@, pos as int)
            && pos < next <= limit,
{
    if pos > limit || limit - pos < 19 {
        return Err(RfxError::NotEnoughBytes);
    }
    let end = block(b, pos, BLOCK_TILE, 19)?;
    if end > limit {
        return Err(RfxError::InvalidBlockLength);
    }
    let y_quant_index = b[pos + 6];
    let cb_quant_index = b[pos + 7];
    let cr_quant_index = b[pos + 8];
    let x = read_u16_le(b, pos + 9);
    let y = read_u16_le(b, pos + 11);
    let y_len = read_u16_le(b, pos + 13) as usize;
    let cb_len = read_u16_le(b, pos + 15) as usize;
    let cr_len = read_u16_le(b, pos + 17) as usize;
    if end - pos < 19 + y_len + cb_len + cr_len {
        return Err(RfxError::InvalidBlockLength);
    }
    let y_data = copy_bytes(b, pos + 19, y_len);
    let cb_data = copy_bytes(b, pos + 19 + y_len, cb_len);
    let cr_data = copy_bytes(b, pos + 19 + y_len + cb_len, cr_len);
    Ok(
        (
            Tile { y_quant_index, cb_quant_index, cr_quant_index, x, y, y_data, cb_data, cr_data },
            end,
        ),
    )
}

/// Whether a well-formed TileSet block starts at `pos`.
pub open spec fn tile_set_ok(b: Seq<u8>, pos: int) -> bool {
    &&& block_fits(b, pos, BLOCK_TILESET, 22)
    &&& le16(b, pos + 8) == TILESET_SUBTYPE
    &&& spec_entropy((le16(b, pos + 12) / 1024) % 16) is Some
    &&& pos + 22 + 5 * b[pos + 14] <= block_end(b, pos)
    &&& spec_tiles(b, pos + 22 + 5 * b[pos + 14], block_end(b, pos), le16(b, pos + 16) as nat) is Some
}

/// Parses the TileSet block at `pos`: its entropy algorithm, quantization
/// tables and tiles.
pub fn parse_tile_set(b: &[u8], pos: usize) -> (r: Result<(TileSetPdu, usize), RfxError>)
    ensures
        r.is_ok() ==> block_fits(b@, pos as int, BLOCK_TILESET, 22) && r.unwrap().1 == block_end(
            b@,
            pos as int,
        ),
        r.is_ok() ==> Some(r.unwrap().0.entropy_algorithm) == spec_entropy(
            (le16(b@, pos + 12) / 1024) % 16,
        ),
        r.is_ok() ==> r.unwrap().0.quants@.len() == b@[pos + 14] && forall|i: int|
            0 <= i < r.unwrap().0.quants@.len() ==> #[trigger] r.unwrap().0.quants@[i]
                == spec_quant(b@, pos + 22 + 5 * i),
        r.is_ok() ==> r.unwrap().0.tiles@.len() == le16(b@, pos + 16),
        r matches Ok((ts, _)) ==> Some(ts.tiles@.map_values(|t: Tile| tile_view(t))) == spec_tiles(
            b@,
            pos + 22 + 5 * b@[pos + 14],
            block_end(b@, pos as int),
            le16(b@, pos + 16) as nat,
        ),
        !block_fits(b@, pos as int, BLOCK_TILESET, 22) ==> r.is_err(),
        r.is_ok() <==> tile_set_ok(b@, pos as int),
{
    let end = block(b, pos, BLOCK_TILESET, 22)?;
    if read_u16_le(b, pos + 8) != TILESET_SUBTYPE {
        return Err(RfxError::UnexpectedBlockType(read_u16_le(b, pos + 8)));
    }
    let properties = read_u16_le(b, pos + 12);
    let et = (properties / 1024) % 16;
    let entropy_algorithm = if et == 1 {
        EntropyAlgorithm::Rlgr1
    } else if et == 4 {
        EntropyAlgorithm::Rlgr3
    } else {
        return Err(RfxError::InvalidEntropyAlgorithm(et));
    };
    let num_quants = b[pos + 14] as usize;
    let num_tiles = read_u16_le(b, pos + 16) as usize;
    if end - pos < 22 + 5 * num_quants {
        return Err(RfxError::InvalidBlockLength);
    }
    let mut quants: Vec<Quant> = Vec::new();
    let mut i: usize = 0;
    while i < num_quants
        invariant
            i <= num_quants,
            num_quants == b@[pos + 14],
            quants@.len() == i,
            pos + 22 + 5 * num_quants <= end,
            end <= b@.len(),
            forall|k: int| 0 <= k < i ==> #[trigger] quants@[k] == spec_quant(b@, pos + 22 + 5 * k),
        decreases num_quants - i,
    {
        quants.push(parse_quant(b, pos + 22 + 5 * i));
        i += 1;
    }
    let mut tiles: Vec<Tile> = Vec::new();
    let mut at = pos + 22 + 5 * num_quants;
    let ghost first = at as int;
    let mut j: usize = 0;
    while j < num_tiles
        invariant
            j <= num_tiles,
            tiles@.len() == j,
            at <= end,
            end <= b@.len(),
            first == pos + 22 + 5 * b@[pos + 14],
            end == block_end(b@, pos as int),
            num_tiles == le16(b@, pos + 16),
            spec_tiles(b@, first, end as int, num_tiles as nat) == {
                match spec_tiles(b@, at as int, end as int, (num_tiles - j) as nat) {
                    Some(rest) => Some(tiles@.map_values(|t: Tile| tile_view(t)) + rest),
                    None => None,
                }
            },
        decreases num_tiles - j,
    {
        let ghost xs = tiles@.map_values(|t: Tile| tile_view(t));
        let (tile, next) = parse_tile(b, at, end)?;
        tiles.push(tile);
        proof {
            let x = spec_tile(b@, at as int);
            assert(tiles@.map_values(|t: Tile| tile_view(t)) =~= xs.push(x));
            match spec_tiles(b@, next as int, end as int, (num_tiles - j - 1) as nat) {
                Some(rest) => {
                    assert(xs + (seq![x] + rest) =~= xs.push(x) + rest);
                },
                None => {},
            }
        }
        at = next;
        j += 1;
    }
    proof {
        let xs = tiles@.map_values(|t: Tile| tile_view(t));
        assert(xs + Seq::<TileView>::empty() =~= xs);
    }
    Ok((TileSetPdu { entropy_algorithm, quants, tiles }, end))
}

} // verus!
