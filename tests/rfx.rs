use ironrdp_client::error::RdpError;
use ironrdp_client::fast_path::FastPathProcessor;
use ironrdp_client::session::{ActiveStage, Step};
use ironrdp_client::x224::Processor;
use ironrdp_client::image::{DecodedImage, PixelFormat};
use ironrdp_client::region::Rectangle;
use ironrdp_client::rfx::{DecodingContext, SequenceState};

fn block(ty: u16, body: &[u8]) -> Vec<u8> {
    let len = (6 + body.len()) as u32;
    let mut v = Vec::new();
    v.extend_from_slice(&ty.to_le_bytes());
    v.extend_from_slice(&len.to_le_bytes());
    v.extend_from_slice(body);
    v
}

fn sync() -> Vec<u8> {
    let mut body = Vec::new();
    body.extend_from_slice(&0xCACC_ACCAu32.to_le_bytes());
    body.extend_from_slice(&0x0100u16.to_le_bytes());
    block(0xCCC0, &body)
}

fn codec_versions() -> Vec<u8> {
    block(0xCCC1, &[1, 1, 0x00, 0x01])
}

fn channels(width: u16, height: u16) -> Vec<u8> {
    let mut body = vec![1, 0];
    body.extend_from_slice(&width.to_le_bytes());
    body.extend_from_slice(&height.to_le_bytes());
    block(0xCCC2, &body)
}

/// Context with RLGR1; `flags` are the operating mode bits.
fn context(flags: u16) -> Vec<u8> {
    let properties: u16 = flags | (1 << 3) | (1 << 5) | (1 << 9);
    let mut body = vec![1, 0xFF, 0];
    body.extend_from_slice(&64u16.to_le_bytes());
    body.extend_from_slice(&properties.to_le_bytes());
    block(0xCCC3, &body)
}

fn frame_begin(index: u32) -> Vec<u8> {
    let mut body = vec![1, 0];
    body.extend_from_slice(&index.to_le_bytes());
    body.extend_from_slice(&1u16.to_le_bytes());
    block(0xCCC4, &body)
}

fn region(rects: &[(u16, u16, u16, u16)]) -> Vec<u8> {
    let mut body = vec![1, 0, 1];
    body.extend_from_slice(&(rects.len() as u16).to_le_bytes());
    for &(x, y, w, h) in rects {
        for v in [x, y, w, h] {
            body.extend_from_slice(&v.to_le_bytes());
        }
    }
    body.extend_from_slice(&0xCAC1u16.to_le_bytes());
    body.extend_from_slice(&1u16.to_le_bytes());
    block(0xCCC6, &body)
}

fn tile(x: u16, y: u16, data: &[u8]) -> Vec<u8> {
    let mut body = vec![0, 0, 0];
    body.extend_from_slice(&x.to_le_bytes());
    body.extend_from_slice(&y.to_le_bytes());
    for _ in 0..3 {
        body.extend_from_slice(&(data.len() as u16).to_le_bytes());
    }
    for _ in 0..3 {
        body.extend_from_slice(data);
    }
    block(0xCAC3, &body)
}

fn tile_set(tiles: &[Vec<u8>]) -> Vec<u8> {
    let tiles_bytes: Vec<u8> = tiles.iter().flatten().copied().collect();
    let properties: u16 = 1 | (1 << 10);
    let mut body = vec![1, 0];
    body.extend_from_slice(&0xCAC2u16.to_le_bytes());
    body.extend_from_slice(&0u16.to_le_bytes());
    body.extend_from_slice(&properties.to_le_bytes());
    body.push(1);
    body.push(64);
    body.extend_from_slice(&(tiles.len() as u16).to_le_bytes());
    body.extend_from_slice(&(tiles_bytes.len() as u32).to_le_bytes());
    body.extend_from_slice(&[0x66, 0x66, 0x66, 0x66, 0x66]);
    body.extend_from_slice(&tiles_bytes);
    block(0xCCC7, &body)
}

fn frame_end() -> Vec<u8> {
    block(0xCCC5, &[1, 0])
}

fn headers(width: u16, height: u16, flags: u16) -> Vec<u8> {
    let mut v = sync();
    v.extend(codec_versions());
    v.extend(channels(width, height));
    v.extend(context(flags));
    v
}

fn frame(index: u32, rects: &[(u16, u16, u16, u16)], tiles: &[Vec<u8>]) -> Vec<u8> {
    let mut v = frame_begin(index);
    v.extend(region(rects));
    v.extend(tile_set(tiles));
    v.extend(frame_end());
    v
}

fn full_destination(w: u16, h: u16) -> Rectangle {
    Rectangle { left: 0, top: 0, right: w, bottom: h }
}

fn pixel(image: &DecodedImage, x: usize, y: usize) -> [u8; 4] {
    let w = image.width() as usize;
    let i = (y * w + x) * 4;
    let d = image.data();
    [d[i], d[i + 1], d[i + 2], d[i + 3]]
}

#[test]
fn rfx_handshake_happy_path() {
    let mut input = headers(1024, 768, 0);
    input.extend(frame(0, &[], &[tile(0, 0, &[0x00])]));
    let mut context = DecodingContext::new();
    let mut image = DecodedImage::new(1024, 768, PixelFormat::RgbA32);
    let (frame_id, damage) = context.decode(&mut image, &full_destination(1024, 768), &input).unwrap();
    assert_eq!(context.state(), SequenceState::DataMessages);
    assert_eq!(frame_id, 0);
    assert_eq!(damage, Rectangle { left: 0, top: 0, right: 1024, bottom: 768 });
    // all-zero coefficients decode to the level-shifted mid grey of the codec
    for y in 0..64 {
        for x in 0..64 {
            assert_eq!(pixel(&image, x, y), [128, 128, 128, 255]);
        }
    }
    // outside the tile nothing was drawn
    assert_eq!(pixel(&image, 64, 0), [0, 0, 0, 0]);
    assert_eq!(pixel(&image, 0, 64), [0, 0, 0, 0]);
}

#[test]
fn rfx_header_absent() {
    let mut input = sync();
    input.extend(codec_versions());
    input.extend(codec_versions());
    input.extend(channels(64, 64));
    let mut context = DecodingContext::new();
    let mut image = DecodedImage::new(64, 64, PixelFormat::RgbA32);
    let r = context.decode(&mut image, &full_destination(64, 64), &input);
    assert_eq!(r, Err(RdpError::MandatoryHeaderIsAbsent));
    assert_eq!(context.state(), SequenceState::HeaderMessages);
}

#[test]
fn rfx_channels_header_absent() {
    let mut input = sync();
    input.extend(codec_versions());
    input.extend(context(0));
    input.extend(context(0));
    let mut context = DecodingContext::new();
    let mut image = DecodedImage::new(64, 64, PixelFormat::RgbA32);
    let r = context.decode(&mut image, &full_destination(64, 64), &input);
    assert_eq!(r, Err(RdpError::MandatoryHeaderIsAbsent));
}

#[test]
fn rfx_no_channels_announced() {
    let mut input = sync();
    input.extend(codec_versions());
    input.extend(block(0xCCC2, &[0]));
    input.extend(context(0));
    let mut context = DecodingContext::new();
    let mut image = DecodedImage::new(64, 64, PixelFormat::RgbA32);
    let r = context.decode(&mut image, &full_destination(64, 64), &input);
    assert_eq!(r, Err(RdpError::NoRfxChannelsAnnounced));
}

#[test]
fn rfx_damage_within_channel_bounds() {
    // a region rectangle reaching past the channel is clamped to it
    let mut input = headers(100, 80, 0);
    input.extend(frame(3, &[(10, 20, 500, 500), (0, 0, 5, 5)], &[tile(0, 0, &[0x00])]));
    let mut context = DecodingContext::new();
    let mut image = DecodedImage::new(100, 80, PixelFormat::RgbA32);
    let (frame_id, damage) = context.decode(&mut image, &full_destination(100, 80), &input).unwrap();
    assert_eq!(frame_id, 3);
    assert_eq!(damage, Rectangle { left: 0, top: 0, right: 100, bottom: 80 });
    // clipped out: (6, 6) is in no region rectangle
    assert_eq!(pixel(&image, 6, 6), [0, 0, 0, 0]);
    assert_eq!(pixel(&image, 4, 4), [128, 128, 128, 255]);
    assert_eq!(pixel(&image, 12, 25), [128, 128, 128, 255]);
}

#[test]
fn rfx_decoding_is_deterministic() {
    let mut input = headers(128, 64, 0);
    let noisy = [0x95, 0x3c, 0xa7, 0x01, 0xff, 0x40, 0x12, 0x88];
    input.extend(frame(1, &[], &[tile(0, 0, &noisy), tile(1, 0, &[0x00])]));
    let mut first = DecodedImage::new(128, 64, PixelFormat::RgbA32);
    let mut second = DecodedImage::new(128, 64, PixelFormat::RgbA32);
    let r1 = DecodingContext::new().decode(&mut first, &full_destination(128, 64), &input);
    let r2 = DecodingContext::new().decode(&mut second, &full_destination(128, 64), &input);
    assert_eq!(r1, r2);
    assert!(r1.is_ok());
    assert_eq!(first.data(), second.data());
}

#[test]
fn rfx_video_mode_keeps_data_state() {
    let mut input = headers(64, 64, 0);
    input.extend(frame(0, &[], &[]));
    let mut context = DecodingContext::new();
    let mut image = DecodedImage::new(64, 64, PixelFormat::RgbA32);
    context.decode(&mut image, &full_destination(64, 64), &input).unwrap();
    // the next frame comes without headers
    let next = frame(1, &[], &[]);
    let (id, _) = context.decode(&mut image, &full_destination(64, 64), &next).unwrap();
    assert_eq!(id, 1);
    assert_eq!(context.state(), SequenceState::DataMessages);
}

#[test]
fn rfx_image_mode_returns_to_headers() {
    let mut input = headers(64, 64, 0x02);
    input.extend(frame(0, &[], &[]));
    let mut context = DecodingContext::new();
    let mut image = DecodedImage::new(64, 64, PixelFormat::RgbA32);
    context.decode(&mut image, &full_destination(64, 64), &input).unwrap();
    assert_eq!(context.state(), SequenceState::HeaderMessages);
}

#[test]
fn rfx_quant_index_out_of_range() {
    let mut input = headers(64, 64, 0);
    let mut bad_tile = tile(0, 0, &[0x00]);
    bad_tile[6] = 5; // y quant index beyond the one table sent
    input.extend(frame(0, &[], &[bad_tile]));
    let mut context = DecodingContext::new();
    let mut image = DecodedImage::new(64, 64, PixelFormat::RgbA32);
    let r = context.decode(&mut image, &full_destination(64, 64), &input);
    assert_eq!(r, Err(RdpError::Rfx(ironrdp_client::error::RfxError::InvalidQuantIndex(5))));
}

#[test]
fn rfx_bgrx_destination_format() {
    let mut input = headers(64, 64, 0);
    input.extend(frame(0, &[], &[tile(0, 0, &[0x00])]));
    let mut context = DecodingContext::new();
    let mut image = DecodedImage::new(64, 64, PixelFormat::BgrX32);
    context.decode(&mut image, &full_destination(64, 64), &input).unwrap();
    assert_eq!(pixel(&image, 10, 10), [128, 128, 128, 255]);
}

#[test]
fn fast_path_surface_bits_reach_the_framebuffer() {
    let mut rfx = headers(128, 64, 0);
    rfx.extend(frame(5, &[(0, 0, 64, 64)], &[tile(0, 0, &[0x00])]));
    let mut command = Vec::new();
    command.extend_from_slice(&1u16.to_le_bytes());
    for v in [0u16, 0, 128, 64] {
        command.extend_from_slice(&v.to_le_bytes());
    }
    command.extend_from_slice(&[32, 0, 0, 3]);
    command.extend_from_slice(&128u16.to_le_bytes());
    command.extend_from_slice(&64u16.to_le_bytes());
    command.extend_from_slice(&(rfx.len() as u32).to_le_bytes());
    command.extend(rfx);
    let mut update = vec![0x04];
    update.extend_from_slice(&(command.len() as u16).to_le_bytes());
    update.extend(command);
    let total = update.len() + 3;
    let mut pdu = vec![0x00, 0x80 | (total >> 8) as u8, total as u8];
    pdu.extend(update);

    let x224 = Processor::new(vec![(1003, "global".to_string())], "global", 1007, false);
    let mut stage = ActiveStage::new(x224, FastPathProcessor::new(128, 64, PixelFormat::RgbA32).unwrap());
    assert_eq!(stage.process_pdu(&pdu), Ok(Step::Continue(vec![])));
    assert_eq!(stage.fast_path.last_frame(), Some(5));
    assert_eq!(stage.fast_path.take_damaged(), Some(Rectangle { left: 0, top: 0, right: 64, bottom: 64 }));
    assert_eq!(stage.fast_path.take_damaged(), None);
    let image = stage.fast_path.image();
    assert_eq!(pixel(image, 63, 63), [128, 128, 128, 255]);
    assert_eq!(pixel(image, 64, 0), [0, 0, 0, 0]);
}
