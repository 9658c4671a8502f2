use ironrdp_client::error::RdpError;
use ironrdp_client::fast_path::FastPathProcessor;
use ironrdp_client::gfx::{create_capabilities_advertise, Handler};
use ironrdp_client::zgfx::zgfx_decompress;
use ironrdp_client::image::PixelFormat;
use ironrdp_client::session::{read_failure, ActiveStage, ReadFailure, Step};
use ironrdp_client::share::{process_global_channel_pdu, SaveSessionInfoPdu, InfoType};
use ironrdp_client::x224::Processor;

fn end_frame(frame_id: u32) -> Vec<u8> {
    let mut v = vec![0x0C, 0x00, 0x00, 0x00, 12, 0, 0, 0];
    v.extend_from_slice(&frame_id.to_le_bytes());
    v
}

fn frame_ack(frame_id: u32, total: u32) -> Vec<u8> {
    let mut v = vec![0x0D, 0, 0, 0, 20, 0, 0, 0, 0xFF, 0xFF, 0xFF, 0xFF];
    v.extend_from_slice(&frame_id.to_le_bytes());
    v.extend_from_slice(&total.to_le_bytes());
    v
}

#[test]
fn gfx_end_frame_is_acknowledged() {
    let mut handler = Handler::new(false);
    let reply = handler.process_decompressed(&end_frame(7)).unwrap();
    assert_eq!(reply, Some(frame_ack(7, 1)));
    assert_eq!(handler.frames_decoded(), 1);
}

#[test]
fn gfx_end_frame_through_zgfx_segment() {
    let mut handler = Handler::new(false);
    let mut message = vec![0xE0, 0x04];
    message.extend(end_frame(7));
    let reply = handler.process_complete_data(message).unwrap();
    assert_eq!(reply, Some(frame_ack(7, 1)));
    let mut second = vec![0xE0, 0x04];
    second.extend(end_frame(8));
    second.extend(end_frame(9));
    let reply = handler.process_complete_data(second).unwrap();
    let mut expected = frame_ack(8, 2);
    expected.extend(frame_ack(9, 3));
    assert_eq!(reply, Some(expected));
}

#[test]
fn gfx_other_pdus_are_forwarded() {
    let mut handler = Handler::new(true);
    let start_frame = vec![0x0B, 0, 0, 0, 16, 0, 0, 0, 1, 0, 0, 0, 2, 0, 0, 0];
    assert_eq!(handler.process_decompressed(&start_frame), Ok(None));
    assert_eq!(handler.take_forwarded(), vec![start_frame]);
    assert_eq!(handler.frames_decoded(), 0);
}

#[test]
fn gfx_truncated_pdu_is_an_error() {
    let mut handler = Handler::new(false);
    assert_eq!(handler.process_decompressed(&end_frame(1)[..10]), Err(RdpError::GfxError));
}

fn unwrap(msg: &[u8]) -> Result<Vec<u8>, RdpError> {
    let mut history = Vec::new();
    zgfx_decompress(&mut history, msg)
}

#[test]
fn zgfx_uncompressed_segments() {
    assert_eq!(unwrap(&[0xE0, 0x04, 1, 2, 3]), Ok(vec![1, 2, 3]));
    let multipart = [0xE1, 2, 0, 3, 0, 0, 0, 2, 0, 0, 0, 0x04, 9, 3, 0, 0, 0, 0x04, 8, 7];
    assert_eq!(unwrap(&multipart), Ok(vec![9, 8, 7]));
    assert_eq!(unwrap(&[0x10]), Err(RdpError::ZgfxError));
    // a declared total that the segments do not give
    let short = [0xE1, 1, 0, 5, 0, 0, 0, 2, 0, 0, 0, 0x04, 9];
    assert_eq!(unwrap(&short), Err(RdpError::ZgfxError));
}

#[test]
fn zgfx_literals_and_match() {
    // literal 'A', literal 'B', match of 3 bytes at distance 2
    assert_eq!(unwrap(&[0xE0, 0x24, 32, 144, 162, 32, 3]), Ok(b"ABABA".to_vec()));
    // the same with a match of 9 bytes
    assert_eq!(unwrap(&[0xE0, 0x24, 32, 144, 162, 44, 64, 6]), Ok(b"ABABABABABA".to_vec()));
}

#[test]
fn zgfx_table_literals() {
    assert_eq!(unwrap(&[0xE0, 0x24, 198, 118, 0]), Ok(vec![0x00, 0x01, 0xFF]));
}

#[test]
fn zgfx_unencoded_bytes() {
    assert_eq!(unwrap(&[0xE0, 0x24, 136, 0, 1, 128, 7, 8, 9, 0]), Ok(vec![7, 8, 9]));
}

#[test]
fn zgfx_history_spans_messages() {
    let mut history = Vec::new();
    assert_eq!(zgfx_decompress(&mut history, &[0xE0, 0x24, 60, 30, 79, 64, 5]), Ok(b"xyz".to_vec()));
    assert_eq!(zgfx_decompress(&mut history, &[0xE0, 0x24, 136, 192, 5]), Ok(b"xyz".to_vec()));
    // without the history the distance reaches before the start
    assert_eq!(unwrap(&[0xE0, 0x24, 136, 192, 5]), Err(RdpError::ZgfxError));
}

#[test]
fn zgfx_bad_padding_count() {
    assert_eq!(unwrap(&[0xE0, 0x24, 0x20, 9]), Err(RdpError::ZgfxError));
}

#[test]
fn gfx_compressed_end_frame_is_acknowledged() {
    let mut handler = Handler::new(false);
    let mut message = vec![0xE0, 0x24];
    message.extend_from_slice(&[6, 0, 0, 0, 0, 96, 0, 0, 0, 3, 128, 0, 0, 0, 4]);
    let reply = handler.process_complete_data(message).unwrap();
    assert_eq!(reply, Some(frame_ack(7, 1)));
}

#[test]
fn capabilities_advertise_layout() {
    let caps = create_capabilities_advertise().unwrap();
    assert_eq!(caps.len(), 58);
    assert_eq!(caps[..10], [0x12, 0, 0, 0, 58, 0, 0, 0, 4, 0]);
    // version 10.6 with small cache and thin client
    assert_eq!(caps[46..], [0x00, 0x06, 0x0A, 0x00, 4, 0, 0, 0, 0x42, 0, 0, 0]);
}

fn stage() -> ActiveStage {
    let x224 = Processor::new(
        vec![(1003, "global".to_string()), (1004, "drdynvc".to_string()), (1005, "cliprdr".to_string())],
        "global",
        1007,
        false,
    );
    ActiveStage::new(x224, FastPathProcessor::new(64, 64, PixelFormat::RgbA32).unwrap())
}

/// A TPKT-framed X.224 Data TPDU holding an MCS Send Data Indication.
fn indication(channel_id: u16, data: &[u8]) -> Vec<u8> {
    let mut mcs = vec![26 << 2, 0, 6];
    mcs.extend_from_slice(&channel_id.to_be_bytes());
    mcs.push(0x70);
    if data.len() < 0x80 {
        mcs.push(data.len() as u8);
    } else {
        mcs.push(0x80 | (data.len() >> 8) as u8);
        mcs.push(data.len() as u8);
    }
    mcs.extend_from_slice(data);
    let total = (mcs.len() + 7) as u16;
    let mut v = vec![3, 0];
    v.extend_from_slice(&total.to_be_bytes());
    v.extend_from_slice(&[2, 0xF0, 0x80]);
    v.extend(mcs);
    v
}

fn svc(dvc: &[u8]) -> Vec<u8> {
    let mut v = (dvc.len() as u32).to_le_bytes().to_vec();
    v.extend_from_slice(&3u32.to_le_bytes());
    v.extend_from_slice(dvc);
    v
}

/// The DVC PDU inside a reply produced by the processor.
fn reply_dvc(out: &[u8]) -> Vec<u8> {
    // TPKT (4) + X.224 (3) + MCS header (7 or 8) + SVC header (8)
    let mcs = &out[7..];
    let header = if mcs[6] & 0x80 != 0 { 8 } else { 7 };
    mcs[header + 8..].to_vec()
}

#[test]
fn graceful_disconnect() {
    let mut stage = stage();
    let frame = [3, 0, 0, 9, 2, 0xF0, 0x80, 0x21, 0x80];
    assert_eq!(stage.process_pdu(&frame), Ok(Step::Exit));
}

#[test]
fn unexpected_channel_ends_the_session() {
    let mut stage = stage();
    assert_eq!(stage.process_pdu(&indication(1005, &[1, 2, 3])), Ok(Step::Exit));
}

#[test]
fn unknown_channel_is_an_error() {
    let mut stage = stage();
    assert_eq!(stage.process_pdu(&indication(1999, &[1, 2, 3])), Err(RdpError::UnknownChannel(1999)));
}

#[test]
fn dvc_capabilities_request_is_answered() {
    let mut stage = stage();
    let out = stage.process_pdu(&indication(1004, &svc(&[0x50, 0x00, 0x03, 0x00]))).unwrap();
    match out {
        Step::Continue(bytes) => {
            assert_eq!(reply_dvc(&bytes), vec![0x50, 0x00, 0x01, 0x00]);
            // the reply goes back with the indication's addressing
            assert_eq!(bytes[7], 25 << 2);
            assert_eq!(bytes[10..12], [0x03, 0xEC]);
        }
        Step::Exit => panic!("session ended"),
    }
}

fn create_request(id: u8, name: &str) -> Vec<u8> {
    let mut v = vec![0x10, id];
    v.extend_from_slice(name.as_bytes());
    v.push(0);
    v
}

#[test]
fn dvc_create_unknown_name_has_no_listener() {
    let mut stage = stage();
    let out = stage.process_pdu(&indication(1004, &svc(&create_request(5, "nobody")))).unwrap();
    match out {
        Step::Continue(bytes) => assert_eq!(reply_dvc(&bytes), vec![0x10, 5, 0x01, 0x00, 0x00, 0xC0]),
        Step::Exit => panic!("session ended"),
    }
    assert!(!stage.x224.has_dynamic_channel(5));
}

#[test]
fn dvc_graphics_channel_lifecycle() {
    let mut stage = stage();
    let out = stage
        .process_pdu(&indication(1004, &svc(&create_request(2, "Microsoft::Windows::RDS::Graphics"))))
        .unwrap();
    let bytes = match out {
        Step::Continue(b) => b,
        Step::Exit => panic!("session ended"),
    };
    // create response with status OK, then the capabilities advertise on the channel
    let first_len = u16::from_be_bytes([bytes[2], bytes[3]]) as usize;
    assert_eq!(reply_dvc(&bytes[..first_len]), vec![0x10, 2, 0, 0, 0, 0]);
    let second = reply_dvc(&bytes[first_len..]);
    assert_eq!(second[..2], [0x30, 2]);
    assert_eq!(second[2..], create_capabilities_advertise().unwrap()[..]);
    assert!(stage.x224.has_dynamic_channel(2));

    // an End Frame in two fragments
    let mut message = vec![0xE0, 0x04];
    message.extend(end_frame(7));
    let mut first = vec![0x20, 2, message.len() as u8];
    first.extend_from_slice(&message[..5]);
    let out = stage.process_pdu(&indication(1004, &svc(&first))).unwrap();
    assert_eq!(out, Step::Continue(vec![]));
    let mut rest = vec![0x30, 2];
    rest.extend_from_slice(&message[5..]);
    let out = stage.process_pdu(&indication(1004, &svc(&rest))).unwrap();
    let bytes = match out {
        Step::Continue(b) => b,
        Step::Exit => panic!("session ended"),
    };
    let mut expected = vec![0x30, 2];
    expected.extend(frame_ack(7, 1));
    assert_eq!(reply_dvc(&bytes), expected);

    // close
    let out = stage.process_pdu(&indication(1004, &svc(&[0x40, 2]))).unwrap();
    match out {
        Step::Continue(b) => assert_eq!(reply_dvc(&b), vec![0x40, 2]),
        Step::Exit => panic!("session ended"),
    }
    assert!(!stage.x224.has_dynamic_channel(2));
}

#[test]
fn dvc_data_on_closed_channel_is_an_error() {
    let mut stage = stage();
    let r = stage.process_pdu(&indication(1004, &svc(&[0x30, 9, 1, 2])));
    assert_eq!(r, Err(RdpError::AccessToNonExistingChannel(9)));
}

#[test]
fn send_on_open_channel() {
    let mut stage = stage();
    stage
        .process_pdu(&indication(1004, &svc(&create_request(3, "Microsoft::Windows::RDS::DisplayControl"))))
        .unwrap();
    let out = stage.x224.send("Microsoft::Windows::RDS::DisplayControl", vec![5, 6]).unwrap();
    assert_eq!(reply_dvc(&out), vec![0x30, 3, 5, 6]);
    // initiator is the user id, channel the DRDYNVC channel
    assert_eq!(out[8..12], [0, 6, 0x03, 0xEC]);
    assert_eq!(
        stage.x224.send("nothing", vec![1]),
        Err(RdpError::AccessToNonExistingChannelName("nothing".to_string()))
    );
}

fn share_data(pdu_type2: u8, body: &[u8]) -> Vec<u8> {
    let total = (18 + body.len()) as u16;
    let mut v = total.to_le_bytes().to_vec();
    v.extend_from_slice(&[0x17, 0x00, 0xEA, 0x03]);
    v.extend_from_slice(&0x1234u32.to_le_bytes());
    v.extend_from_slice(&[0, 2]);
    v.extend_from_slice(&((body.len() + 4) as u16).to_le_bytes());
    v.extend_from_slice(&[pdu_type2, 0, 0, 0]);
    v.extend_from_slice(body);
    v
}

#[test]
fn global_channel_pdus() {
    assert_eq!(process_global_channel_pdu(&share_data(0x2F, &[0, 0, 0, 0])), Ok(()));
    assert_eq!(process_global_channel_pdu(&share_data(0x2F, &[5, 0, 0, 0])), Err(RdpError::ServerError(5)));
    assert_eq!(process_global_channel_pdu(&share_data(0x1F, &[])), Err(RdpError::UnexpectedPdu));
    let mut notify = 2u32.to_le_bytes().to_vec();
    notify.extend(vec![0u8; 576]);
    assert_eq!(process_global_channel_pdu(&share_data(0x26, &notify)), Ok(()));
    let mut stage = stage();
    assert_eq!(stage.process_pdu(&indication(1003, &share_data(0x2F, &[0, 0, 0, 0]))), Ok(Step::Continue(vec![])));
}

#[test]
fn save_session_info_types() {
    let mut notify = 2u32.to_le_bytes().to_vec();
    notify.extend(vec![0u8; 576]);
    let (pdu, len) = SaveSessionInfoPdu::from_buffer(&notify).unwrap();
    assert_eq!(pdu.info_type, InfoType::PlainNotify);
    assert_eq!(len, 580);
    assert_eq!(pdu.buffer_length(), 580);
    let bad = 9u32.to_le_bytes();
    assert_eq!(
        SaveSessionInfoPdu::from_buffer(&bad),
        Err(ironrdp_client::error::SessionError::InvalidSaveSessionInfoType)
    );
}

#[test]
fn null_length_fast_path_is_skipped() {
    assert_eq!(read_failure(&RdpError::NullLengthFastPath { bytes_read: 2 }), ReadFailure::Skip);
    assert_eq!(read_failure(&RdpError::InvalidLength), ReadFailure::Fatal);
}

#[test]
fn save_session_info_round_trip() {
    let mut logon = 0u32.to_le_bytes().to_vec();
    logon.extend((0..576).map(|i| (i % 251) as u8));
    let (pdu, len) = SaveSessionInfoPdu::from_buffer(&logon).unwrap();
    assert_eq!(pdu.info_type, InfoType::Logon);
    assert_eq!(len, 580);
    let mut out = Vec::new();
    pdu.to_buffer(&mut out);
    assert_eq!(out, logon);
}

#[test]
fn dvc_compressed_graphics_message_is_acknowledged() {
    let mut stage = stage();
    stage
        .process_pdu(&indication(1004, &svc(&create_request(2, "Microsoft::Windows::RDS::Graphics"))))
        .unwrap();
    let mut data = vec![0x30, 2, 0xE0, 0x24];
    data.extend_from_slice(&[6, 0, 0, 0, 0, 96, 0, 0, 0, 3, 128, 0, 0, 0, 4]);
    let bytes = match stage.process_pdu(&indication(1004, &svc(&data))).unwrap() {
        Step::Continue(b) => b,
        Step::Exit => panic!("session ended"),
    };
    let mut expected = vec![0x30, 2];
    expected.extend(frame_ack(7, 1));
    assert_eq!(reply_dvc(&bytes), expected);
}
