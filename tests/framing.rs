use ironrdp_client::error::RdpError;
use ironrdp_client::framing::{encode_frame, frame_header_size, frame_length, parse_frame, Action};

#[test]
fn x224_frame_round_trip() {
    let payload = vec![2u8, 0xF0, 0x80, 1, 2, 3];
    let framed = encode_frame(Action::X224, &payload);
    assert_eq!(framed[..4], [3, 0, 0, 10]);
    assert_eq!(parse_frame(&framed), Ok((Action::X224, payload)));
}

#[test]
fn fast_path_frame_round_trip_short_length() {
    let payload = vec![9u8; 10];
    let framed = encode_frame(Action::FastPath, &payload);
    assert_eq!(framed[..2], [0, 12]);
    assert_eq!(parse_frame(&framed), Ok((Action::FastPath, payload)));
}

#[test]
fn fast_path_frame_round_trip_long_length() {
    let payload = vec![7u8; 300];
    let framed = encode_frame(Action::FastPath, &payload);
    // 303 = 0x012F with the high bit of the first length byte set
    assert_eq!(framed[..3], [0, 0x81, 0x2F]);
    assert_eq!(parse_frame(&framed), Ok((Action::FastPath, payload)));
}

#[test]
fn frame_header_sizes() {
    assert_eq!(frame_header_size(0x03, 0x00), Ok(4));
    assert_eq!(frame_header_size(0x00, 0x10), Ok(2));
    assert_eq!(frame_header_size(0x00, 0x80), Ok(3));
    assert_eq!(frame_header_size(0x01, 0x00), Err(RdpError::InvalidActionCode(1)));
}

#[test]
fn frame_lengths() {
    assert_eq!(frame_length(&[3, 0, 0x01, 0x02]), Ok(258));
    assert_eq!(frame_length(&[0, 0x7F]), Ok(127));
    assert_eq!(frame_length(&[0, 0x81, 0x00]), Ok(256));
    assert_eq!(frame_length(&[0, 1]), Err(RdpError::NullLengthFastPath { bytes_read: 2 }));
    assert_eq!(frame_length(&[0, 0x80, 0x00]), Err(RdpError::NullLengthFastPath { bytes_read: 3 }));
    assert_eq!(frame_length(&[3, 0, 0, 2]), Err(RdpError::InvalidLength));
}

#[test]
fn parse_frame_short_input() {
    assert_eq!(parse_frame(&[]), Err(RdpError::NotEnoughBytes));
    assert_eq!(parse_frame(&[3, 0, 0, 10, 1]), Err(RdpError::NotEnoughBytes));
    assert_eq!(parse_frame(&[2, 0, 0, 10]), Err(RdpError::InvalidActionCode(2)));
}
