//! The outer framing of server PDUs: X.224 (TPKT) or fast-path.
use vstd::prelude::*;
use crate::error::RdpError;
use crate::wire::{be16, read_u16_be};

verus! {

/// The transport path that the low two bits of a PDU's first byte select.
#[derive(Clone, Copy, Debug, PartialEq, Eq, Structural)]
pub enum Action {
    FastPath,
    X224,
}

/// The action selected by a first byte, if any.
pub open spec fn spec_action(header: u8) -> Option<Action> {
    if header % 4 == 3 {
        Some(Action::X224)
    } else if header % 4 == 0 {
        Some(Action::FastPath)
    } else {
        None
    }
}

/// Number of bytes of the framing header, from its first two bytes.
pub open spec fn spec_header_size(b: Seq<u8>) -> int {
    if spec_action(b[0]) == Some(Action::X224) {
        4
    } else if b[1] >= 0x80 {
        3
    } else {
        2
    }
}

/// The total length of the PDU that the header at the start of `b` announces.
pub open spec fn spec_announced_length(b: Seq<u8>) -> int {
    if spec_action(b[0]) == Some(Action::X224) {
        be16(b, 2)
    } else if b[1] >= 0x80 {
        (b[1] - 0x80) * 256 + b[2]
    } else {
        b[1] as int
    }
}

/// What parsing one framed PDU at the start of `b` gives: its action and payload.
pub open spec fn spec_parse_frame(b: Seq<u8>) -> Result<(Action, Seq<u8>), RdpError> {
    if b.len() < 1 {
        Err(RdpError::NotEnoughBytes)
    } else if spec_action(b[0]).is_none() {
        Err(RdpError::InvalidActionCode(b[0] % 4))
    } else if b.len() < 2 || b.len() < spec_header_size(b) {
        Err(RdpError::NotEnoughBytes)
    } else if spec_announced_length(b) < spec_header_size(b) {
        if spec_action(b[0]) == Some(Action::X224) {
            Err(RdpError::InvalidLength)
        } else {
            Err(RdpError::NullLengthFastPath { bytes_read: spec_header_size(b) as usize })
        }
    } else if b.len() < spec_announced_length(b) {
        Err(RdpError::NotEnoughBytes)
    } else {
        Ok(
            (
                spec_action(b[0]).unwrap(),
                b.subrange(spec_header_size(b), spec_announced_length(b)),
            ),
        )
    }
}

/// The payload of the PDU framed at the start of `b`; empty when it does not parse.
pub open spec fn frame_payload(b: Seq<u8>) -> Seq<u8> {
    match spec_parse_frame(b) {
        Ok((_, p)) => p,
        Err(_) => Seq::empty(),
    }
}

/// Whether a payload of `len` bytes fits in one frame of the given action.
pub open spec fn frame_fits(action: Action, len: int) -> bool {
    match action {
        Action::X224 => len + 4 <= 0xFFFF,
        Action::FastPath => len + 3 <= 0x7FFF,
    }
}

/// The framing header that `encode_frame` writes in front of a payload of `len` bytes.
pub open spec fn spec_frame_header(action: Action, len: int) -> Seq<u8> {
    match action {
        Action::X224 => seq![3u8, 0u8, ((len + 4) / 256) as u8, ((len + 4) % 256) as u8],
        Action::FastPath => if len + 2 < 0x80 {
            seq![0u8, (len + 2) as u8]
        } else {
            seq![0u8, ((len + 3) / 256 + 0x80) as u8, ((len + 3) % 256) as u8]
        },
    }
}

pub open spec fn spec_encode_frame(action: Action, payload: Seq<u8>) -> Seq<u8> {
    spec_frame_header(action, payload.len() as int) + payload
}

/// The action of a PDU's first byte.
pub fn action_of(header: u8) -> (r: Result<Action, RdpError>)
    ensures
        match spec_action(header) {
            Some(a) => r == Ok::<Action, RdpError>(a),
            None => r == Err::<Action, RdpError>(RdpError::InvalidActionCode(header % 4)),
        },
{
    let bits = header % 4;
    if bits == 3 {
        Ok(Action::X224)
    } else if bits == 0 {
        Ok(Action::FastPath)
    } else {
        Err(RdpError::InvalidActionCode(bits))
    }
}

/// The size of the framing header, from the first two bytes of a PDU.
pub fn frame_header_size(first: u8, second: u8) -> (r: Result<usize, RdpError>)
    ensures
        match spec_action(first) {
            Some(_) => r == Ok::<usize, RdpError>(
                spec_header_size(seq![first, second]) as usize,
            ),
            None => r == Err::<usize, RdpError>(RdpError::InvalidActionCode(first % 4)),
        },
{
    let action = action_of(first)?;
    match action {
        Action::X224 => Ok(4),
        Action::FastPath => if second >= 0x80 {
            Ok(3)
        } else {
            Ok(2)
        },
    }
}

/// The total length of the PDU whose complete framing header is `header`.
///
/// A fast-path length shorter than the header is reported as a null-length
/// packet, with the number of header bytes already read.
pub fn frame_length(header: &[u8]) -> (r: Result<usize, RdpError>)
    requires
        header@.len() >= 2,
        header@.len() >= spec_header_size(header@),
    ensures
        match spec_action(header@[0]) {
            None => r == Err::<usize, RdpError>(RdpError::InvalidActionCode(header@[0] % 4)),
            Some(a) => if spec_announced_length(header@) < spec_header_size(header@) {
                if a == Action::X224 {
                    r == Err::<usize, RdpError>(RdpError::InvalidLength)
                } else {
                    r == Err::<usize, RdpError>(
                        RdpError::NullLengthFastPath {
                            bytes_read: spec_header_size(header@) as usize,
                        },
                    )
                }
            } else {
                r == Ok::<usize, RdpError>(spec_announced_length(header@) as usize)
            },
        },
{
    let action = action_of(header[0])?;
    let (size, length): (usize, usize) = match action {
        Action::X224 => (4, read_u16_be(header, 2) as usize),
        Action::FastPath => {
            let a = header[1];
            if a >= 0x80 {
                (3, ((a - 0x80) as usize) * 256 + header[2] as usize)
            } else {
                (2, a as usize)
            }
        },
    };
    if length < size {
        match action {
            Action::X224 => Err(RdpError::InvalidLength),
            Action::FastPath => Err(RdpError::NullLengthFastPath { bytes_read: size }),
        }
    } else {
        Ok(length)
    }
}

/// Splits one framed PDU at the start of `buf` into its action and its payload.
pub fn parse_frame(buf: &[u8]) -> (r: Result<(Action, Vec<u8>), RdpError>)
    ensures
        match r {
            Ok((a, p)) => spec_parse_frame(buf@) == Ok::<(Action, Seq<u8>), RdpError>((a, p@)),
            Err(e) => spec_parse_frame(buf@) == Err::<(Action, Seq<u8>), RdpError>(e),
        },
{
    let n = buf.len();
    if n < 1 {
        return Err(RdpError::NotEnoughBytes);
    }
    let action = action_of(buf[0])?;
    if n < 2 {
        return Err(RdpError::NotEnoughBytes);
    }
    let size = frame_header_size(buf[0], buf[1])?;
    assert(size == spec_header_size(buf@)) by {
        assert(seq![buf@[0], buf@[1]][1] == buf@[1]);
    }
    if n < size {
        return Err(RdpError::NotEnoughBytes);
    }
    let length = frame_length(buf)?;
    if n < length {
        return Err(RdpError::NotEnoughBytes);
    }
    let payload = vstd::slice::slice_to_vec(&buf[size..length]);
    Ok((action, payload))
}

/// Frames `payload` for the given action.
pub fn encode_frame(action: Action, payload: &[u8]) -> (r: Vec<u8>)
    requires
        frame_fits(action, payload@.len() as int),
    ensures
        r@ == spec_encode_frame(action, payload@),
{
    let len = payload.len();
    let mut out: Vec<u8> = Vec::new();
    match action {
        Action::X224 => {
            let total = len + 4;
            out.push(3);
            out.push(0);
            out.push((total / 256) as u8);
            out.push((total % 256) as u8);
        },
        Action::FastPath => {
            out.push(0);
            if len + 2 < 0x80 {
                out.push((len + 2) as u8);
            } else {
                let total = len + 3;
                out.push((total / 256 + 0x80) as u8);
                out.push((total % 256) as u8);
            }
        },
    }
    assert(out@ == spec_frame_header(action, len as int));
    let ghost head = out@;
    let mut i: usize = 0;
    while i < len
        invariant
            len == payload@.len(),
            i <= len,
            out@ == head + payload@.subrange(0, i as int),
        decreases len - i,
    {
        out.push(payload[i]);
        i += 1;
        assert(payload@.subrange(0, i as int) == payload@.subrange(0, i - 1).push(payload@[i - 1]));
    }
    assert(payload@.subrange(0, len as int) =~= payload@);
    out
}

/// Parsing a framed PDU gives back the action and the payload that were framed.
pub proof fn lemma_parse_encode_frame(action: Action, payload: Seq<u8>)
    requires
        frame_fits(action, payload.len() as int),
    ensures
        spec_parse_frame(spec_encode_frame(action, payload)) == Ok::<(Action, Seq<u8>), RdpError>(
            (action, payload),
        ),
{
    let b = spec_encode_frame(action, payload);
    let h = spec_frame_header(action, payload.len() as int);
    assert(b.subrange(h.len() as int, b.len() as int) =~= payload);
    match action {
        Action::X224 => {
            assert(spec_action(b[0]) == Some(Action::X224));
            assert(be16(b, 2) == payload.len() + 4);
        },
        Action::FastPath => {
            assert(spec_action(b[0]) == Some(Action::FastPath));
        },
    }
}

/// Bytes after a framed PDU do not change what parsing it gives.
pub proof fn lemma_parse_encode_frame_with_rest(action: Action, payload: Seq<u8>, rest: Seq<u8>)
    requires
        frame_fits(action, payload.len() as int),
    ensures
        spec_parse_frame(spec_encode_frame(action, payload) + rest) == Ok::<(Action, Seq<u8>), RdpError>(
            (action, payload),
        ),
{
    let e = spec_encode_frame(action, payload);
    let b = e + rest;
    let h = spec_frame_header(action, payload.len() as int);
    lemma_parse_encode_frame(action, payload);
    assert(b.subrange(h.len() as int, e.len() as int) =~= payload);
    assert(b[0] == e[0] && b[1] == e[1]);
    match action {
        Action::X224 => {
            assert(b[2] == e[2] && b[3] == e[3]);
            assert(be16(b, 2) == payload.len() + 4);
        },
        Action::FastPath => {
            if payload.len() + 2 >= 0x80 {
                assert(b[2] == e[2]);
            }
        },
    }
}

} // verus!
