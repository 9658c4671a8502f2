//! RDP8 bulk decompression (ZGFX) of graphics pipeline messages: segment
//! framing, and the LZ77-like token stream of compressed segments, decoded
//! against a history of earlier output.
use vstd::prelude::*;
use crate::error::RdpError;
use crate::rfx_tile::{lemma_pow2_le, pow2};
use crate::rlgr::{bit_at, bits_value};
use crate::wire::{le16, le32, read_u16_le, read_u32_le};

verus! {

pub const ZGFX_SEGMENTED_SINGLE: u8 = 0xE0;
pub const ZGFX_SEGMENTED_MULTIPART: u8 = 0xE1;
pub const ZGFX_PACKET_COMPRESSED: u8 = 0x20;
pub const ZGFX_COMPRESSION_RDP8: u8 = 0x04;
/// Size of the history that matches refer back into.
pub const HISTORY_SIZE: usize = 2_500_000;
/// Longest unary run in the length of a match.
pub const MAX_MATCH_EXTRA: u32 = 24;

/// Token `i` of the RDP8 token table: prefix length, prefix code, value bits,
/// whether it is a match (else a literal), value base.
pub open spec fn spec_token(i: int) -> (int, int, int, bool, int) {
    if i == 0 {
        (1, 0, 8, false, 0)
    } else if i == 1 {
        (5, 17, 5, true, 0)
    } else if i == 2 {
        (5, 18, 7, true, 32)
    } else if i == 3 {
        (5, 19, 9, true, 160)
    } else if i == 4 {
        (5, 20, 10, true, 672)
    } else if i == 5 {
        (5, 21, 12, true, 1696)
    } else if i == 6 {
        (5, 24, 0, false, 0)
    } else if i == 7 {
        (5, 25, 0, false, 1)
    } else if i == 8 {
        (6, 44, 14, true, 5792)
    } else if i == 9 {
        (6, 45, 15, true, 22176)
    } else if i == 10 {
        (6, 52, 0, false, 2)
    } else if i == 11 {
        (6, 53, 0, false, 3)
    } else if i == 12 {
        (6, 54, 0, false, 255)
    } else if i == 13 {
        (7, 92, 18, true, 54944)
    } else if i == 14 {
        (7, 93, 20, true, 317088)
    } else if i == 15 {
        (7, 110, 0, false, 4)
    } else if i == 16 {
        (7, 111, 0, false, 5)
    } else if i == 17 {
        (7, 112, 0, false, 6)
    } else if i == 18 {
        (7, 113, 0, false, 7)
    } else if i == 19 {
        (7, 114, 0, false, 8)
    } else if i == 20 {
        (7, 115, 0, false, 9)
    } else if i == 21 {
        (7, 116, 0, false, 10)
    } else if i == 22 {
        (7, 117, 0, false, 11)
    } else if i == 23 {
        (7, 118, 0, false, 58)
    } else if i == 24 {
        (7, 119, 0, false, 59)
    } else if i == 25 {
        (7, 120, 0, false, 60)
    } else if i == 26 {
        (7, 121, 0, false, 61)
    } else if i == 27 {
        (7, 122, 0, false, 62)
    } else if i == 28 {
        (7, 123, 0, false, 63)
    } else if i == 29 {
        (7, 124, 0, false, 64)
    } else if i == 30 {
        (7, 125, 0, false, 128)
    } else if i == 31 {
        (8, 188, 20, true, 1365664)
    } else if i == 32 {
        (8, 189, 21, true, 2414240)
    } else if i == 33 {
        (8, 252, 0, false, 12)
    } else if i == 34 {
        (8, 253, 0, false, 56)
    } else if i == 35 {
        (8, 254, 0, false, 57)
    } else if i == 36 {
        (8, 255, 0, false, 102)
    } else if i == 37 {
        (9, 380, 22, true, 4511392)
    } else if i == 38 {
        (9, 381, 23, true, 8705696)
    } else if i == 39 {
        (9, 382, 24, true, 17094304)
    } else {
        (0, 0, 0, false, 0)
    }
}

fn token(i: usize) -> (r: (usize, u64, usize, bool, u64))
    requires
        i < 40,
    ensures
        (r.0 as int, r.1 as int, r.2 as int, r.3, r.4 as int) == spec_token(i as int),
        1 <= r.0 <= 9,
        r.2 <= 24,
        r.4 < 0x200_0000,
        !r.3 ==> (r.2 == 0 && r.4 < 256) || (r.2 == 8 && r.4 == 0),
        r.3 ==> r.2 >= 5,
{
    if i == 0 {
        (1, 0, 8, false, 0)
    } else if i == 1 {
        (5, 17, 5, true, 0)
    } else if i == 2 {
        (5, 18, 7, true, 32)
    } else if i == 3 {
        (5, 19, 9, true, 160)
    } else if i == 4 {
        (5, 20, 10, true, 672)
    } else if i == 5 {
        (5, 21, 12, true, 1696)
    } else if i == 6 {
        (5, 24, 0, false, 0)
    } else if i == 7 {
        (5, 25, 0, false, 1)
    } else if i == 8 {
        (6, 44, 14, true, 5792)
    } else if i == 9 {
        (6, 45, 15, true, 22176)
    } else if i == 10 {
        (6, 52, 0, false, 2)
    } else if i == 11 {
        (6, 53, 0, false, 3)
    } else if i == 12 {
        (6, 54, 0, false, 255)
    } else if i == 13 {
        (7, 92, 18, true, 54944)
    } else if i == 14 {
        (7, 93, 20, true, 317088)
    } else if i == 15 {
        (7, 110, 0, false, 4)
    } else if i == 16 {
        (7, 111, 0, false, 5)
    } else if i == 17 {
        (7, 112, 0, false, 6)
    } else if i == 18 {
        (7, 113, 0, false, 7)
    } else if i == 19 {
        (7, 114, 0, false, 8)
    } else if i == 20 {
        (7, 115, 0, false, 9)
    } else if i == 21 {
        (7, 116, 0, false, 10)
    } else if i == 22 {
        (7, 117, 0, false, 11)
    } else if i == 23 {
        (7, 118, 0, false, 58)
    } else if i == 24 {
        (7, 119, 0, false, 59)
    } else if i == 25 {
        (7, 120, 0, false, 60)
    } else if i == 26 {
        (7, 121, 0, false, 61)
    } else if i == 27 {
        (7, 122, 0, false, 62)
    } else if i == 28 {
        (7, 123, 0, false, 63)
    } else if i == 29 {
        (7, 124, 0, false, 64)
    } else if i == 30 {
        (7, 125, 0, false, 128)
    } else if i == 31 {
        (8, 188, 20, true, 1365664)
    } else if i == 32 {
        (8, 189, 21, true, 2414240)
    } else if i == 33 {
        (8, 252, 0, false, 12)
    } else if i == 34 {
        (8, 253, 0, false, 56)
    } else if i == 35 {
        (8, 254, 0, false, 57)
    } else if i == 36 {
        (8, 255, 0, false, 102)
    } else if i == 37 {
        (9, 380, 22, true, 4511392)
    } else if i == 38 {
        (9, 381, 23, true, 8705696)
    } else if i == 39 {
        (9, 382, 24, true, 17094304)
    } else {
        (0, 0, 0, false, 0)
    }
}

/// The first token of the table whose prefix is the next bits from `pos`,
/// checking entries from `i` on; none when a prefix would run past `total`.
pub open spec fn find_token(data: Seq<u8>, pos: int, total: int, i: int) -> Option<int>
    decreases 40 - i,
{
    if i < 0 || i >= 40 {
        None
    } else if pos + spec_token(i).0 > total {
        None
    } else if bits_value(data, pos, spec_token(i).0 as nat) == spec_token(i).1 {
        Some(i)
    } else {
        find_token(data, pos, total, i + 1)
    }
}

/// How many one bits follow from `pos` before a zero bit or `total`.
pub open spec fn ones_to(data: Seq<u8>, pos: int, total: int) -> int
    decreases total - pos,
{
    if pos < 0 || pos >= total || bit_at(data, pos) == 0 {
        0
    } else {
        1 + ones_to(data, pos + 1, total)
    }
}

/// The length of a match and the position after it: a zero bit for 3;
/// otherwise `k` more one bits, a zero bit, and `2 + k` bits added to `2^(2+k)`.
pub open spec fn match_count(data: Seq<u8>, p: int, total: int) -> Option<(int, int)> {
    if p + 1 > total {
        None
    } else if bit_at(data, p) == 0 {
        Some((3, p + 1))
    } else {
        let k = ones_to(data, p + 1, total);
        let q = p + 1 + k + 1;
        if p + 1 + k >= total || 2 + k > MAX_MATCH_EXTRA || q + 2 + k > total {
            None
        } else {
            Some((pow2((2 + k) as nat) + bits_value(data, q, (2 + k) as nat), q + 2 + k))
        }
    }
}

/// `h` followed by `n` bytes each copied from `d` bytes back.
pub open spec fn copy_match(h: Seq<u8>, d: int, n: nat) -> Seq<u8>
    decreases n,
{
    if n == 0 {
        h
    } else {
        copy_match(h.push(h[h.len() - d]), d, (n - 1) as nat)
    }
}

/// Decoder state: bit position, history (earlier output included), output of this segment.
pub type ZState = (int, Seq<u8>, Seq<u8>);

/// One token of a compressed segment whose bits are those of `data` below
/// `total`; `None` for a malformed stream.
pub open spec fn zstep(data: Seq<u8>, total: int, st: ZState) -> Option<ZState> {
    match find_token(data, st.0, total, 0) {
        None => None,
        Some(i) => {
            let (len, code, vbits, is_match, base) = spec_token(i);
            let p = st.0 + len;
            if p + vbits > total {
                None
            } else {
                let v = base + bits_value(data, p, vbits as nat);
                let p2 = p + vbits;
                if !is_match {
                    Some((p2, st.1.push(v as u8), st.2.push(v as u8)))
                } else if v == 0 {
                    // bytes sent as they are, from the next byte boundary
                    if p2 + 15 > total {
                        None
                    } else {
                        let count = bits_value(data, p2, 15);
                        let p3 = (p2 + 15 + 7) / 8 * 8;
                        if p3 + 8 * count > total {
                            None
                        } else {
                            let raw = data.subrange(p3 / 8, p3 / 8 + count);
                            Some((p3 + 8 * count, st.1 + raw, st.2 + raw))
                        }
                    }
                } else {
                    match match_count(data, p2, total) {
                        None => None,
                        Some((count, p4)) => if v > st.1.len() || v > HISTORY_SIZE {
                            None
                        } else {
                            let h2 = copy_match(st.1, v, count as nat);
                            Some((p4, h2, st.2 + h2.subrange(st.1.len() as int, h2.len() as int)))
                        },
                    }
                }
            }
        },
    }
}

pub open spec fn zremaining(total: int, pos: int) -> int {
    if pos >= total { 0 } else { total - pos }
}

/// The tokens from state `st` on, up to bit `total`.
pub open spec fn zrun(data: Seq<u8>, total: int, st: ZState) -> Option<ZState>
    decreases zremaining(total, st.0),
{
    if st.0 >= total {
        Some(st)
    } else {
        match zstep(data, total, st) {
            None => None,
            Some(s) => if s.0 <= st.0 {
                None
            } else {
                zrun(data, total, s)
            },
        }
    }
}

/// The history cut to its last `HISTORY_SIZE` bytes once it holds twice that.
pub open spec fn trim(h: Seq<u8>) -> Seq<u8> {
    if h.len() > 2 * HISTORY_SIZE {
        h.subrange(h.len() - HISTORY_SIZE, h.len() as int)
    } else {
        h
    }
}

/// One bulk segment `s` (a header byte, then data) over history `h`: the new
/// history and the segment's output. Compressed data ends with a byte giving
/// the number of unused bits of the byte before it.
pub open spec fn spec_segment(h: Seq<u8>, s: Seq<u8>) -> Option<(Seq<u8>, Seq<u8>)> {
    if s.len() < 1 || s[0] % 16 != ZGFX_COMPRESSION_RDP8 {
        None
    } else if (s[0] / 32) % 2 == 0 {
        let d = s.subrange(1, s.len() as int);
        Some((trim(h + d), d))
    } else {
        let data = s.subrange(1, s.len() as int);
        if data.len() < 1 || data.len() > 0x1000_0000 || 8 * (data.len() - 1) < data.last() {
            None
        } else {
            match zrun(data, 8 * (data.len() - 1) - data.last(), (0, h, Seq::empty())) {
                None => None,
                Some(st) => Some((trim(st.1), st.2)),
            }
        }
    }
}

/// `k` segments from `pos` on, each a 32-bit size then the segment.
pub open spec fn spec_segments(h: Seq<u8>, b: Seq<u8>, pos: int, k: nat) -> Option<(Seq<u8>, Seq<u8>)>
    decreases k,
{
    if k == 0 {
        Some((h, Seq::empty()))
    } else if pos < 0 || pos + 4 > b.len() || pos + 4 + le32(b, pos) > b.len() {
        None
    } else {
        match spec_segment(h, b.subrange(pos + 4, pos + 4 + le32(b, pos))) {
            None => None,
            Some((h1, d1)) => match spec_segments(h1, b, pos + 4 + le32(b, pos), (k - 1) as nat) {
                None => None,
                Some((h2, d2)) => Some((h2, d1 + d2)),
            },
        }
    }
}

/// What the ZGFX message `b` decompresses to over history `h`: the new
/// history and the data.
pub open spec fn spec_zgfx(h: Seq<u8>, b: Seq<u8>) -> Option<(Seq<u8>, Seq<u8>)> {
    if b.len() >= 1 && b[0] == ZGFX_SEGMENTED_SINGLE {
        spec_segment(h, b.subrange(1, b.len() as int))
    } else if b.len() >= 7 && b[0] == ZGFX_SEGMENTED_MULTIPART {
        match spec_segments(h, b, 7, le16(b, 1) as nat) {
            Some((h2, d)) => if d.len() == le32(b, 3) { Some((h2, d)) } else { None },
            None => None,
        }
    } else {
        None
    }
}

fn bit(data: &[u8], pos: usize) -> (r: u64)
    requires
        pos < data@.len() * 8,
        data@.len() <= 0x1000_0000,
    ensures
        r == bit_at(data@, pos as int),
        r <= 1,
{
    let byte = data[pos / 8] as u64;
    let shift = 7 - pos % 8;
    let d: u64 = if shift == 0 {
        1
    } else if shift == 1 {
        2
    } else if shift == 2 {
        4
    } else if shift == 3 {
        8
    } else if shift == 4 {
        16
    } else if shift == 5 {
        32
    } else if shift == 6 {
        64
    } else {
        128
    };
    proof {
        reveal_with_fuel(pow2, 8);
        assert(d == pow2(shift as nat));
    }
    (byte / d) % 2
}

/// The `n` bits from `pos`, most significant first.
fn bits(data: &[u8], pos: usize, n: usize) -> (r: u64)
    requires
        n <= 24,
        pos + n <= data@.len() * 8,
        data@.len() <= 0x1000_0000,
    ensures
        r == bits_value(data@, pos as int, n as nat),
        r < pow2(n as nat),
        r < 0x100_0000,
{
    let mut v: u64 = 0;
    let mut i: usize = 0;
    proof {
        lemma_pow2_24();
    }
    while i < n
        invariant
            i <= n <= 24,
            pos + n <= data@.len() * 8,
            data@.len() <= 0x1000_0000,
            v == bits_value(data@, pos as int, i as nat),
            v < pow2(i as nat),
            pow2(24) == 0x100_0000,
        decreases n - i,
    {
        let b = bit(data, pos + i);
        proof {
            lemma_pow2_le((i + 1) as nat, 24);
            assert(pow2((i + 1) as nat) == 2 * pow2(i as nat));
        }
        v = v * 2 + b;
        i += 1;
    }
    proof {
        lemma_pow2_le(n as nat, 24);
    }
    v
}

proof fn lemma_pow2_24()
    ensures
        pow2(24) == 0x100_0000,
{
    reveal_with_fuel(pow2, 25);
}

fn find_token_exec(data: &[u8], pos: usize, total: usize) -> (r: Option<usize>)
    requires
        total <= data@.len() * 8,
        data@.len() <= 0x1000_0000,
    ensures
        r is Some <==> find_token(data@, pos as int, total as int, 0) is Some,
        r matches Some(i) ==> i < 40 && find_token(data@, pos as int, total as int, 0) == Some(i as int),
{
    let mut i: usize = 0;
    while i < 40
        invariant
            i <= 40,
            total <= data@.len() * 8,
            data@.len() <= 0x1000_0000,
            find_token(data@, pos as int, total as int, 0) == find_token(data@, pos as int, total as int, i as int),
        decreases 40 - i,
    {
        let (len, code, _vbits, _is_match, _base) = token(i);
        if pos > total || total - pos < len {
            return None;
        }
        if bits(data, pos, len) == code {
            return Some(i);
        }
        i += 1;
    }
    None
}

fn match_count_exec(data: &[u8], p: usize, total: usize) -> (r: Option<(u64, usize)>)
    requires
        total <= data@.len() * 8,
        data@.len() <= 0x1000_0000,
    ensures
        match match_count(data@, p as int, total as int) {
            None => r is None,
            Some((c, q)) => r is Some && r.unwrap().0 == c && r.unwrap().1 == q && c < 0x200_0000 && q <= total,
        },
{
    if p >= total {
        return None;
    }
    if bit(data, p) == 0 {
        return Some((3, p + 1));
    }
    let mut k: usize = 0;
    let mut at = p + 1;
    loop
        invariant_except_break
            bit_at(data@, p as int) == 1,
            at == p + 1 + k,
            p < total <= data@.len() * 8,
            data@.len() <= 0x1000_0000,
            k <= 22,
            ones_to(data@, p + 1, total as int) == k + ones_to(data@, at as int, total as int),
        ensures
            bit_at(data@, p as int) == 1,
            at == p + 1 + k,
            at < total,
            p < total <= data@.len() * 8,
            data@.len() <= 0x1000_0000,
            k <= 22,
            ones_to(data@, p + 1, total as int) == k,
        decreases total - at,
    {
        if at >= total {
            assert(ones_to(data@, at as int, total as int) == 0);
            return None;
        }
        if bit(data, at) == 0 {
            assert(ones_to(data@, at as int, total as int) == 0);
            break;
        }
        assert(ones_to(data@, at as int, total as int) == 1 + ones_to(data@, at + 1, total as int));
        if k >= 22 {
            proof {
                lemma_ones_to_nonneg(data@, at + 1, total as int);
                assert(ones_to(data@, p + 1, total as int) >= 23);
            }
            return None;
        }
        k += 1;
        at += 1;
    }
    let extra = 2 + k;
    let q = at + 1;
    if q > total || total - q < extra {
        return None;
    }
    let mut base: u64 = 1;
    let mut j: usize = 0;
    proof {
        lemma_pow2_24();
    }
    while j < extra
        invariant
            j <= extra <= 24,
            base == pow2(j as nat),
            pow2(24) == 0x100_0000,
        decreases extra - j,
    {
        proof {
            lemma_pow2_le((j + 1) as nat, 24);
            assert(pow2((j + 1) as nat) == 2 * pow2(j as nat));
        }
        base = base * 2;
        j += 1;
    }
    proof {
        lemma_pow2_le(extra as nat, 24);
    }
    let v = bits(data, q, extra);
    Some((base + v, q + extra))
}

proof fn lemma_ones_to_nonneg(data: Seq<u8>, pos: int, total: int)
    ensures
        ones_to(data, pos, total) >= 0,
    decreases total - pos,
{
    if !(pos < 0 || pos >= total || bit_at(data, pos) == 0) {
        lemma_ones_to_nonneg(data, pos + 1, total);
    }
}

/// One token; `false` for a malformed stream.
fn zstep_exec(data: &[u8], total: usize, pos: &mut usize, hist: &mut Vec<u8>, out: &mut Vec<u8>) -> (r: bool)
    requires
        total <= data@.len() * 8,
        data@.len() <= 0x1000_0000,
        *old(pos) <= total,
    ensures
        match zstep(data@, total as int, (*old(pos) as int, old(hist)@, old(out)@)) {
            None => !r,
            Some(s) => r && s == (*final(pos) as int, final(hist)@, final(out)@),
        },
        r ==> *final(pos) <= total,
{
    let i = match find_token_exec(data, *pos, total) {
        None => return false,
        Some(i) => i,
    };
    let (len, _code, vbits, is_match, base) = token(i);
    let p = *pos + len;
    if p > total || total - p < vbits {
        return false;
    }
    let v = base + bits(data, p, vbits);
    let p2 = p + vbits;
    if !is_match {
        hist.push(v as u8);
        out.push(v as u8);
        *pos = p2;
        return true;
    }
    if v == 0 {
        if total - p2 < 15 {
            return false;
        }
        let count = bits(data, p2, 15) as usize;
        let p3 = (p2 + 15 + 7) / 8 * 8;
        if p3 > total || (total - p3) / 8 < count {
            return false;
        }
        let start = p3 / 8;
        let ghost h0 = hist@;
        let ghost o0 = out@;
        let mut j: usize = 0;
        while j < count
            invariant
                j <= count,
                start + count <= data@.len(),
                data@.len() <= 0x1000_0000,
                hist@ == h0 + data@.subrange(start as int, start + j),
                out@ == o0 + data@.subrange(start as int, start + j),
            decreases count - j,
        {
            hist.push(data[start + j]);
            out.push(data[start + j]);
            j += 1;
            assert(data@.subrange(start as int, start + j) == data@.subrange(start as int, start + j - 1).push(data@[start + j - 1]));
        }
        *pos = p3 + 8 * count;
        return true;
    }
    let (count, p4) = match match_count_exec(data, p2, total) {
        None => return false,
        Some(c) => c,
    };
    if v as usize > hist.len() || v as usize > HISTORY_SIZE {
        return false;
    }
    let d = v as usize;
    let ghost h0 = hist@;
    let ghost o0 = out@;
    let mut j: u64 = 0;
    while j < count
        invariant
            j <= count,
            1 <= d <= hist@.len(),
            h0.len() <= hist@.len(),
            copy_match(h0, d as int, count as nat) == copy_match(hist@, d as int, (count - j) as nat),
            out@ == o0 + hist@.subrange(h0.len() as int, hist@.len() as int),
        decreases count - j,
    {
        let b = hist[hist.len() - d];
        let ghost hb = hist@;
        hist.push(b);
        out.push(b);
        assert(hist@.subrange(h0.len() as int, hist@.len() as int) =~= hb.subrange(h0.len() as int, hb.len() as int).push(b));
        j += 1;
    }
    *pos = p4;
    true
}

/// The tokens of a compressed segment whose bits are those of `data` below `total`.
fn zrun_exec(data: &[u8], total: usize, hist: &mut Vec<u8>, out: &mut Vec<u8>) -> (r: bool)
    requires
        total <= data@.len() * 8,
        data@.len() <= 0x1000_0000,
        data@.len() <= 0x1000_0000,
    ensures
        match zrun(data@, total as int, (0, old(hist)@, old(out)@)) {
            None => !r,
            Some(s) => r && final(hist)@ == s.1 && final(out)@ == s.2,
        },
{
    let mut pos: usize = 0;
    let ghost goal = zrun(data@, total as int, (0, hist@, out@));
    loop
        invariant
            pos <= total <= data@.len() * 8,
            data@.len() <= 0x1000_0000,
            goal == zrun(data@, total as int, (0, old(hist)@, old(out)@)),
            goal == zrun(data@, total as int, (pos as int, hist@, out@)),
        decreases total - pos,
    {
        if pos >= total {
            return true;
        }
        let start = pos;
        if !zstep_exec(data, total, &mut pos, hist, out) {
            return false;
        }
        if pos <= start {
            return false;
        }
    }
}

fn trim_exec(hist: &mut Vec<u8>)
    ensures
        final(hist)@ == trim(old(hist)@),
{
    let n = hist.len();
    if n > 2 * HISTORY_SIZE {
        let mut kept: Vec<u8> = Vec::new();
        let from = n - HISTORY_SIZE;
        let mut i = from;
        while i < n
            invariant
                from <= i <= n,
                from == n - HISTORY_SIZE,
                n == hist@.len(),
                hist@ == old(hist)@,
                kept@ == hist@.subrange(from as int, i as int),
            decreases n - i,
        {
            let ghost before = kept@;
            kept.push(hist[i]);
            assert(hist@.subrange(from as int, i + 1) =~= before.push(hist@[i as int]));
            i += 1;
        }
        *hist = kept;
    }
}

fn copy_bytes(b: &[u8], from: usize, to: usize) -> (r: Vec<u8>)
    requires
        from <= to <= b@.len(),
    ensures
        r@ == b@.subrange(from as int, to as int),
{
    vstd::slice::slice_to_vec(&b[from..to])
}

fn append_all(out: &mut Vec<u8>, more: &[u8])
    ensures
        final(out)@ == old(out)@ + more@,
{
    let ghost head = out@;
    let mut i: usize = 0;
    while i < more.len()
        invariant
            i <= more@.len(),
            head == old(out)@,
            out@ == head + more@.subrange(0, i as int),
        decreases more@.len() - i,
    {
        out.push(more[i]);
        i += 1;
        assert(more@.subrange(0, i as int) == more@.subrange(0, i - 1).push(more@[i - 1]));
    }
    assert(more@.subrange(0, more@.len() as int) =~= more@);
}

/// Decompresses one bulk segment `s`, appending its output to `out`.
fn segment(hist: &mut Vec<u8>, s: &[u8], out: &mut Vec<u8>) -> (r: Result<(), RdpError>)
    ensures
        match spec_segment(old(hist)@, s@) {
            None => r == Err::<(), RdpError>(RdpError::ZgfxError),
            Some((h, d)) => r is Ok && final(hist)@ == h && final(out)@ == old(out)@ + d,
        },
{
    let n = s.len();
    if n < 1 || s[0] % 16 != ZGFX_COMPRESSION_RDP8 {
        return Err(RdpError::ZgfxError);
    }
    let data = copy_bytes(s, 1, n);
    if (s[0] / 32) % 2 == 0 {
        append_all(hist, data.as_slice());
        trim_exec(hist);
        append_all(out, data.as_slice());
        return Ok(());
    }
    let m = data.len();
    if m < 1 || m > 0x1000_0000 || 8 * (m - 1) < data[m - 1] as usize {
        return Err(RdpError::ZgfxError);
    }
    let total = 8 * (m - 1) - data[m - 1] as usize;
    let mut produced: Vec<u8> = Vec::new();
    if !zrun_exec(data.as_slice(), total, hist, &mut produced) {
        return Err(RdpError::ZgfxError);
    }
    trim_exec(hist);
    append_all(out, produced.as_slice());
    Ok(())
}

/// Decompresses the ZGFX message `b` over the history kept in `hist`.
pub fn zgfx_decompress(hist: &mut Vec<u8>, b: &[u8]) -> (r: Result<Vec<u8>, RdpError>)
    ensures
        match spec_zgfx(old(hist)@, b@) {
            None => r == Err::<Vec<u8>, RdpError>(RdpError::ZgfxError),
            Some((h, d)) => (r matches Ok(v) && v@ == d) && final(hist)@ == h,
        },
{
    let n = b.len();
    let mut out: Vec<u8> = Vec::new();
    if n >= 1 && b[0] == ZGFX_SEGMENTED_SINGLE {
        let s = copy_bytes(b, 1, n);
        segment(hist, s.as_slice(), &mut out)?;
        assert(out@ =~= Seq::<u8>::empty() + out@);
        return Ok(out);
    }
    if n < 7 || b[0] != ZGFX_SEGMENTED_MULTIPART {
        return Err(RdpError::ZgfxError);
    }
    let count = read_u16_le(b, 1) as usize;
    let total = read_u32_le(b, 3) as usize;
    let mut pos: usize = 7;
    let mut k: usize = 0;
    let ghost h0 = hist@;
    while k < count
        invariant
            k <= count,
            pos <= n,
            n == b@.len(),
            n >= 7,
            b@[0] == ZGFX_SEGMENTED_MULTIPART,
            count == le16(b@, 1),
            h0 == old(hist)@,
            spec_segments(h0, b@, 7, count as nat) == match spec_segments(hist@, b@, pos as int, (count - k) as nat) {
                Some((h2, rest)) => Some((h2, out@ + rest)),
                None => None,
            },
        decreases count - k,
    {
        if n - pos < 4 {
            return Err(RdpError::ZgfxError);
        }
        let size = read_u32_le(b, pos) as usize;
        let p4 = pos + 4;
        if size > n - p4 {
            return Err(RdpError::ZgfxError);
        }
        let s = copy_bytes(b, p4, p4 + size);
        let ghost before = out@;
        match segment(hist, s.as_slice(), &mut out) {
            Ok(()) => {},
            Err(e) => return Err(e),
        }
        proof {
            match spec_segments(hist@, b@, p4 + size, (count - k - 1) as nat) {
                Some((h2, rest)) => {
                    let d1 = out@.subrange(before.len() as int, out@.len() as int);
                    assert(before + (d1 + rest) =~= out@ + rest);
                },
                None => {},
            }
        }
        pos = p4 + size;
        k += 1;
    }
    assert(out@ + Seq::<u8>::empty() =~= out@);
    if out.len() != total {
        return Err(RdpError::ZgfxError);
    }
    Ok(out)
}

} // verus!
