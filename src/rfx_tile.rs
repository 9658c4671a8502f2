//! Stages of RemoteFX tile decoding: LL3 differential decoding,
//! dequantization and YCbCr to BGRA conversion.
use vstd::prelude::*;
use crate::rfx_messages::Quant;

verus! {

pub const TILE_PIXELS: usize = 4096;
pub const TILE_BYTES: usize = 16384;
/// Start of the LL3 subband, the last of the ten.
pub const LL3_START: usize = 4032;

/// `v` reduced to the 16-bit two's complement range.
pub open spec fn wrap16(v: int) -> i16 {
    (((v + 32768) % 65536) - 32768) as i16
}

fn wrap_i64(v: i64) -> (r: i16)
    requires
        -0x100_0000_0000 < v < 0x100_0000_0000,
    ensures
        r == wrap16(v as int),
{
    let shifted = (v + 32768 + 0x100_0000_0000) as u64;
    let m = (shifted % 65536) as i64;
    assert((v + 32768 + 0x100_0000_0000) % 65536 == (v + 32768) % 65536) by (nonlinear_arith);
    (m - 32768) as i16
}

// ---------------------------------------------------------------- LL3 differential

/// The LL3 coefficient at `k` once the differences before it are added up.
pub open spec fn ll3_value(s: Seq<i16>, k: int) -> i16
    decreases k,
{
    if k <= LL3_START {
        s[k]
    } else {
        wrap16(ll3_value(s, k - 1) + s[k])
    }
}

/// Turns the differentially coded LL3 subband into plain coefficients.
pub fn decode_ll3(buffer: &mut Vec<i16>)
    requires
        old(buffer)@.len() == TILE_PIXELS,
    ensures
        final(buffer)@.len() == TILE_PIXELS,
        forall|k: int| 0 <= k < LL3_START ==> #[trigger] final(buffer)@[k] == old(buffer)@[k],
        forall|k: int|
            LL3_START <= k < TILE_PIXELS ==> #[trigger] final(buffer)@[k] == ll3_value(
                old(buffer)@,
                k,
            ),
{
    let mut k: usize = LL3_START + 1;
    while k < TILE_PIXELS
        invariant
            LL3_START < k <= TILE_PIXELS,
            buffer@.len() == TILE_PIXELS,
            forall|j: int| (0 <= j < LL3_START || k <= j < TILE_PIXELS) ==> #[trigger] buffer@[j] == old(buffer)@[j],
            forall|j: int| LL3_START <= j < k ==> #[trigger] buffer@[j] == ll3_value(old(buffer)@, j),
        decreases TILE_PIXELS - k,
    {
        let v = wrap_i64(buffer[k - 1] as i64 + buffer[k] as i64);
        buffer.set(k, v);
        k += 1;
    }
}

// ---------------------------------------------------------------- dequantization

pub open spec fn pow2(n: nat) -> int
    decreases n,
{
    if n == 0 {
        1
    } else {
        2 * pow2((n - 1) as nat)
    }
}

/// The quantization factor of the subband that holds coefficient `i`.
pub open spec fn band_factor(q: Quant, i: int) -> u8 {
    if i < 1024 {
        q.hl1
    } else if i < 2048 {
        q.lh1
    } else if i < 3072 {
        q.hh1
    } else if i < 3328 {
        q.hl2
    } else if i < 3584 {
        q.lh2
    } else if i < 3840 {
        q.hh2
    } else if i < 3904 {
        q.hl3
    } else if i < 3968 {
        q.lh3
    } else if i < 4032 {
        q.hh3
    } else {
        q.ll3
    }
}

/// A coefficient scaled back by its subband's factor: shifted left by `factor - 1`.
pub open spec fn dequantized(v: i16, factor: u8) -> i16 {
    if factor > 1 {
        wrap16(v * pow2((factor - 1) as nat))
    } else {
        v
    }
}

pub proof fn lemma_pow2_le(n: nat, m: nat)
    requires
        n <= m,
    ensures
        1 <= pow2(n) <= pow2(m),
    decreases m,
{
    if n < m {
        lemma_pow2_le(n, (m - 1) as nat);
    } else if n > 0 {
        lemma_pow2_le((n - 1) as nat, (n - 1) as nat);
    }
}

fn band_factor_of(q: &Quant, i: usize) -> (r: u8)
    ensures
        r == band_factor(*q, i as int),
{
    if i < 1024 {
        q.hl1
    } else if i < 2048 {
        q.lh1
    } else if i < 3072 {
        q.hh1
    } else if i < 3328 {
        q.hl2
    } else if i < 3584 {
        q.lh2
    } else if i < 3840 {
        q.hh2
    } else if i < 3904 {
        q.hl3
    } else if i < 3968 {
        q.lh3
    } else if i < 4032 {
        q.hh3
    } else {
        q.ll3
    }
}

fn scale(v: i16, factor: u8) -> (r: i16)
    requires
        factor < 16,
    ensures
        r == dequantized(v, factor),
{
    if factor <= 1 {
        return v;
    }
    let mut m: i64 = 1;
    let mut j: u8 = 0;
    while j < factor - 1
        invariant
            j <= factor - 1,
            factor < 16,
            m == pow2(j as nat),
            1 <= m <= 16384,
        decreases factor - 1 - j,
    {
        proof {
            lemma_pow2_le(j as nat, 13);
            reveal_with_fuel(pow2, 14);
        }
        m = m * 2;
        j += 1;
    }
    assert(-32768 * 16384 <= v as int * m <= 32768 * 16384) by (nonlinear_arith)
        requires
            -32768 <= v <= 32767,
            1 <= m <= 16384,
    ;
    wrap_i64(v as i64 * m)
}

/// Scales every coefficient back by the factor of its subband.
pub fn dequantize(buffer: &mut Vec<i16>, quant: &Quant)
    requires
        old(buffer)@.len() == TILE_PIXELS,
        quant.ll3 < 16 && quant.lh3 < 16 && quant.hl3 < 16 && quant.hh3 < 16 && quant.lh2 < 16
            && quant.hl2 < 16 && quant.hh2 < 16 && quant.lh1 < 16 && quant.hl1 < 16 && quant.hh1 < 16,
    ensures
        final(buffer)@.len() == TILE_PIXELS,
        forall|i: int|
            0 <= i < TILE_PIXELS ==> #[trigger] final(buffer)@[i] == dequantized(
                old(buffer)@[i],
                band_factor(*quant, i),
            ),
{
    let mut i: usize = 0;
    while i < TILE_PIXELS
        invariant
            i <= TILE_PIXELS,
            buffer@.len() == TILE_PIXELS,
            quant.ll3 < 16 && quant.lh3 < 16 && quant.hl3 < 16 && quant.hh3 < 16 && quant.lh2 < 16
                && quant.hl2 < 16 && quant.hh2 < 16 && quant.lh1 < 16 && quant.hl1 < 16 && quant.hh1 < 16,
            forall|j: int| i <= j < TILE_PIXELS ==> #[trigger] buffer@[j] == old(buffer)@[j],
            forall|j: int|
                0 <= j < i ==> #[trigger] buffer@[j] == dequantized(old(buffer)@[j], band_factor(*quant, j)),
        decreases TILE_PIXELS - i,
    {
        let f = band_factor_of(quant, i);
        let v = scale(buffer[i], f);
        buffer.set(i, v);
        i += 1;
    }
}

// ---------------------------------------------------------------- colour conversion

/// One colour channel from its 2^21-scaled value, clamped to `0..=255`.
pub open spec fn channel(v: int) -> u8 {
    if v < 0 {
        0
    } else if v / 2097152 > 255 {
        255
    } else {
        (v / 2097152) as u8
    }
}

pub open spec fn luma(y: i16) -> int {
    (y + 4096) * 65536
}

pub open spec fn red(y: i16, cb: i16, cr: i16) -> u8 {
    channel(luma(y) + cr * 91916)
}

pub open spec fn green(y: i16, cb: i16, cr: i16) -> u8 {
    channel(luma(y) - cb * 22527 - cr * 46819)
}

pub open spec fn blue(y: i16, cb: i16, cr: i16) -> u8 {
    channel(luma(y) + cb * 115992)
}

fn channel_of(v: i64) -> (r: u8)
    ensures
        r == channel(v as int),
{
    if v < 0 {
        0
    } else {
        let q = (v as u64) / 2097152;
        if q > 255 {
            255
        } else {
            q as u8
        }
    }
}

/// Converts three planes of 4096 coefficients into 64x64 BGRA pixels.
pub fn ycbcr_to_bgra(y: &Vec<i16>, cb: &Vec<i16>, cr: &Vec<i16>, output: &mut Vec<u8>)
    requires
        y@.len() == TILE_PIXELS,
        cb@.len() == TILE_PIXELS,
        cr@.len() == TILE_PIXELS,
        old(output)@.len() == TILE_BYTES,
    ensures
        final(output)@.len() == TILE_BYTES,
        forall|i: int|
            0 <= i < TILE_PIXELS ==> {
                &&& #[trigger] final(output)@[4 * i] == blue(y@[i], cb@[i], cr@[i])
                &&& final(output)@[4 * i + 1] == green(y@[i], cb@[i], cr@[i])
                &&& final(output)@[4 * i + 2] == red(y@[i], cb@[i], cr@[i])
                &&& final(output)@[4 * i + 3] == 0xFF
            },
{
    let mut i: usize = 0;
    while i < TILE_PIXELS
        invariant
            i <= TILE_PIXELS,
            y@.len() == TILE_PIXELS,
            cb@.len() == TILE_PIXELS,
            cr@.len() == TILE_PIXELS,
            output@.len() == TILE_BYTES,
            forall|j: int|
                0 <= j < i ==> {
                    &&& #[trigger] output@[4 * j] == blue(y@[j], cb@[j], cr@[j])
                    &&& output@[4 * j + 1] == green(y@[j], cb@[j], cr@[j])
                    &&& output@[4 * j + 2] == red(y@[j], cb@[j], cr@[j])
                    &&& output@[4 * j + 3] == 0xFF
                },
        decreases TILE_PIXELS - i,
    {
        let yy = (y[i] as i64 + 4096) * 65536;
        let b = cb[i] as i64;
        let r = cr[i] as i64;
        let ghost prev = output@;
        let vb = channel_of(yy + b * 115992);
        let vg = channel_of(yy - b * 22527 - r * 46819);
        let vr = channel_of(yy + r * 91916);
        assert(vb == blue(y@[i as int], cb@[i as int], cr@[i as int]));
        assert(vg == green(y@[i as int], cb@[i as int], cr@[i as int]));
        assert(vr == red(y@[i as int], cb@[i as int], cr@[i as int]));
        output.set(4 * i, vb);
        output.set(4 * i + 1, vg);
        output.set(4 * i + 2, vr);
        output.set(4 * i + 3, 0xFF);
        assert forall|j: int| 0 <= j < i + 1 implies {
            &&& #[trigger] output@[4 * j] == blue(y@[j], cb@[j], cr@[j])
            &&& output@[4 * j + 1] == green(y@[j], cb@[j], cr@[j])
            &&& output@[4 * j + 2] == red(y@[j], cb@[j], cr@[j])
            &&& output@[4 * j + 3] == 0xFF
        } by {
            if j < i {
                assert(prev[4 * j] == blue(y@[j], cb@[j], cr@[j]));
                assert(output@[4 * j] == prev[4 * j]);
                assert(output@[4 * j + 1] == prev[4 * j + 1]);
                assert(output@[4 * j + 2] == prev[4 * j + 2]);
                assert(output@[4 * j + 3] == prev[4 * j + 3]);
            }
        }
        i += 1;
    }
}

} // verus!
