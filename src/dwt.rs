//! The three-level inverse discrete wavelet transform of a RemoteFX tile.
use vstd::prelude::*;
use crate::rfx_tile::{wrap16, TILE_PIXELS};

verus! {

/// Even sample `k` of the inverse lifting of low band `l` and high band `h`.
pub open spec fn lift_even(l: Seq<i16>, h: Seq<i16>, k: int) -> i16 {
    let hp = if k == 0 { h[0] } else { h[k - 1] };
    wrap16(l[k] - (hp + h[k] + 1) / 2)
}

/// Odd sample `k` of the inverse lifting; the last one mirrors its even neighbour.
pub open spec fn lift_odd(l: Seq<i16>, h: Seq<i16>, k: int) -> i16 {
    if k + 1 < l.len() {
        wrap16(2 * h[k] + (lift_even(l, h, k) + lift_even(l, h, k + 1)) / 2)
    } else {
        wrap16(2 * h[k] + lift_even(l, h, k))
    }
}

/// The `2 n` samples rebuilt from `n` low-pass and `n` high-pass coefficients.
pub open spec fn lift_seq(l: Seq<i16>, h: Seq<i16>) -> Seq<i16> {
    Seq::new(
        (2 * l.len()) as nat,
        |j: int|
            if j % 2 == 0 {
                lift_even(l, h, j / 2)
            } else {
                lift_odd(l, h, j / 2)
            },
    )
}

/// Row `r` of subband `b` (0 HL, 1 LH, 2 HH, 3 LL) of a level of width `w`.
pub open spec fn band_row(s: Seq<i16>, w: int, b: int, r: int) -> Seq<i16> {
    s.subrange(b * (w * w) + r * w, b * (w * w) + r * w + w)
}

/// Row `r` of the low half after the horizontal pass.
pub open spec fn low_row(s: Seq<i16>, w: int, r: int) -> Seq<i16> {
    lift_seq(band_row(s, w, 3, r), band_row(s, w, 0, r))
}

/// Row `r` of the high half after the horizontal pass.
pub open spec fn high_row(s: Seq<i16>, w: int, r: int) -> Seq<i16> {
    lift_seq(band_row(s, w, 1, r), band_row(s, w, 2, r))
}

pub open spec fn low_col(s: Seq<i16>, w: int, c: int) -> Seq<i16> {
    Seq::new(w as nat, |r: int| low_row(s, w, r)[c])
}

pub open spec fn high_col(s: Seq<i16>, w: int, c: int) -> Seq<i16> {
    Seq::new(w as nat, |r: int| high_row(s, w, r)[c])
}

/// Sample `(j, c)` of the `2w` by `2w` block rebuilt from the level `s`.
pub open spec fn block_out(s: Seq<i16>, w: int, j: int, c: int) -> i16 {
    if j % 2 == 0 {
        lift_even(low_col(s, w, c), high_col(s, w, c), j / 2)
    } else {
        lift_odd(low_col(s, w, c), high_col(s, w, c), j / 2)
    }
}

/// `s` with the level of width `w` at `off` replaced by its inverse transform.
pub open spec fn idwt_level(s: Seq<i16>, off: int, w: int) -> Seq<i16> {
    Seq::new(
        s.len(),
        |i: int|
            if off <= i < off + 4 * (w * w) {
                block_out(s.subrange(off, off + 4 * (w * w)), w, (i - off) / (2 * w), (i - off) % (2 * w))
            } else {
                s[i]
            },
    )
}

/// The inverse transform of a tile component, coarsest level first.
pub open spec fn idwt(s: Seq<i16>) -> Seq<i16> {
    idwt_level(idwt_level(idwt_level(s, 3840, 8), 3072, 16), 0, 32)
}

/// `floor(s / 2)` of a sum of at most three 16-bit values.
fn half(s: i32) -> (r: i32)
    requires
        -0x4_0000 <= s <= 0x4_0000,
    ensures
        r == s as int / 2,
        -0x2_0000 <= r <= 0x2_0000,
{
    let u = (s + 0x4_0000) as u32 / 2;
    u as i32 - 0x2_0000
}

fn to_i16(v: i32) -> (r: i16)
    ensures
        r == wrap16(v as int),
{
    let shifted = (v as i64 + 32768 + 0x1_0000_0000) as u64;
    let m = (shifted % 65536) as i64;
    assert((v + 32768 + 0x1_0000_0000) % 65536 == (v + 32768) % 65536) by (nonlinear_arith);
    (m - 32768) as i16
}

/// Rebuilds `2 n` samples at `d` of `dst` from the `n` low-pass coefficients
/// at `lo` and the `n` high-pass coefficients at `ho` of `src`.
fn lift_row(src: &Vec<i16>, lo: usize, ho: usize, n: usize, dst: &mut Vec<i16>, d: usize)
    requires
        1 <= n <= 32,
        lo + n <= src@.len(),
        ho + n <= src@.len(),
        d + 2 * n <= old(dst)@.len(),
        src@.len() <= TILE_PIXELS,
        old(dst)@.len() <= TILE_PIXELS,
    ensures
        final(dst)@.len() == old(dst)@.len(),
        forall|j: int|
            0 <= j < 2 * n ==> #[trigger] final(dst)@[d + j] == lift_seq(
                src@.subrange(lo as int, lo + n),
                src@.subrange(ho as int, ho + n),
            )[j],
        forall|t: int|
            0 <= t < final(dst)@.len() && (t < d || t >= d + 2 * n) ==> #[trigger] final(dst)@[t]
                == old(dst)@[t],
{
    let ghost l = src@.subrange(lo as int, lo + n);
    let ghost h = src@.subrange(ho as int, ho + n);
    let len = dst.len();
    let mut k: usize = 0;
    while k < n
        invariant
            k <= n <= 32,
            lo + n <= src@.len(),
            ho + n <= src@.len(),
            src@.len() <= TILE_PIXELS,
            d + 2 * n <= len,
            dst@.len() == len,
            len == old(dst)@.len(),
            l == src@.subrange(lo as int, lo + n),
            h == src@.subrange(ho as int, ho + n),
            forall|q: int| 0 <= q < k ==> #[trigger] dst@[d + 2 * q] == lift_even(l, h, q),
            forall|t: int|
                0 <= t < len && (t < d || t >= d + 2 * n || (t - d) % 2 == 1 || t >= d + 2 * k)
                    ==> #[trigger] dst@[t] == old(dst)@[t],
        decreases n - k,
    {
        let kp = if k == 0 { 0 } else { k - 1 };
        let v = to_i16(src[lo + k] as i32 - half(src[ho + kp] as i32 + src[ho + k] as i32 + 1));
        assert(v == lift_even(l, h, k as int));
        dst.set(d + 2 * k, v);
        k += 1;
    }
    let mut k: usize = 0;
    while k < n
        invariant
            k <= n <= 32,
            ho + n <= src@.len(),
            src@.len() <= TILE_PIXELS,
            d + 2 * n <= len,
            dst@.len() == len,
            len == old(dst)@.len(),
            l == src@.subrange(lo as int, lo + n),
            h == src@.subrange(ho as int, ho + n),
            l.len() == n,
            forall|q: int| 0 <= q < n ==> #[trigger] dst@[d + 2 * q] == lift_even(l, h, q),
            forall|q: int| 0 <= q < k ==> #[trigger] dst@[d + 2 * q + 1] == lift_odd(l, h, q),
            forall|t: int| 0 <= t < len && (t < d || t >= d + 2 * n) ==> #[trigger] dst@[t] == old(dst)@[t],
        decreases n - k,
    {
        let e0 = dst[d + 2 * k] as i32;
        let hk = src[ho + k] as i32;
        assert(dst@[d + 2 * k] == lift_even(l, h, k as int));
        assert(hk == h[k as int]);
        let v = if k + 1 < n {
            assert(dst@[d + 2 * (k + 1)] == lift_even(l, h, k + 1));
            assert(d + 2 * (k + 1) == d + 2 * k + 2);
            let e1 = dst[d + 2 * k + 2] as i32;
            to_i16(2 * hk + half(e0 + e1))
        } else {
            to_i16(2 * hk + e0)
        };
        assert(v == lift_odd(l, h, k as int));
        dst.set(d + 2 * k + 1, v);
        assert(dst@[d + 2 * (k + 1)] == lift_even(l, h, k + 1) || k + 1 >= n);
        k += 1;
    }
    assert forall|j: int| 0 <= j < 2 * n implies #[trigger] dst@[d + j] == lift_seq(l, h)[j] by {
        if j % 2 == 0 {
            assert(dst@[d + 2 * (j / 2)] == lift_even(l, h, j / 2));
        } else {
            assert(dst@[d + 2 * (j / 2) + 1] == lift_odd(l, h, j / 2));
        }
    }
}

/// Writes `tw` samples at `d`: the even step of the vertical lifting, from
/// the low row at `lo` and the high rows at `hpo` and `ho` of `temp`.
fn even_row(temp: &Vec<i16>, lo: usize, hpo: usize, ho: usize, tw: usize, dst: &mut Vec<i16>, d: usize)
    requires
        tw <= 64,
        lo + tw <= temp@.len(),
        hpo + tw <= temp@.len(),
        ho + tw <= temp@.len(),
        d + tw <= old(dst)@.len(),
        temp@.len() <= TILE_PIXELS,
        old(dst)@.len() <= TILE_PIXELS,
    ensures
        final(dst)@.len() == old(dst)@.len(),
        forall|c: int|
            0 <= c < tw ==> #[trigger] final(dst)@[d + c] == wrap16(
                temp@[lo + c] - (temp@[hpo + c] + temp@[ho + c] + 1) / 2,
            ),
        forall|t: int| 0 <= t < final(dst)@.len() && (t < d || t >= d + tw) ==> #[trigger] final(dst)@[t] == old(dst)@[t],
{
    let len = dst.len();
    let mut c: usize = 0;
    while c < tw
        invariant
            c <= tw <= 64,
            temp@.len() <= TILE_PIXELS,
            lo + tw <= temp@.len(),
            hpo + tw <= temp@.len(),
            ho + tw <= temp@.len(),
            d + tw <= len,
            dst@.len() == len,
            len == old(dst)@.len(),
            forall|q: int|
                0 <= q < c ==> #[trigger] dst@[d + q] == wrap16(
                    temp@[lo + q] - (temp@[hpo + q] + temp@[ho + q] + 1) / 2,
                ),
            forall|t: int| 0 <= t < len && (t < d || t >= d + c) ==> #[trigger] dst@[t] == old(dst)@[t],
        decreases tw - c,
    {
        let v = to_i16(temp[lo + c] as i32 - half(temp[hpo + c] as i32 + temp[ho + c] as i32 + 1));
        dst.set(d + c, v);
        c += 1;
    }
}

/// Writes `tw` samples at `d`: the odd step of the vertical lifting, from the
/// high row at `ho` of `temp` and the rebuilt even rows at `e0` and `e1` of `dst`.
fn odd_row(temp: &Vec<i16>, ho: usize, tw: usize, dst: &mut Vec<i16>, d: usize, e0: usize, e1: usize)
    requires
        tw <= 64,
        ho + tw <= temp@.len(),
        d + tw <= old(dst)@.len(),
        e0 + tw <= d,
        e1 + tw <= d || d + tw <= e1,
        e1 + tw <= old(dst)@.len(),
        temp@.len() <= TILE_PIXELS,
        old(dst)@.len() <= TILE_PIXELS,
    ensures
        final(dst)@.len() == old(dst)@.len(),
        forall|c: int|
            0 <= c < tw ==> #[trigger] final(dst)@[d + c] == wrap16(
                2 * temp@[ho + c] + (old(dst)@[e0 + c] + old(dst)@[e1 + c]) / 2,
            ),
        forall|t: int| 0 <= t < final(dst)@.len() && (t < d || t >= d + tw) ==> #[trigger] final(dst)@[t] == old(dst)@[t],
{
    let len = dst.len();
    let mut c: usize = 0;
    while c < tw
        invariant
            c <= tw <= 64,
            temp@.len() <= TILE_PIXELS,
            ho + tw <= temp@.len(),
            d + tw <= len,
            e0 + tw <= d,
            e1 + tw <= d || d + tw <= e1,
            e1 + tw <= len,
            dst@.len() == len,
            len == old(dst)@.len(),
            forall|q: int|
                0 <= q < c ==> #[trigger] dst@[d + q] == wrap16(
                    2 * temp@[ho + q] + (old(dst)@[e0 + q] + old(dst)@[e1 + q]) / 2,
                ),
            forall|t: int| 0 <= t < len && (t < d || t >= d + c) ==> #[trigger] dst@[t] == old(dst)@[t],
        decreases tw - c,
    {
        let a = dst[e0 + c] as i32;
        let b = dst[e1 + c] as i32;
        let v = to_i16(2 * temp[ho + c] as i32 + half(a + b));
        dst.set(d + c, v);
        c += 1;
    }
}

proof fn lemma_rows(a: int, b: int, tw: int, c: int)
    requires
        0 <= a < b,
        0 <= c < tw,
    ensures
        a * tw + c < b * tw,
        a * tw + tw <= b * tw,
{
    assert(a * tw + tw <= b * tw) by (nonlinear_arith)
        requires
            a < b,
            tw >= 0,
    ;
}

proof fn lemma_div_mod(x: int, tw: int, rows: int)
    requires
        tw > 0,
        0 <= x < rows * tw,
    ensures
        x == (x / tw) * tw + x % tw,
        0 <= x % tw < tw,
        0 <= x / tw < rows,
{
    vstd::arithmetic::div_mod::lemma_fundamental_div_mod(x, tw);
    assert(x == tw * (x / tw) + x % tw);
    assert((x / tw) * tw == tw * (x / tw)) by (nonlinear_arith);
    assert(0 <= x / tw < rows) by (nonlinear_arith)
        requires
            tw > 0,
            0 <= x < rows * tw,
            x == (x / tw) * tw + x % tw,
            0 <= x % tw < tw,
    ;
}

/// One level of the inverse transform on the `4 w^2` coefficients at `off`,
/// laid out as HL, LH, HH, LL subbands of `w` by `w`: rows first into `temp`,
/// then columns back into `buffer` as a `2w` by `2w` block.
fn decode_block(buffer: &mut Vec<i16>, off: usize, temp: &mut Vec<i16>, w: usize)
    requires
        8 <= w <= 32,
        off + 4 * (w * w) <= TILE_PIXELS,
        old(buffer)@.len() == TILE_PIXELS,
        old(temp)@.len() == TILE_PIXELS,
    ensures
        final(buffer)@ == idwt_level(old(buffer)@, off as int, w as int),
        final(temp)@.len() == TILE_PIXELS,
{
    assert(w * w <= 1024) by (nonlinear_arith)
        requires
            w <= 32,
    ;
    let ww = w * w;
    let tw = 2 * w;
    let ghost s = old(buffer)@.subrange(off as int, off + 4 * ww);
    assert(4 * ww == tw * tw && 2 * ww == w * tw) by (nonlinear_arith)
        requires
            ww == w * w,
            tw == 2 * w,
    ;
    // rows: low half then high half, each w rows of 2w samples
    let mut r: usize = 0;
    while r < w
        invariant
            r <= w,
            8 <= w <= 32,
            ww == w * w,
            tw == 2 * w,
            4 * ww == tw * tw,
            2 * ww == w * tw,
            off + 4 * ww <= TILE_PIXELS,
            buffer@ == old(buffer)@,
            buffer@.len() == TILE_PIXELS,
            s == buffer@.subrange(off as int, off + 4 * ww),
            temp@.len() == TILE_PIXELS,
            forall|q: int, c: int|
                #![trigger temp@[q * tw + c]]
                #![trigger temp@[2 * ww + q * tw + c]]
                0 <= q < r && 0 <= c < tw ==> temp@[q * tw + c] == low_row(s, w as int, q)[c]
                    && temp@[2 * ww + q * tw + c] == high_row(s, w as int, q)[c],
        decreases w - r,
    {
        assert(r * w + w <= ww && r * tw + tw <= 2 * ww) by (nonlinear_arith)
            requires
                r < w,
                ww == w * w,
                tw == 2 * w,
        ;
        let ghost t0 = temp@;
        lift_row(buffer, off + 3 * ww + r * w, off + r * w, w, temp, r * tw);
        let ghost t1 = temp@;
        lift_row(buffer, off + ww + r * w, off + 2 * ww + r * w, w, temp, 2 * ww + r * tw);
        proof {
            let wi = w as int;
            assert(band_row(s, wi, 3, r as int) =~= buffer@.subrange(off + 3 * ww + r * w, off + 3 * ww + r * w + w));
            assert(band_row(s, wi, 0, r as int) =~= buffer@.subrange(off + r * w, off + r * w + w));
            assert(band_row(s, wi, 1, r as int) =~= buffer@.subrange(off + ww + r * w, off + ww + r * w + w));
            assert(band_row(s, wi, 2, r as int) =~= buffer@.subrange(off + 2 * ww + r * w, off + 2 * ww + r * w + w));
            assert forall|q: int, c: int|
                0 <= q < r + 1 && 0 <= c < tw implies temp@[q * tw + c] == low_row(s, wi, q)[c]
                    && temp@[2 * ww + q * tw + c] == high_row(s, wi, q)[c] by {
                if q < r {
                    lemma_rows(q, r as int, tw as int, c);
                    assert(temp@[q * tw + c] == t1[q * tw + c]);
                    assert(t1[q * tw + c] == t0[q * tw + c]);
                    assert(t0[q * tw + c] == low_row(s, wi, q)[c]);
                    assert(temp@[2 * ww + q * tw + c] == t1[2 * ww + q * tw + c]);
                    assert(t1[2 * ww + q * tw + c] == t0[2 * ww + q * tw + c]);
                    assert(t0[2 * ww + q * tw + c] == high_row(s, wi, q)[c]);
                } else {
                    assert(t1[r * tw + c] == low_row(s, wi, q)[c]);
                    assert(temp@[q * tw + c] == t1[q * tw + c]);
                    assert(temp@[2 * ww + r * tw + c] == high_row(s, wi, q)[c]);
                }
            }
        }
        r += 1;
    }
    let ghost tmp = temp@;
    // even output rows
    let mut k: usize = 0;
    while k < w
        invariant
            k <= w,
            8 <= w <= 32,
            ww == w * w,
            tw == 2 * w,
            4 * ww == tw * tw,
            2 * ww == w * tw,
            off + 4 * ww <= TILE_PIXELS,
            buffer@.len() == TILE_PIXELS,
            temp@ == tmp,
            tmp.len() == TILE_PIXELS,
            forall|q: int, c: int|
                #![trigger tmp[q * tw + c]]
                #![trigger tmp[2 * ww + q * tw + c]]
                0 <= q < w && 0 <= c < tw ==> tmp[q * tw + c] == low_row(s, w as int, q)[c]
                    && tmp[2 * ww + q * tw + c] == high_row(s, w as int, q)[c],
            forall|q: int, c: int|
                0 <= q < k && 0 <= c < tw ==> #[trigger] buffer@[off + (2 * q) * tw + c] == lift_even(
                    low_col(s, w as int, c),
                    high_col(s, w as int, c),
                    q,
                ),
            forall|t: int|
                0 <= t < TILE_PIXELS && (t < off || t >= off + 4 * ww) ==> #[trigger] buffer@[t] == old(buffer)@[t],
        decreases w - k,
    {
        let kp = if k == 0 { 0 } else { k - 1 };
        assert(k * tw + tw <= 2 * ww && kp * tw <= k * tw && off + (2 * k) * tw + tw <= off + 4 * ww) by (nonlinear_arith)
            requires
                k < w,
                kp <= k,
                ww == w * w,
                tw == 2 * w,
        ;
        let ghost b0 = buffer@;
        even_row(temp, k * tw, 2 * ww + kp * tw, 2 * ww + k * tw, tw, buffer, off + (2 * k) * tw);
        proof {
            let wi = w as int;
            assert forall|q: int, c: int|
                0 <= q < k + 1 && 0 <= c < tw implies #[trigger] buffer@[off + (2 * q) * tw + c] == lift_even(
                    low_col(s, wi, c),
                    high_col(s, wi, c),
                    q,
                ) by {
                if q < k {
                    lemma_rows(2 * q, 2 * k as int, tw as int, c);
                    assert(buffer@[off + (2 * q) * tw + c] == b0[off + (2 * q) * tw + c]);
                } else {
                    let lc = low_col(s, wi, c);
                    let hc = high_col(s, wi, c);
                    assert(tmp[k * tw + c] == lc[k as int]);
                    assert(tmp[2 * ww + k * tw + c] == hc[k as int]);
                    assert(tmp[2 * ww + kp * tw + c] == hc[kp as int]);
                }
            }
        }
        k += 1;
    }
    // odd output rows
    let mut k: usize = 0;
    while k < w
        invariant
            k <= w,
            8 <= w <= 32,
            ww == w * w,
            tw == 2 * w,
            4 * ww == tw * tw,
            2 * ww == w * tw,
            off + 4 * ww <= TILE_PIXELS,
            buffer@.len() == TILE_PIXELS,
            temp@ == tmp,
            tmp.len() == TILE_PIXELS,
            forall|q: int, c: int|
                #![trigger tmp[q * tw + c]]
                #![trigger tmp[2 * ww + q * tw + c]]
                0 <= q < w && 0 <= c < tw ==> tmp[q * tw + c] == low_row(s, w as int, q)[c]
                    && tmp[2 * ww + q * tw + c] == high_row(s, w as int, q)[c],
            forall|q: int, c: int|
                0 <= q < w && 0 <= c < tw ==> #[trigger] buffer@[off + (2 * q) * tw + c] == lift_even(
                    low_col(s, w as int, c),
                    high_col(s, w as int, c),
                    q,
                ),
            forall|q: int, c: int|
                0 <= q < k && 0 <= c < tw ==> #[trigger] buffer@[off + (2 * q + 1) * tw + c] == lift_odd(
                    low_col(s, w as int, c),
                    high_col(s, w as int, c),
                    q,
                ),
            forall|t: int|
                0 <= t < TILE_PIXELS && (t < off || t >= off + 4 * ww) ==> #[trigger] buffer@[t] == old(buffer)@[t],
        decreases w - k,
    {
        let kn = if k + 1 < w { k + 1 } else { k };
        assert(k * tw + tw <= 2 * ww) by (nonlinear_arith)
            requires
                k < w,
                ww == w * w,
                tw == 2 * w,
        ;
        assert((2 * kn) * tw + tw <= 4 * ww && (2 * k + 1) * tw + tw <= 4 * ww) by (nonlinear_arith)
            requires
                k < w,
                kn < w,
                ww == w * w,
                tw == 2 * w,
        ;
        assert((2 * k) * tw + tw <= (2 * k + 1) * tw) by (nonlinear_arith)
            requires
                tw >= 0,
        ;
        assert(kn == k + 1 ==> (2 * k + 1) * tw + tw <= (2 * kn) * tw) by (nonlinear_arith)
            requires
                tw >= 0,
        ;
        let ghost b0 = buffer@;
        odd_row(temp, 2 * ww + k * tw, tw, buffer, off + (2 * k + 1) * tw, off + (2 * k) * tw, off + (2 * kn) * tw);
        proof {
            let wi = w as int;
            assert forall|q: int, c: int|
                0 <= q < w && 0 <= c < tw implies #[trigger] buffer@[off + (2 * q) * tw + c] == lift_even(
                    low_col(s, wi, c),
                    high_col(s, wi, c),
                    q,
                ) by {
                lemma_rows(2 * q, tw as int, tw as int, c);
                if q <= k {
                    lemma_rows(2 * q, 2 * k + 1, tw as int, c);
                } else {
                    lemma_rows(2 * k + 1, 2 * q, tw as int, 0);
                }
                assert(buffer@[off + (2 * q) * tw + c] == b0[off + (2 * q) * tw + c]);
            }
            assert forall|q: int, c: int|
                0 <= q < k + 1 && 0 <= c < tw implies #[trigger] buffer@[off + (2 * q + 1) * tw + c] == lift_odd(
                    low_col(s, wi, c),
                    high_col(s, wi, c),
                    q,
                ) by {
                if q < k {
                    lemma_rows(2 * q + 1, 2 * k + 1, tw as int, c);
                    assert(buffer@[off + (2 * q + 1) * tw + c] == b0[off + (2 * q + 1) * tw + c]);
                } else {
                    let lc = low_col(s, wi, c);
                    let hc = high_col(s, wi, c);
                    assert(tmp[2 * ww + k * tw + c] == hc[k as int]);
                    assert(b0[off + (2 * k) * tw + c] == lift_even(lc, hc, k as int));
                    assert(b0[off + (2 * kn) * tw + c] == lift_even(lc, hc, kn as int));
                }
            }
        }
        k += 1;
    }
    proof {
        let wi = w as int;
        let twi = tw as int;
        assert forall|i: int| 0 <= i < buffer@.len() implies #[trigger] buffer@[i] == idwt_level(old(buffer)@, off as int, wi)[i] by {
            if off <= i < off + 4 * ww {
                let x = i - off;
                lemma_div_mod(x, twi, twi);
                let j = x / twi;
                let c = x % twi;
                if j % 2 == 0 {
                    let q = j / 2;
                    assert(i == off + (2 * q) * twi + c);
                } else {
                    let q = j / 2;
                    assert(i == off + (2 * q + 1) * twi + c);
                }
            }
        }
        assert(buffer@ =~= idwt_level(old(buffer)@, off as int, wi));
    }
}

/// The inverse transform of a whole tile component, coarsest level first.
pub fn dwt_decode(buffer: &mut Vec<i16>, temp: &mut Vec<i16>)
    requires
        old(buffer)@.len() == TILE_PIXELS,
        old(temp)@.len() == TILE_PIXELS,
    ensures
        final(buffer)@ == idwt(old(buffer)@),
        final(temp)@.len() == TILE_PIXELS,
{
    decode_block(buffer, 3840, temp, 8);
    decode_block(buffer, 3072, temp, 16);
    decode_block(buffer, 0, temp, 32);
}

} // verus!
