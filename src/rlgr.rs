//! The RLGR (run-length / Golomb-Rice) entropy decoder of RemoteFX.
use vstd::prelude::*;
use crate::error::RfxError;
use crate::rfx_messages::EntropyAlgorithm;
use crate::rfx_tile::{lemma_pow2_le, pow2};

verus! {

pub const KP_MAX: u32 = 80;
pub const UP_GR: u32 = 4;
pub const DN_GR: u32 = 6;
pub const UQ_GR: u32 = 3;
pub const DQ_GR: u32 = 3;
/// Longest unary prefix accepted in a Golomb-Rice code.
pub const MAX_UNARY: u32 = 31;

/// The bit at `pos` of `data`, most significant bit of each byte first.
pub open spec fn bit_at(data: Seq<u8>, pos: int) -> int {
    (data[pos / 8] as int / pow2((7 - pos % 8) as nat)) % 2
}

/// The number that the `n` bits from `pos` spell, most significant first.
pub open spec fn bits_value(data: Seq<u8>, pos: int, n: nat) -> int
    decreases n,
{
    if n == 0 {
        0
    } else {
        bits_value(data, pos, (n - 1) as nat) * 2 + bit_at(data, pos + n - 1)
    }
}

/// How many one bits follow from `pos` before a zero bit or the end.
pub open spec fn ones_run(data: Seq<u8>, pos: int) -> int
    decreases data.len() * 8 - pos,
{
    if pos < 0 || pos >= data.len() * 8 || bit_at(data, pos) == 0 {
        0
    } else {
        1 + ones_run(data, pos + 1)
    }
}

proof fn lemma_ones_run_nonneg(data: Seq<u8>, pos: int)
    ensures
        ones_run(data, pos) >= 0,
    decreases data.len() * 8 - pos,
{
    if !(pos < 0 || pos >= data.len() * 8 || bit_at(data, pos) == 0) {
        lemma_ones_run_nonneg(data, pos + 1);
    }
}

/// The Golomb-Rice parameter after a code whose unary prefix was `vk`.
pub open spec fn gr_adapt(krp: int, vk: int) -> int {
    if vk == 0 {
        if krp >= 2 { krp - 2 } else { 0 }
    } else if vk != 1 {
        if krp + vk > KP_MAX { KP_MAX as int } else { krp + vk }
    } else {
        krp
    }
}

/// What reading one Golomb-Rice code gives.
pub enum GrCode {
    /// The stream ends inside the code.
    End,
    /// The unary prefix is longer than any legal code.
    Fail,
    Code { mag: int, pos: int, krp: int },
}

/// The Golomb-Rice code at `pos`: a unary prefix of ones closed by a zero,
/// then `krp / 8` bits.
pub open spec fn spec_gr(data: Seq<u8>, pos: int, krp: int) -> GrCode {
    let total = data.len() * 8;
    let run = ones_run(data, pos);
    if run > MAX_UNARY {
        GrCode::Fail
    } else if pos + run >= total {
        GrCode::End
    } else if pos + run + 1 + krp / 8 > total {
        GrCode::End
    } else {
        GrCode::Code {
            mag: run * pow2((krp / 8) as nat) + bits_value(data, pos + run + 1, (krp / 8) as nat),
            pos: pos + run + 1 + krp / 8,
            krp: gr_adapt(krp, run),
        }
    }
}

/// Where writing up to `n` zeros at `at` stops.
pub open spec fn zeros_end(at: int, n: int, len: int) -> int {
    if at + n <= len { at + n } else { len }
}

pub open spec fn put_zeros(out: Seq<i16>, at: int, n: int) -> Seq<i16> {
    Seq::new(out.len(), |i: int| if at <= i < zeros_end(at, n, out.len() as int) { 0i16 } else { out[i] })
}

pub open spec fn put_value(out: Seq<i16>, at: int, v: i16) -> Seq<i16> {
    if 0 <= at < out.len() { out.update(at, v) } else { out }
}

pub open spec fn value_end(at: int, len: int) -> int {
    if at < len { at + 1 } else { at }
}

/// A coefficient from its sign-folded magnitude: even values are positive.
pub open spec fn unfolded(v: int) -> i16 {
    if v % 2 == 1 { (-((v + 1) / 2)) as i16 } else { (v / 2) as i16 }
}

/// Decoder state: bit position, output position, output, `kp` and `krp`.
pub type RlgrState = (int, int, Seq<i16>, int, int);

/// The zero runs of run-length mode: each zero bit is a run of `2^k` zeros;
/// a one bit ends them. The flag tells that the stream ended first.
pub open spec fn rl_zeros(data: Seq<u8>, st: RlgrState) -> (bool, RlgrState)
    decreases data.len() * 8 - st.0,
{
    if st.0 < 0 || st.0 >= data.len() * 8 {
        (true, st)
    } else if bit_at(data, st.0) == 1 {
        (false, (st.0 + 1, st.1, st.2, st.3, st.4))
    } else {
        let n = pow2((st.3 / 8) as nat);
        let kp = if st.3 + UP_GR > KP_MAX { KP_MAX as int } else { st.3 + UP_GR };
        rl_zeros(data, (st.0 + 1, zeros_end(st.1, n, st.2.len() as int), put_zeros(st.2, st.1, n), kp, st.4))
    }
}

/// The number of bits needed for `m`, counted from `w` (at most 16).
pub open spec fn bit_width(m: int, w: nat) -> nat
    decreases 16 - w,
{
    if w >= 16 || pow2(w) > m { w } else { bit_width(m, w + 1) }
}

pub enum RlgrStep {
    /// The stream ends: the rest of the output is zero.
    Stop(RlgrState),
    /// The stream is malformed.
    Fail,
    Next(RlgrState),
}

/// One step of the decoder, in run-length mode when `kp / 8` is not zero and
/// in Golomb-Rice mode otherwise.
pub open spec fn rlgr_step(mode: EntropyAlgorithm, data: Seq<u8>, st: RlgrState) -> RlgrStep {
    let total = data.len() * 8;
    let len = st.2.len() as int;
    if st.3 / 8 != 0 {
        let (ended, s1) = rl_zeros(data, st);
        let k = s1.3 / 8;
        if ended || s1.0 + k > total {
            RlgrStep::Stop(s1)
        } else {
            let rest = bits_value(data, s1.0, k as nat);
            let s2: RlgrState = (s1.0 + k, zeros_end(s1.1, rest, len), put_zeros(s1.2, s1.1, rest), s1.3, s1.4);
            if s2.0 >= total {
                RlgrStep::Stop(s2)
            } else {
                match spec_gr(data, s2.0 + 1, s2.4) {
                    GrCode::End => RlgrStep::Stop(s2),
                    GrCode::Fail => RlgrStep::Fail,
                    GrCode::Code { mag, pos, krp } => if mag >= 32767 {
                        RlgrStep::Fail
                    } else {
                        let v: i16 = if bit_at(data, s2.0) == 1 { (-(mag + 1)) as i16 } else { (mag + 1) as i16 };
                        let kp = if s2.3 >= DN_GR { s2.3 - DN_GR } else { 0 };
                        RlgrStep::Next((pos, value_end(s2.1, len), put_value(s2.2, s2.1, v), kp, krp))
                    },
                }
            }
        }
    } else {
        match spec_gr(data, st.0, st.4) {
            GrCode::End => RlgrStep::Stop(st),
            GrCode::Fail => RlgrStep::Fail,
            GrCode::Code { mag, pos, krp } => match mode {
                EntropyAlgorithm::Rlgr1 => if mag == 0 {
                    let kp = if st.3 + UQ_GR > KP_MAX { KP_MAX as int } else { st.3 + UQ_GR };
                    RlgrStep::Next((pos, value_end(st.1, len), put_value(st.2, st.1, 0), kp, krp))
                } else {
                    let kp = if st.3 >= DQ_GR { st.3 - DQ_GR } else { 0 };
                    RlgrStep::Next((pos, value_end(st.1, len), put_value(st.2, st.1, unfolded(mag)), kp, krp))
                },
                EntropyAlgorithm::Rlgr3 => {
                    let width = bit_width(mag, 0);
                    if pow2(width) <= mag {
                        RlgrStep::Fail
                    } else if pos + width > total {
                        RlgrStep::Stop(st)
                    } else {
                        let v1 = bits_value(data, pos, width);
                        if v1 > mag {
                            RlgrStep::Fail
                        } else {
                            let v2 = mag - v1;
                            let kp = if v1 != 0 && v2 != 0 {
                                if st.3 >= 2 * DQ_GR { st.3 - 2 * DQ_GR } else { 0 }
                            } else if v1 == 0 && v2 == 0 {
                                if st.3 + 2 * UQ_GR > KP_MAX { KP_MAX as int } else { st.3 + 2 * UQ_GR }
                            } else {
                                st.3
                            };
                            let out1 = put_value(st.2, st.1, unfolded(v1));
                            let at1 = value_end(st.1, len);
                            RlgrStep::Next((pos + width, value_end(at1, len), put_value(out1, at1, unfolded(v2)), kp, krp))
                        }
                    }
                },
            },
        }
    }
}

/// The output with everything from `at` on set to zero.
pub open spec fn pad(out: Seq<i16>, at: int) -> Seq<i16> {
    Seq::new(out.len(), |i: int| if i < at { out[i] } else { 0i16 })
}

pub open spec fn remaining(data: Seq<u8>, pos: int) -> int {
    if pos >= data.len() * 8 { 0 } else { data.len() * 8 - pos }
}

/// The decoded coefficients from state `st` on, or `None` for a malformed stream.
pub open spec fn rlgr_run(mode: EntropyAlgorithm, data: Seq<u8>, st: RlgrState) -> Option<Seq<i16>>
    decreases remaining(data, st.0),
{
    if !(st.1 < st.2.len() && st.0 < data.len() * 8) {
        Some(pad(st.2, st.1))
    } else {
        match rlgr_step(mode, data, st) {
            RlgrStep::Stop(s) => Some(pad(s.2, s.1)),
            RlgrStep::Fail => None,
            RlgrStep::Next(s) => if s.0 <= st.0 {
                Some(pad(s.2, s.1))
            } else {
                rlgr_run(mode, data, s)
            },
        }
    }
}

/// The coefficients that an RLGR stream decodes to, in an output of `out.len()` values.
pub open spec fn rlgr_decoded(mode: EntropyAlgorithm, data: Seq<u8>, out: Seq<i16>) -> Option<Seq<i16>> {
    rlgr_run(mode, data, (0, 0, out, 8, 8))
}

/// Whether `a` and `b` hold the same values below `n`.
pub open spec fn agree(a: Seq<i16>, b: Seq<i16>, n: int) -> bool {
    a.len() == b.len() && 0 <= n <= a.len() && forall|i: int| 0 <= i < n ==> #[trigger] a[i] == b[i]
}

/// Two decoder states that differ only in output values not yet written.
pub open spec fn same_but_output(s1: RlgrState, s2: RlgrState) -> bool {
    s1.0 == s2.0 && s1.1 == s2.1 && s1.3 == s2.3 && s1.4 == s2.4 && agree(s1.2, s2.2, s1.1)
}

proof fn lemma_bits_value_nonneg(data: Seq<u8>, pos: int, n: nat)
    ensures
        bits_value(data, pos, n) >= 0,
    decreases n,
{
    if n > 0 {
        lemma_bits_value_nonneg(data, pos, (n - 1) as nat);
        assert(bit_at(data, pos + n - 1) >= 0) by {
            lemma_pow2_le(0, (7 - (pos + n - 1) % 8) as nat);
        }
    }
}

proof fn lemma_zeros_agree(a: Seq<i16>, b: Seq<i16>, at: int, n: int)
    requires
        agree(a, b, at),
        n >= 0,
    ensures
        agree(put_zeros(a, at, n), put_zeros(b, at, n), zeros_end(at, n, a.len() as int)),
{
}

proof fn lemma_value_agree(a: Seq<i16>, b: Seq<i16>, at: int, v: i16)
    requires
        agree(a, b, at),
    ensures
        agree(put_value(a, at, v), put_value(b, at, v), value_end(at, a.len() as int)),
{
}

proof fn lemma_rl_zeros_agree(data: Seq<u8>, s1: RlgrState, s2: RlgrState)
    requires
        same_but_output(s1, s2),
    ensures
        rl_zeros(data, s1).0 == rl_zeros(data, s2).0,
        same_but_output(rl_zeros(data, s1).1, rl_zeros(data, s2).1),
        rl_zeros(data, s1).1.2.len() == s1.2.len(),
    decreases data.len() * 8 - s1.0,
{
    if !(s1.0 < 0 || s1.0 >= data.len() * 8) && bit_at(data, s1.0) != 1 {
        let n = pow2((s1.3 / 8) as nat);
        lemma_pow2_le(0, (s1.3 / 8) as nat);
        lemma_zeros_agree(s1.2, s2.2, s1.1, n);
        let kp = if s1.3 + UP_GR > KP_MAX { KP_MAX as int } else { s1.3 + UP_GR };
        lemma_rl_zeros_agree(
            data,
            (s1.0 + 1, zeros_end(s1.1, n, s1.2.len() as int), put_zeros(s1.2, s1.1, n), kp, s1.4),
            (s2.0 + 1, zeros_end(s2.1, n, s2.2.len() as int), put_zeros(s2.2, s2.1, n), kp, s2.4),
        );
    }
}

proof fn lemma_step_agree(mode: EntropyAlgorithm, data: Seq<u8>, s1: RlgrState, s2: RlgrState)
    requires
        same_but_output(s1, s2),
    ensures
        match (rlgr_step(mode, data, s1), rlgr_step(mode, data, s2)) {
            (RlgrStep::Stop(a), RlgrStep::Stop(b)) => same_but_output(a, b),
            (RlgrStep::Fail, RlgrStep::Fail) => true,
            (RlgrStep::Next(a), RlgrStep::Next(b)) => same_but_output(a, b),
            _ => false,
        },
{
    let len = s1.2.len() as int;
    if s1.3 / 8 != 0 {
        lemma_rl_zeros_agree(data, s1, s2);
        let (e1, t1) = rl_zeros(data, s1);
        let (e2, t2) = rl_zeros(data, s2);
        let k = t1.3 / 8;
        if !(e1 || t1.0 + k > data.len() * 8) {
            let rest = bits_value(data, t1.0, k as nat);
            lemma_bits_value_nonneg(data, t1.0, k as nat);
            lemma_zeros_agree(t1.2, t2.2, t1.1, rest);
            let at2 = zeros_end(t1.1, rest, len);
            let o1 = put_zeros(t1.2, t1.1, rest);
            let o2 = put_zeros(t2.2, t2.1, rest);
            if t1.0 + k < data.len() * 8 {
                match spec_gr(data, t1.0 + k + 1, t1.4) {
                    GrCode::Code { mag, pos, krp } => {
                        let v: i16 = if bit_at(data, t1.0 + k) == 1 { (-(mag + 1)) as i16 } else { (mag + 1) as i16 };
                        lemma_value_agree(o1, o2, at2, v);
                    },
                    _ => {},
                }
            }
        }
    } else {
        match spec_gr(data, s1.0, s1.4) {
            GrCode::Code { mag, pos, krp } => {
                lemma_value_agree(s1.2, s2.2, s1.1, 0);
                lemma_value_agree(s1.2, s2.2, s1.1, unfolded(mag));
                let width = bit_width(mag, 0);
                if pos + width <= data.len() * 8 {
                    let v1 = bits_value(data, pos, width);
                    let at1 = value_end(s1.1, len);
                    let a1 = put_value(s1.2, s1.1, unfolded(v1));
                    let b1 = put_value(s2.2, s2.1, unfolded(v1));
                    lemma_value_agree(s1.2, s2.2, s1.1, unfolded(v1));
                    lemma_value_agree(a1, b1, at1, unfolded(mag - v1));
                }
            },
            _ => {},
        }
    }
}

proof fn lemma_run_agree(mode: EntropyAlgorithm, data: Seq<u8>, s1: RlgrState, s2: RlgrState)
    requires
        same_but_output(s1, s2),
    ensures
        rlgr_run(mode, data, s1) == rlgr_run(mode, data, s2),
    decreases remaining(data, s1.0),
{
    if !(s1.1 < s1.2.len() && s1.0 < data.len() * 8) {
        assert(pad(s1.2, s1.1) =~= pad(s2.2, s2.1));
    } else {
        lemma_step_agree(mode, data, s1, s2);
        match (rlgr_step(mode, data, s1), rlgr_step(mode, data, s2)) {
            (RlgrStep::Stop(a), RlgrStep::Stop(b)) => {
                assert(pad(a.2, a.1) =~= pad(b.2, b.1));
            },
            (RlgrStep::Next(a), RlgrStep::Next(b)) => {
                if a.0 <= s1.0 {
                    assert(pad(a.2, a.1) =~= pad(b.2, b.1));
                } else {
                    lemma_run_agree(mode, data, a, b);
                }
            },
            _ => {},
        }
    }
}

/// What an RLGR stream decodes to does not depend on what the output buffer
/// held before, only on its length.
pub proof fn lemma_rlgr_ignores_buffer(mode: EntropyAlgorithm, data: Seq<u8>, a: Seq<i16>, b: Seq<i16>)
    requires
        a.len() == b.len(),
    ensures
        rlgr_decoded(mode, data, a) == rlgr_decoded(mode, data, b),
{
    lemma_run_agree(mode, data, (0, 0, a, 8, 8), (0, 0, b, 8, 8));
}

/// A reader of the bits of an entropy-coded component.
struct BitReader {
    pos: usize,
    total: usize,
}

impl BitReader {
    spec fn wf(&self, data: Seq<u8>) -> bool {
        self.pos <= self.total && self.total == data.len() * 8
    }

    fn read_bit(&mut self, data: &[u8]) -> (r: Option<u32>)
        requires
            old(self).wf(data@),
        ensures
            final(self).wf(data@),
            final(self).total == old(self).total,
            old(self).pos < old(self).total ==> r == Some(bit_at(data@, old(self).pos as int) as u32)
                && final(self).pos == old(self).pos + 1,
            old(self).pos >= old(self).total ==> r.is_none() && final(self).pos == old(self).pos,
    {
        if self.pos >= self.total {
            return None;
        }
        let byte = data[self.pos / 8] as u32;
        let shift = 7 - self.pos % 8;
        let d: u32 = if shift == 0 {
            1
        } else if shift == 1 {
            2
        } else if shift == 2 {
            4
        } else if shift == 3 {
            8
        } else if shift == 4 {
            16
        } else if shift == 5 {
            32
        } else if shift == 6 {
            64
        } else {
            128
        };
        proof {
            reveal_with_fuel(pow2, 8);
            assert(d == pow2(shift as nat));
        }
        self.pos = self.pos + 1;
        Some((byte / d) % 2)
    }

    /// Reads `n` bits as an unsigned number, most significant first.
    fn read_bits(&mut self, data: &[u8], n: u32) -> (r: Option<u32>)
        requires
            old(self).wf(data@),
            n <= 16,
        ensures
            final(self).wf(data@),
            final(self).total == old(self).total,
            final(self).pos >= old(self).pos,
            r.is_some() <==> old(self).pos + n <= old(self).total,
            r.is_some() ==> r.unwrap() == bits_value(data@, old(self).pos as int, n as nat)
                && r.unwrap() < pow2(n as nat) && final(self).pos == old(self).pos + n,
    {
        let mut v: u32 = 0;
        let mut i: u32 = 0;
        while i < n
            invariant
                self.wf(data@),
                self.total == old(self).total,
                self.pos == old(self).pos + i,
                i <= n <= 16,
                v < pow2(i as nat),
                v == bits_value(data@, old(self).pos as int, i as nat),
            decreases n - i,
        {
            let b = match self.read_bit(data) {
                Some(b) => b,
                None => return None,
            };
            proof {
                lemma_pow2_le(i as nat, 15);
                reveal_with_fuel(pow2, 16);
            }
            v = v * 2 + b;
            i += 1;
        }
        Some(v)
    }
}

/// Reads the Golomb-Rice code at the reader's position with parameter `krp`,
/// which it adapts.
fn gr_code(reader: &mut BitReader, data: &[u8], krp: &mut u32) -> (r: Result<Option<u32>, RfxError>)
    requires
        old(reader).wf(data@),
        *old(krp) <= KP_MAX,
    ensures
        final(reader).wf(data@),
        final(reader).total == old(reader).total,
        *final(krp) <= KP_MAX,
        final(reader).pos >= old(reader).pos,
        r matches Err(e) ==> e == RfxError::RlgrFailed,
        match spec_gr(data@, old(reader).pos as int, *old(krp) as int) {
            GrCode::End => r == Ok::<Option<u32>, RfxError>(None),
            GrCode::Fail => r.is_err(),
            GrCode::Code { mag, pos, krp: k } => r == Ok::<Option<u32>, RfxError>(Some(mag as u32))
                && final(reader).pos == pos && *final(krp) == k && 0 <= mag < 32768,
        },
{
    let ghost start = reader.pos as int;
    let kr = *krp / 8;
    // unary prefix of ones, closed by a zero
    let mut vk: u32 = 0;
    loop
        invariant_except_break
            reader.wf(data@),
            reader.total == old(reader).total,
            start == old(reader).pos,
            reader.pos == start + vk,
            *krp == *old(krp),
            *krp <= KP_MAX,
            vk <= MAX_UNARY,
            ones_run(data@, start) == vk + ones_run(data@, reader.pos as int),
        ensures
            reader.wf(data@),
            reader.total == old(reader).total,
            start == old(reader).pos,
            reader.pos == start + vk + 1,
            *krp == *old(krp),
            vk <= MAX_UNARY,
            ones_run(data@, start) == vk,
        decreases reader.total - reader.pos,
    {
        let ghost p = reader.pos as int;
        match reader.read_bit(data) {
            None => {
                assert(ones_run(data@, p) == 0);
                return Ok(None);
            },
            Some(b) => {
                if b == 0 {
                    assert(ones_run(data@, p) == 0);
                    break;
                }
                assert(ones_run(data@, p) == 1 + ones_run(data@, p + 1));
                proof {
                    lemma_ones_run_nonneg(data@, p + 1);
                }
                if vk == MAX_UNARY {
                    return Err(RfxError::RlgrFailed);
                }
                vk += 1;
            },
        }
    }
    let low = match reader.read_bits(data, kr) {
        None => return Ok(None),
        Some(v) => v,
    };
    let mut scale: u32 = 1;
    let mut j: u32 = 0;
    while j < kr
        invariant
            j <= kr <= 10,
            scale == pow2(j as nat),
        decreases kr - j,
    {
        proof {
            lemma_pow2_le(j as nat, 9);
            reveal_with_fuel(pow2, 10);
        }
        scale = scale * 2;
        j += 1;
    }
    proof {
        lemma_pow2_le(kr as nat, 10);
        reveal_with_fuel(pow2, 11);
    }
    assert(vk * scale + low < 32768) by (nonlinear_arith)
        requires
            vk <= 31,
            low < scale,
            scale <= 1024,
    ;
    let mag = vk * scale + low;
    if vk == 0 {
        *krp = if *krp >= 2 { *krp - 2 } else { 0 };
    } else if vk != 1 {
        *krp = if *krp + vk > KP_MAX { KP_MAX } else { *krp + vk };
    }
    Ok(Some(mag))
}

fn unfold(v: u32) -> (r: i16)
    requires
        v < 65536,
    ensures
        r == unfolded(v as int),
{
    if v % 2 == 1 {
        -(((v + 1) / 2) as i32) as i16
    } else {
        (v / 2) as i16
    }
}

/// Writes up to `n` zeros at `at`, as many as there is room for.
fn write_zeros(output: &mut Vec<i16>, at: usize, n: u32) -> (r: usize)
    requires
        at <= old(output)@.len(),
    ensures
        final(output)@ == put_zeros(old(output)@, at as int, n as int),
        r == zeros_end(at as int, n as int, old(output)@.len() as int),
{
    let len = output.len();
    let end = if (n as usize) <= len - at { at + n as usize } else { len };
    let mut i = at;
    while i < end
        invariant
            at <= i <= end <= len,
            output@.len() == len,
            len == old(output)@.len(),
            forall|j: int| 0 <= j < len ==> #[trigger] output@[j] == (if at <= j < i { 0 } else { old(output)@[j] }),
        decreases end - i,
    {
        output.set(i, 0);
        i += 1;
    }
    assert(output@ =~= put_zeros(old(output)@, at as int, n as int));
    end
}

/// Writes one value if there is room; returns the next position.
fn write_value(output: &mut Vec<i16>, at: usize, v: i16) -> (r: usize)
    requires
        at <= old(output)@.len(),
    ensures
        final(output)@ == put_value(old(output)@, at as int, v),
        r == value_end(at as int, old(output)@.len() as int),
{
    if at < output.len() {
        output.set(at, v);
        at + 1
    } else {
        at
    }
}

/// The zero runs of run-length mode.
fn rl_zero_run(reader: &mut BitReader, data: &[u8], output: &mut Vec<i16>, at: &mut usize, kp: &mut u32, krp: u32) -> (ended: bool)
    requires
        old(reader).wf(data@),
        *old(at) <= old(output)@.len(),
        *old(kp) <= KP_MAX,
    ensures
        final(reader).wf(data@),
        final(reader).total == old(reader).total,
        final(reader).pos >= old(reader).pos,
        *final(at) <= final(output)@.len(),
        final(output)@.len() == old(output)@.len(),
        *final(kp) <= KP_MAX,
        (ended, (final(reader).pos as int, *final(at) as int, final(output)@, *final(kp) as int, krp as int))
            == rl_zeros(data@, (old(reader).pos as int, *old(at) as int, old(output)@, *old(kp) as int, krp as int)),
{
    let ghost goal = rl_zeros(data@, (reader.pos as int, *at as int, output@, *kp as int, krp as int));
    loop
        invariant
            reader.wf(data@),
            reader.total == old(reader).total,
            reader.pos >= old(reader).pos,
            *at <= output@.len(),
            output@.len() == old(output)@.len(),
            *kp <= KP_MAX,
            goal == rl_zeros(data@, (reader.pos as int, *at as int, output@, *kp as int, krp as int)),
            goal == rl_zeros(data@, (old(reader).pos as int, *old(at) as int, old(output)@, *old(kp) as int, krp as int)),
        decreases reader.total - reader.pos,
    {
        let ghost p = reader.pos as int;
        let ghost cur: RlgrState = (p, *at as int, output@, *kp as int, krp as int);
        match reader.read_bit(data) {
            None => {
                assert(rl_zeros(data@, cur) == (true, cur));
                return true;
            },
            Some(b) => {
                if b == 1 {
                    assert(rl_zeros(data@, cur) == (false, (p + 1, cur.1, cur.2, cur.3, cur.4)));
                    return false;
                }
                let k = *kp / 8;
                let mut run: u32 = 1;
                let mut j: u32 = 0;
                while j < k
                    invariant
                        j <= k <= 10,
                        run == pow2(j as nat),
                    decreases k - j,
                {
                    proof {
                        lemma_pow2_le(j as nat, 9);
                        reveal_with_fuel(pow2, 10);
                    }
                    run = run * 2;
                    j += 1;
                }
                *at = write_zeros(output, *at, run);
                *kp = if *kp + UP_GR > KP_MAX { KP_MAX } else { *kp + UP_GR };
                assert(rl_zeros(data@, cur) == rl_zeros(data@, (reader.pos as int, *at as int, output@, *kp as int, krp as int)));
            },
        }
    }
}

/// One step of the decoder; `Ok(true)` to go on, `Ok(false)` when the stream ended.
fn rlgr_step_exec(
    mode: EntropyAlgorithm,
    reader: &mut BitReader,
    data: &[u8],
    output: &mut Vec<i16>,
    at: &mut usize,
    kp: &mut u32,
    krp: &mut u32,
) -> (r: Result<bool, RfxError>)
    requires
        old(reader).wf(data@),
        *old(at) <= old(output)@.len(),
        *old(kp) <= KP_MAX,
        *old(krp) <= KP_MAX,
    ensures
        final(reader).wf(data@),
        final(reader).total == old(reader).total,
        final(reader).pos >= old(reader).pos,
        *final(at) <= final(output)@.len(),
        final(output)@.len() == old(output)@.len(),
        *final(kp) <= KP_MAX,
        *final(krp) <= KP_MAX,
        r matches Err(e) ==> e == RfxError::RlgrFailed,
        match rlgr_step(mode, data@, (old(reader).pos as int, *old(at) as int, old(output)@, *old(kp) as int, *old(krp) as int)) {
            RlgrStep::Fail => r.is_err(),
            RlgrStep::Stop(s) => r == Ok::<bool, RfxError>(false) && final(output)@ == s.2 && *final(at) == s.1,
            RlgrStep::Next(s) => r == Ok::<bool, RfxError>(true) && s == (final(reader).pos as int, *final(at) as int, final(output)@, *final(kp) as int, *final(krp) as int),
        },
{
    let len = output.len();
    if *kp / 8 != 0 {
        let ended = rl_zero_run(reader, data, output, at, kp, *krp);
        if ended {
            return Ok(false);
        }
        let k = *kp / 8;
        let rest = match reader.read_bits(data, k) {
            None => return Ok(false),
            Some(v) => v,
        };
        *at = write_zeros(output, *at, rest);
        let sign = match reader.read_bit(data) {
            None => return Ok(false),
            Some(b) => b,
        };
        let code = match gr_code(reader, data, krp)? {
            None => return Ok(false),
            Some(c) => c,
        };
        if code >= 32767 {
            return Err(RfxError::RlgrFailed);
        }
        let mag = (code + 1) as i32;
        let v = if sign == 1 { (-mag) as i16 } else { mag as i16 };
        *at = write_value(output, *at, v);
        *kp = if *kp >= DN_GR { *kp - DN_GR } else { 0 };
        Ok(true)
    } else {
        let ghost st_at = *at as int;
        let ghost st_out = output@;
        let mag = match gr_code(reader, data, krp)? {
            None => return Ok(false),
            Some(c) => c,
        };
        match mode {
            EntropyAlgorithm::Rlgr1 => {
                if mag == 0 {
                    *at = write_value(output, *at, 0);
                    *kp = if *kp + UQ_GR > KP_MAX { KP_MAX } else { *kp + UQ_GR };
                } else {
                    *at = write_value(output, *at, unfold(mag));
                    *kp = if *kp >= DQ_GR { *kp - DQ_GR } else { 0 };
                }
                Ok(true)
            },
            EntropyAlgorithm::Rlgr3 => {
                // the code holds two values; the first takes as many bits as the code needs
                let mut width: u32 = 0;
                let mut bound: u32 = 1;
                while bound <= mag && width < 16
                    invariant
                        width <= 16,
                        bound == pow2(width as nat),
                        bit_width(mag as int, 0) == bit_width(mag as int, width as nat),
                    decreases 16 - width,
                {
                    proof {
                        lemma_pow2_le(width as nat, 15);
                        reveal_with_fuel(pow2, 16);
                    }
                    bound = bound * 2;
                    width += 1;
                }
                if bound <= mag {
                    return Err(RfxError::RlgrFailed);
                }
                let v1 = match reader.read_bits(data, width) {
                    None => return Ok(false),
                    Some(v) => v,
                };
                if v1 > mag {
                    return Err(RfxError::RlgrFailed);
                }
                let v2 = mag - v1;
                if v1 != 0 && v2 != 0 {
                    *kp = if *kp >= 2 * DQ_GR { *kp - 2 * DQ_GR } else { 0 };
                } else if v1 == 0 && v2 == 0 {
                    *kp = if *kp + 2 * UQ_GR > KP_MAX { KP_MAX } else { *kp + 2 * UQ_GR };
                }
                *at = write_value(output, *at, unfold(v1));
                *at = write_value(output, *at, unfold(v2));
                Ok(true)
            },
        }
    }
}

/// Decodes an RLGR1 or RLGR3 stream into `output`, filling it whole. When the
/// stream ends first, the remaining coefficients are zero.
pub fn rlgr_decode(mode: EntropyAlgorithm, data: &[u8], output: &mut Vec<i16>) -> (r: Result<(), RfxError>)
    requires
        data@.len() * 8 < usize::MAX,
    ensures
        final(output)@.len() == old(output)@.len(),
        r.is_ok() <==> rlgr_decoded(mode, data@, old(output)@) is Some,
        r matches Err(e) ==> e == RfxError::RlgrFailed,
        r.is_ok() ==> final(output)@ == rlgr_decoded(mode, data@, old(output)@).unwrap(),
        data@.len() == 0 ==> r.is_ok() && forall|i: int| 0 <= i < final(output)@.len() ==> #[trigger] final(output)@[i] == 0,
{
    let len = output.len();
    let mut reader = BitReader { pos: 0, total: data.len() * 8 };
    let mut kp: u32 = 8;
    let mut krp: u32 = 8;
    let mut at: usize = 0;
    let ghost goal = rlgr_decoded(mode, data@, old(output)@);
    loop
        invariant
            reader.wf(data@),
            output@.len() == len,
            len == old(output)@.len(),
            at <= len,
            kp <= KP_MAX,
            krp <= KP_MAX,
            goal == rlgr_run(mode, data@, (reader.pos as int, at as int, output@, kp as int, krp as int)),
            goal == rlgr_decoded(mode, data@, old(output)@),
        decreases reader.total - reader.pos,
    {
        if !(at < len && reader.pos < reader.total) {
            // the output is full or the stream is consumed
            assert(goal == Some(pad(output@, at as int)));
            fill_rest(output, at);
            return Ok(());
        }
        let start = reader.pos;
        let go_on = rlgr_step_exec(mode, &mut reader, data, output, &mut at, &mut kp, &mut krp)?;
        if !go_on || reader.pos == start {
            // the stream ended: the remaining coefficients are zero
            assert(goal == Some(pad(output@, at as int)));
            fill_rest(output, at);
            return Ok(());
        }
    }
}

/// Sets every coefficient from `at` on to zero.
fn fill_rest(output: &mut Vec<i16>, at: usize)
    requires
        at <= old(output)@.len(),
    ensures
        final(output)@ == pad(old(output)@, at as int),
{
    let len = output.len();
    let mut i = at;
    while i < len
        invariant
            at <= i <= len,
            output@.len() == len,
            len == old(output)@.len(),
            forall|j: int| 0 <= j < len ==> #[trigger] output@[j] == (if at <= j < i { 0 } else { old(output)@[j] }),
        decreases len - i,
    {
        output.set(i, 0);
        i += 1;
    }
    assert(output@ =~= pad(old(output)@, at as int));
}

} // verus!
