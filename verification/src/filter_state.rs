//! The stateful fixed-point polyphase synthesis filter bank (4-band and
//! 8-band variants): turns reconstructed sub-band samples into PCM samples,
//! carrying a circular per-channel history across calls.
//!
//! Each call combines the input samples into a reduced set of intermediate
//! values through cosine-coefficient butterflies (the cosine modulation
//! matrix is reflective, so half the outputs are sign flips or copies of
//! the other half and are never stored), shifts them down 15 bits into the
//! history slot of the current step, convolves ten history taps against the
//! prototype filter, and saturates the shifted sums to 16-bit samples.

use vstd::prelude::*;

use crate::helper::{saturating_i16_from_i64, spec_saturating_i16};
use crate::sbc::{to_ints, FILTER_ORDER};
use crate::table::{
    M_0_195, M_0_382, M_0_555, M_0_707, M_0_831, M_0_923, M_0_980, M_1_000, M_PROTO_4, M_PROTO_8,
};

verus! {

/// Arithmetic right shift of a value by 15 bits, the fixed-point
/// renormalization step of the filter bank.
pub open spec fn sar15(x: int) -> int {
    ((x as i64) >> 15) as int
}

/// The abstract state of a filter bank: its configuration, the flat history
/// (channel-major, then reduced index, then step slot) and the shared step
/// cursor.
pub struct FilterModel {
    pub channels: int,
    pub subbands: int,
    pub hist: Seq<int>,
    pub step: int,
}

/// The flat history slot of channel `ch`, reduced index `k`, step `i`.
pub open spec fn hidx(subbands: int, ch: int, k: int, i: int) -> int {
    (ch * subbands + k) * (FILTER_ORDER as int) + i
}

/// The sub-band samples of channel `ch` within a flat channel-major matrix.
pub open spec fn chan_samples(s: Seq<int>, subbands: int, ch: int) -> Seq<int> {
    s.subrange(ch * subbands, ch * subbands + subbands)
}

/// The butterfly value stored for reduced index `k` from one channel's
/// sub-band samples, before the 15-bit shift: fixed sum/difference
/// combinations scaled by the cosine coefficients.
pub open spec fn spec_butterfly(subbands: int, s: Seq<int>, k: int) -> int
    recommends
        subbands == 4 || subbands == 8,
        s.len() == subbands,
        0 <= k < subbands,
{
    if subbands == 4 {
        let a03 = s[0] + s[3];
        let s03 = s[0] - s[3];
        let a12 = s[1] + s[2];
        let s12 = s[1] - s[2];
        if k == 0 {
            (a03 - a12) * (M_0_707 as int)
        } else if k == 1 {
            s03 * (M_0_382 as int) - s12 * (M_0_923 as int)
        } else if k == 2 {
            -(s03 * (M_0_923 as int) + s12 * (M_0_382 as int))
        } else {
            -((a03 + a12) * (M_1_000 as int))
        }
    } else {
        let a07 = s[0] + s[7];
        let a16 = s[1] + s[6];
        let a25 = s[2] + s[5];
        let a34 = s[3] + s[4];
        let s07 = s[0] - s[7];
        let s16 = s[1] - s[6];
        let s25 = s[2] - s[5];
        let s34 = s[3] - s[4];
        if k == 0 {
            (a07 - a16 - a25 + a34) * (M_0_707 as int)
        } else if k == 1 {
            s07 * (M_0_555 as int) - s16 * (M_0_980 as int) + s25 * (M_0_195 as int) + s34 * (
            M_0_831 as int)
        } else if k == 2 {
            (a07 - a34) * (M_0_382 as int) + (a25 - a16) * (M_0_923 as int)
        } else if k == 3 {
            s07 * (M_0_195 as int) - s16 * (M_0_555 as int) + s25 * (M_0_831 as int) - s34 * (
            M_0_980 as int)
        } else if k == 4 {
            -s07 * (M_0_831 as int) + s16 * (M_0_195 as int) + s25 * (M_0_980 as int) + s34 * (
            M_0_555 as int)
        } else if k == 5 {
            (a34 - a07) * (M_0_923 as int) + (a25 - a16) * (M_0_382 as int)
        } else if k == 6 {
            -s07 * (M_0_980 as int) - s16 * (M_0_831 as int) - s25 * (M_0_555 as int) - s34 * (
            M_0_195 as int)
        } else {
            -(a07 + a16 + a25 + a34) * (M_1_000 as int)
        }
    }
}

/// Which stored intermediate a convolution term reads: whether the term is
/// zero, whether its sign is flipped, and the reduced index it reads; the
/// mapping differs between even and odd tap positions.
pub open spec fn spec_term_source(subbands: int, even: bool, sb: int) -> (bool, bool, int)
    recommends
        subbands == 4 || subbands == 8,
        0 <= sb < subbands,
{
    if subbands == 4 {
        if even {
            if sb == 0 {
                (false, false, 0)
            } else if sb == 1 {
                (false, false, 1)
            } else if sb == 2 {
                (true, false, 0)
            } else {
                (false, true, 1)
            }
        } else {
            if sb == 0 {
                (false, true, 0)
            } else if sb == 1 {
                (false, false, 2)
            } else if sb == 2 {
                (false, false, 3)
            } else {
                (false, false, 2)
            }
        }
    } else {
        if even {
            if sb == 0 {
                (false, false, 0)
            } else if sb == 1 {
                (false, false, 1)
            } else if sb == 2 {
                (false, false, 2)
            } else if sb == 3 {
                (false, false, 3)
            } else if sb == 4 {
                (true, false, 0)
            } else if sb == 5 {
                (false, true, 3)
            } else if sb == 6 {
                (false, true, 2)
            } else {
                (false, true, 1)
            }
        } else {
            if sb == 0 {
                (false, true, 0)
            } else if sb == 1 {
                (false, false, 4)
            } else if sb == 2 {
                (false, false, 5)
            } else if sb == 3 {
                (false, false, 6)
            } else if sb == 4 {
                (false, false, 7)
            } else if sb == 5 {
                (false, false, 6)
            } else if sb == 6 {
                (false, false, 5)
            } else {
                (false, false, 4)
            }
        }
    }
}

/// The prototype filter coefficient of tap `f`, sub-band `sb`.
pub open spec fn spec_proto(subbands: int, f: int, sb: int) -> int
    recommends
        subbands == 4 || subbands == 8,
        0 <= f < FILTER_ORDER,
        0 <= sb < subbands,
{
    if subbands == 4 {
        M_PROTO_4[f][sb] as int
    } else {
        M_PROTO_8[f][sb] as int
    }
}

/// One convolution term: the stored intermediate selected for tap `f` and
/// sub-band `sb`, read at history step `i`, scaled by the prototype
/// coefficient, with the mapping's sign.
pub open spec fn spec_conv_term(
    subbands: int,
    hist: Seq<int>,
    ch: int,
    f: int,
    i: int,
    sb: int,
) -> int {
    let src = spec_term_source(subbands, f % 2 == 0, sb);
    if src.0 {
        0
    } else if src.1 {
        -(hist[hidx(subbands, ch, src.2, i)] * spec_proto(subbands, f, sb))
    } else {
        hist[hidx(subbands, ch, src.2, i)] * spec_proto(subbands, f, sb)
    }
}

/// The convolution of the first `taps` taps for channel `ch`, sub-band
/// `sb`, walking the circular history backward from `step`.
pub open spec fn spec_conv_sum(
    subbands: int,
    hist: Seq<int>,
    ch: int,
    step: int,
    sb: int,
    taps: nat,
) -> int
    decreases taps,
{
    if taps == 0 {
        0
    } else {
        let f = taps - 1;
        spec_conv_sum(subbands, hist, ch, step, sb, (taps - 1) as nat) + spec_conv_term(
            subbands,
            hist,
            ch,
            f,
            (step - f) % (FILTER_ORDER as int),
            sb,
        )
    }
}

/// The history after one filter call: the slots of the current step take
/// the shifted butterfly values of their channel, everything else is kept.
pub open spec fn spec_filter_hist(v: FilterModel, s: Seq<int>) -> Seq<int> {
    Seq::new(
        v.hist.len(),
        |n: int|
            if n % (FILTER_ORDER as int) == v.step {
                let q = n / (FILTER_ORDER as int);
                sar15(
                    spec_butterfly(
                        v.subbands,
                        chan_samples(s, v.subbands, q / v.subbands),
                        q % v.subbands,
                    ),
                )
            } else {
                v.hist[n]
            },
    )
}

/// The filter state after one call: new history, step cursor advanced by
/// one and wrapped.
pub open spec fn spec_filter_step(v: FilterModel, s: Seq<int>) -> FilterModel {
    FilterModel {
        channels: v.channels,
        subbands: v.subbands,
        hist: spec_filter_hist(v, s),
        step: (v.step + 1) % (FILTER_ORDER as int),
    }
}

/// The PCM samples one call produces: for every channel and sub-band, the
/// ten-tap convolution over the new history, shifted down 15 bits and
/// saturated to 16 bits.
pub open spec fn spec_filter_output(v: FilterModel, s: Seq<int>) -> Seq<i16> {
    let hist = spec_filter_hist(v, s);
    Seq::new(
        (v.channels * v.subbands) as nat,
        |n: int|
            spec_saturating_i16(
                sar15(
                    spec_conv_sum(
                        v.subbands,
                        hist,
                        n / v.subbands,
                        v.step,
                        n % v.subbands,
                        FILTER_ORDER as nat,
                    ),
                ),
            ),
    )
}

/// An input sample the filter accepts without overflowing its fixed-point
/// arithmetic; reconstructed samples lie well within this range.
pub open spec fn spec_sample_in_range(x: int) -> bool {
    -0x2000_0000 <= x <= 0x2000_0000
}

/// The persistent synthesis filter state: one circular history of
/// `FILTER_ORDER` accumulators per channel and reduced sub-band index, and
/// the shared step cursor.
pub struct FilterState {
    channels: usize,
    subbands: usize,
    history: Vec<i32>,
    step: usize,
}

impl View for FilterState {
    type V = FilterModel;

    closed spec fn view(&self) -> FilterModel {
        FilterModel {
            channels: self.channels as int,
            subbands: self.subbands as int,
            hist: to_ints(self.history@),
            step: self.step as int,
        }
    }
}

impl FilterState {
    /// A filter state is for one or two channels of four or eight
    /// sub-bands, its history is fully allocated, and its cursor in range.
    pub open spec fn wf(self) -> bool {
        (self@.channels == 1 || self@.channels == 2) && (self@.subbands == 4 || self@.subbands
            == 8) && self@.hist.len() == self@.channels * self@.subbands * (FILTER_ORDER as int)
            && 0 <= self@.step < FILTER_ORDER as int
    }

    /// A fresh filter state: all-zero history, cursor at zero.
    pub fn new(channels: usize, subbands: usize) -> (result: FilterState)
        requires
            channels == 1 || channels == 2,
            subbands == 4 || subbands == 8,
        ensures
            result.wf(),
            result@.channels == channels,
            result@.subbands == subbands,
            result@.step == 0,
            forall|n: int| 0 <= n < result@.hist.len() ==> result@.hist[n] == 0,
    {
        proof {
            assert(channels * subbands * FILTER_ORDER <= 160) by (nonlinear_arith)
                requires
                    channels <= 2,
                    subbands <= 8,
            ;
        }
        let len = channels * subbands * FILTER_ORDER;
        let mut history: Vec<i32> = Vec::new();
        let mut i: usize = 0;
        while i < len
            invariant
                i <= len,
                history@.len() == i,
                forall|n: int| 0 <= n < i ==> history@[n] == 0,
            decreases len - i,
        {
            history.push(0);
            i = i + 1;
        }
        FilterState { channels, subbands, history, step: 0 }
    }

    /// The number of channels this state serves.
    pub fn channels(&self) -> (result: usize)
        ensures
            result == self@.channels,
    {
        self.channels
    }

    /// The number of sub-bands this state serves.
    pub fn subbands(&self) -> (result: usize)
        ensures
            result == self@.subbands,
    {
        self.subbands
    }
}


/// A history slot number decomposes uniquely into its reduced index and step.
proof fn lemma_slot_decomp(q: int, i: int)
    requires
        q >= 0,
        0 <= i < FILTER_ORDER as int,
    ensures
        (q * (FILTER_ORDER as int) + i) / (FILTER_ORDER as int) == q,
        (q * (FILTER_ORDER as int) + i) % (FILTER_ORDER as int) == i,
{
    vstd::arithmetic::div_mod::lemma_fundamental_div_mod_converse(
        q * (FILTER_ORDER as int) + i,
        FILTER_ORDER as int,
        q,
        i,
    );
}

proof fn lemma_sar15_bounded(x: i64)
    by (bit_vector)
    requires
        -0x2000_0000_0000i64 <= x <= 0x2000_0000_0000i64,
    ensures
        -0x4000_0000i64 <= (x >> 15) <= 0x4000_0000i64,
{
}

/// The prototype coefficients lie well within 17 bits.
proof fn lemma_proto_range(subbands: int, f: int, sb: int)
    requires
        subbands == 4 || subbands == 8,
        0 <= f < FILTER_ORDER,
        0 <= sb < subbands,
    ensures
        -0x10000 <= spec_proto(subbands, f, sb) <= 0x10000,
{
}

/// Multiply an accumulator bounded by `b` by a small nonnegative
/// fixed-point coefficient.
fn scale(a: i64, m: i32, Ghost(b): Ghost<int>) -> (result: i64)
    requires
        -b <= a <= b,
        0 <= b <= 0x1_0000_0000,
        0 <= m <= 0x2000,
    ensures
        result == a * m,
        -(b * 0x2000) <= result <= b * 0x2000,
{
    proof {
        assert(-(b * 0x2000) <= a * m <= b * 0x2000 && -0x2000_0000_0000 <= a * m
            <= 0x2000_0000_0000) by (nonlinear_arith)
            requires
                -b <= a <= b,
                0 <= b <= 0x1_0000_0000,
                0 <= m <= 0x2000,
        ;
    }
    a * (m as i64)
}

impl FilterState {
    /// Combine one channel's sub-band samples into the reduced intermediate
    /// values and store them, shifted down 15 bits, into the history slots
    /// of the current step.
    #[verifier::rlimit(100)]
    #[verifier::spinoff_prover]
    fn store_butterfly(&mut self, ch: usize, s: &Vec<i32>)
        requires
            old(self).wf(),
            ch < old(self)@.channels,
            s@.len() == old(self)@.channels * old(self)@.subbands,
            forall|i: int| 0 <= i < s@.len() ==> spec_sample_in_range(#[trigger] s@[i] as int),
        ensures
            final(self).wf(),
            final(self)@.channels == old(self)@.channels,
            final(self)@.subbands == old(self)@.subbands,
            final(self)@.step == old(self)@.step,
            final(self)@.hist.len() == old(self)@.hist.len(),
            forall|k: int|
                0 <= k < old(self)@.subbands ==> final(self)@.hist[hidx(
                    old(self)@.subbands,
                    ch as int,
                    k,
                    old(self)@.step,
                )] == sar15(
                    spec_butterfly(
                        old(self)@.subbands,
                        chan_samples(to_ints(s@), old(self)@.subbands, ch as int),
                        k,
                    ),
                ),
            forall|n: int|
                0 <= n < old(self)@.hist.len() && !(n % (FILTER_ORDER as int) == old(self)@.step
                    && ch * old(self)@.subbands <= n / (FILTER_ORDER as int) < (ch + 1) * old(
                    self,
                )@.subbands) ==> final(self)@.hist[n] == old(self)@.hist[n],
    {
        if self.subbands == 4 {
            self.store_butterfly4(ch, s);
        } else {
            self.store_butterfly8(ch, s);
        }
    }

    /// The 4-band butterfly and store phase of one channel.
    #[verifier::rlimit(100)]
    #[verifier::spinoff_prover]
    fn store_butterfly4(&mut self, ch: usize, s: &Vec<i32>)
        requires
            old(self)@.subbands == 4,
            old(self).wf(),
            ch < old(self)@.channels,
            s@.len() == old(self)@.channels * old(self)@.subbands,
            forall|i: int| 0 <= i < s@.len() ==> spec_sample_in_range(#[trigger] s@[i] as int),
        ensures
            final(self).wf(),
            final(self)@.channels == old(self)@.channels,
            final(self)@.subbands == old(self)@.subbands,
            final(self)@.step == old(self)@.step,
            final(self)@.hist.len() == old(self)@.hist.len(),
            forall|k: int|
                0 <= k < old(self)@.subbands ==> final(self)@.hist[hidx(
                    old(self)@.subbands,
                    ch as int,
                    k,
                    old(self)@.step,
                )] == sar15(
                    spec_butterfly(
                        old(self)@.subbands,
                        chan_samples(to_ints(s@), old(self)@.subbands, ch as int),
                        k,
                    ),
                ),
            forall|n: int|
                0 <= n < old(self)@.hist.len() && !(n % (FILTER_ORDER as int) == old(self)@.step
                    && ch * old(self)@.subbands <= n / (FILTER_ORDER as int) < (ch + 1) * old(
                    self,
                )@.subbands) ==> final(self)@.hist[n] == old(self)@.hist[n],
    {
        let ghost gs = chan_samples(to_ints(s@), self@.subbands, ch as int);
        let subbands = self.subbands;
        let step = self.step;
        proof {
            assert(ch * subbands + subbands <= 16) by (nonlinear_arith)
                requires
                    ch < 2,
                    subbands <= 8,
            ;
        }
        let base = ch * subbands;
        proof {
            assert((base + subbands) * (FILTER_ORDER as int) <= self@.hist.len()) by (
            nonlinear_arith)
                requires
                    base == ch * subbands,
                    ch + 1 <= self@.channels,
                    self@.hist.len() == self@.channels * subbands * (FILTER_ORDER as int),
                    self@.subbands == subbands,
                    subbands >= 0,
                    (FILTER_ORDER as int) >= 0,
            ;
            assert(base + subbands <= s@.len()) by (nonlinear_arith)
                requires
                    base == ch * subbands,
                    ch + 1 <= self@.channels,
                    s@.len() == self@.channels * subbands,
                    self@.subbands == subbands,
                    subbands >= 0,
            ;
        }
            let s0 = s[base] as i64;
            let s1 = s[base + 1] as i64;
            let s2 = s[base + 2] as i64;
            let s3 = s[base + 3] as i64;
            proof {
                assert(gs[0] == s@[base as int] && gs[1] == s@[base + 1] && gs[2] == s@[base + 2]
                    && gs[3] == s@[base + 3]);
            }
            let a03 = s0 + s3;
            let s03 = s0 - s3;
            let a12 = s1 + s2;
            let s12 = s1 - s2;
            let v0 = scale(a03 - a12, M_0_707, Ghost(0x1_0000_0000));
            let v1 = scale(s03, M_0_382, Ghost(0x4000_0000)) - scale(
                s12,
                M_0_923,
                Ghost(0x4000_0000),
            );
            let v2 = -(scale(s03, M_0_923, Ghost(0x4000_0000)) + scale(
                s12,
                M_0_382,
                Ghost(0x4000_0000),
            ));
            let v3 = -(scale(a03 + a12, M_1_000, Ghost(0x1_0000_0000)));
            proof {
                lemma_sar15_bounded(v0);
                lemma_sar15_bounded(v1);
                lemma_sar15_bounded(v2);
                lemma_sar15_bounded(v3);
            }
            self.set_hist(base, step, (v0 >> 15) as i32);
            self.set_hist(base + 1, step, (v1 >> 15) as i32);
            self.set_hist(base + 2, step, (v2 >> 15) as i32);
            self.set_hist(base + 3, step, (v3 >> 15) as i32);
        proof {
            assert((ch + 1) * subbands == base + subbands) by (nonlinear_arith)
                requires
                    base == ch * subbands,
            ;
            lemma_slot_decomp(base as int, step as int);
            lemma_slot_decomp(base + 1, step as int);
            lemma_slot_decomp(base + 2, step as int);
            lemma_slot_decomp(base + 3, step as int);
            lemma_slot_decomp(base + 4, step as int);
            lemma_slot_decomp(base + 5, step as int);
            lemma_slot_decomp(base + 6, step as int);
            lemma_slot_decomp(base + 7, step as int);
        }
    }

    /// The 8-band butterfly and store phase of one channel.
    #[verifier::rlimit(100)]
    #[verifier::spinoff_prover]
    fn store_butterfly8(&mut self, ch: usize, s: &Vec<i32>)
        requires
            old(self)@.subbands == 8,
            old(self).wf(),
            ch < old(self)@.channels,
            s@.len() == old(self)@.channels * old(self)@.subbands,
            forall|i: int| 0 <= i < s@.len() ==> spec_sample_in_range(#[trigger] s@[i] as int),
        ensures
            final(self).wf(),
            final(self)@.channels == old(self)@.channels,
            final(self)@.subbands == old(self)@.subbands,
            final(self)@.step == old(self)@.step,
            final(self)@.hist.len() == old(self)@.hist.len(),
            forall|k: int|
                0 <= k < old(self)@.subbands ==> final(self)@.hist[hidx(
                    old(self)@.subbands,
                    ch as int,
                    k,
                    old(self)@.step,
                )] == sar15(
                    spec_butterfly(
                        old(self)@.subbands,
                        chan_samples(to_ints(s@), old(self)@.subbands, ch as int),
                        k,
                    ),
                ),
            forall|n: int|
                0 <= n < old(self)@.hist.len() && !(n % (FILTER_ORDER as int) == old(self)@.step
                    && ch * old(self)@.subbands <= n / (FILTER_ORDER as int) < (ch + 1) * old(
                    self,
                )@.subbands) ==> final(self)@.hist[n] == old(self)@.hist[n],
    {
        let ghost gs = chan_samples(to_ints(s@), self@.subbands, ch as int);
        let subbands = self.subbands;
        let step = self.step;
        proof {
            assert(ch * subbands + subbands <= 16) by (nonlinear_arith)
                requires
                    ch < 2,
                    subbands <= 8,
            ;
        }
        let base = ch * subbands;
        proof {
            assert((base + subbands) * (FILTER_ORDER as int) <= self@.hist.len()) by (
            nonlinear_arith)
                requires
                    base == ch * subbands,
                    ch + 1 <= self@.channels,
                    self@.hist.len() == self@.channels * subbands * (FILTER_ORDER as int),
                    self@.subbands == subbands,
                    subbands >= 0,
                    (FILTER_ORDER as int) >= 0,
            ;
            assert(base + subbands <= s@.len()) by (nonlinear_arith)
                requires
                    base == ch * subbands,
                    ch + 1 <= self@.channels,
                    s@.len() == self@.channels * subbands,
                    self@.subbands == subbands,
                    subbands >= 0,
            ;
        }
            let s0 = s[base] as i64;
            let s1 = s[base + 1] as i64;
            let s2 = s[base + 2] as i64;
            let s3 = s[base + 3] as i64;
            let s4 = s[base + 4] as i64;
            let s5 = s[base + 5] as i64;
            let s6 = s[base + 6] as i64;
            let s7 = s[base + 7] as i64;
            proof {
                assert(gs[0] == s@[base as int] && gs[1] == s@[base + 1] && gs[2] == s@[base + 2]
                    && gs[3] == s@[base + 3] && gs[4] == s@[base + 4] && gs[5] == s@[base + 5]
                    && gs[6] == s@[base + 6] && gs[7] == s@[base + 7]);
            }
            let a07 = s0 + s7;
            let a16 = s1 + s6;
            let a25 = s2 + s5;
            let a34 = s3 + s4;
            let s07 = s0 - s7;
            let s16 = s1 - s6;
            let s25 = s2 - s5;
            let s34 = s3 - s4;
            let v0 = scale(a07 - a16 - a25 + a34, M_0_707, Ghost(0x1_0000_0000));
            let v1 = scale(s07, M_0_555, Ghost(0x4000_0000)) - scale(
                s16,
                M_0_980,
                Ghost(0x4000_0000),
            ) + scale(s25, M_0_195, Ghost(0x4000_0000)) + scale(s34, M_0_831, Ghost(0x4000_0000));
            let v2 = scale(a07 - a34, M_0_382, Ghost(0x8000_0000)) + scale(
                a25 - a16,
                M_0_923,
                Ghost(0x8000_0000),
            );
            let v3 = scale(s07, M_0_195, Ghost(0x4000_0000)) - scale(
                s16,
                M_0_555,
                Ghost(0x4000_0000),
            ) + scale(s25, M_0_831, Ghost(0x4000_0000)) - scale(s34, M_0_980, Ghost(0x4000_0000));
            let v4 = scale(-s07, M_0_831, Ghost(0x4000_0000)) + scale(
                s16,
                M_0_195,
                Ghost(0x4000_0000),
            ) + scale(s25, M_0_980, Ghost(0x4000_0000)) + scale(s34, M_0_555, Ghost(0x4000_0000));
            let v5 = scale(a34 - a07, M_0_923, Ghost(0x8000_0000)) + scale(
                a25 - a16,
                M_0_382,
                Ghost(0x8000_0000),
            );
            let v6 = scale(-s07, M_0_980, Ghost(0x4000_0000)) - scale(
                s16,
                M_0_831,
                Ghost(0x4000_0000),
            ) - scale(s25, M_0_555, Ghost(0x4000_0000)) - scale(s34, M_0_195, Ghost(0x4000_0000));
            let v7 = -(scale(a07 + a16 + a25 + a34, M_1_000, Ghost(0x1_0000_0000)));
            proof {
                lemma_sar15_bounded(v0);
                lemma_sar15_bounded(v1);
                lemma_sar15_bounded(v2);
                lemma_sar15_bounded(v3);
                lemma_sar15_bounded(v4);
                lemma_sar15_bounded(v5);
                lemma_sar15_bounded(v6);
                lemma_sar15_bounded(v7);
            }
            self.set_hist(base, step, (v0 >> 15) as i32);
            self.set_hist(base + 1, step, (v1 >> 15) as i32);
            self.set_hist(base + 2, step, (v2 >> 15) as i32);
            self.set_hist(base + 3, step, (v3 >> 15) as i32);
            self.set_hist(base + 4, step, (v4 >> 15) as i32);
            self.set_hist(base + 5, step, (v5 >> 15) as i32);
            self.set_hist(base + 6, step, (v6 >> 15) as i32);
            self.set_hist(base + 7, step, (v7 >> 15) as i32);
        proof {
            assert((ch + 1) * subbands == base + subbands) by (nonlinear_arith)
                requires
                    base == ch * subbands,
            ;
            lemma_slot_decomp(base as int, step as int);
            lemma_slot_decomp(base + 1, step as int);
            lemma_slot_decomp(base + 2, step as int);
            lemma_slot_decomp(base + 3, step as int);
            lemma_slot_decomp(base + 4, step as int);
            lemma_slot_decomp(base + 5, step as int);
            lemma_slot_decomp(base + 6, step as int);
            lemma_slot_decomp(base + 7, step as int);
        }
    }

    /// Store one value into the history slot of reduced index `q`, step `i`.
    fn set_hist(&mut self, q: usize, i: usize, v: i32)
        requires
            old(self).wf(),
            q < old(self)@.channels * old(self)@.subbands,
            i < FILTER_ORDER,
        ensures
            final(self).wf(),
            final(self)@.channels == old(self)@.channels,
            final(self)@.subbands == old(self)@.subbands,
            final(self)@.step == old(self)@.step,
            final(self)@.hist =~= old(self)@.hist.update(
                q * (FILTER_ORDER as int) + i,
                v as int,
            ),
    {
        proof {
            assert(q * (FILTER_ORDER as int) + i < self@.hist.len()) by (nonlinear_arith)
                requires
                    q + 1 <= self@.channels * self@.subbands,
                    i < (FILTER_ORDER as int),
                    self@.hist.len() == self@.channels * self@.subbands * (FILTER_ORDER as int),
                    (FILTER_ORDER as int) == 10,
            ;
        }
        let idx = q * FILTER_ORDER + i;
        self.history.set(idx, v);
        proof {
            assert(final(self)@.hist =~= old(self)@.hist.update(
                q * (FILTER_ORDER as int) + i,
                v as int,
            ));
        }
    }
}


proof fn lemma_mod_dec(d: int)
    ensures
        d % (FILTER_ORDER as int) == 0 ==> (d - 1) % (FILTER_ORDER as int) == (FILTER_ORDER as int)
            - 1,
        d % (FILTER_ORDER as int) != 0 ==> (d - 1) % (FILTER_ORDER as int) == d % (
        FILTER_ORDER as int) - 1,
{
    let fo = FILTER_ORDER as int;
    vstd::arithmetic::div_mod::lemma_fundamental_div_mod(d, fo);
    vstd::arithmetic::div_mod::lemma_mod_bound(d, fo);
    let q = d / fo;
    let r = d % fo;
    if r == 0 {
        vstd::arithmetic::div_mod::lemma_fundamental_div_mod_converse(d - 1, fo, q - 1, fo - 1);
    } else {
        vstd::arithmetic::div_mod::lemma_fundamental_div_mod_converse(d - 1, fo, q, r - 1);
    }
}

/// Which stored intermediate the convolution term of tap parity `even` and
/// sub-band `sb` reads: zero flag, sign flag and reduced index.
fn term_source(subbands: usize, even: bool, sb: usize) -> (result: (bool, bool, usize))
    requires
        subbands == 4 || subbands == 8,
        sb < subbands,
    ensures
        (result.0, result.1, result.2 as int) == spec_term_source(
            subbands as int,
            even,
            sb as int,
        ),
        result.2 < subbands,
{
    if subbands == 4 {
        if even {
            if sb == 0 {
                (false, false, 0)
            } else if sb == 1 {
                (false, false, 1)
            } else if sb == 2 {
                (true, false, 0)
            } else {
                (false, true, 1)
            }
        } else {
            if sb == 0 {
                (false, true, 0)
            } else if sb == 1 {
                (false, false, 2)
            } else if sb == 2 {
                (false, false, 3)
            } else {
                (false, false, 2)
            }
        }
    } else {
        if even {
            if sb == 0 {
                (false, false, 0)
            } else if sb == 1 {
                (false, false, 1)
            } else if sb == 2 {
                (false, false, 2)
            } else if sb == 3 {
                (false, false, 3)
            } else if sb == 4 {
                (true, false, 0)
            } else if sb == 5 {
                (false, true, 3)
            } else if sb == 6 {
                (false, true, 2)
            } else {
                (false, true, 1)
            }
        } else {
            if sb == 0 {
                (false, true, 0)
            } else if sb == 1 {
                (false, false, 4)
            } else if sb == 2 {
                (false, false, 5)
            } else if sb == 3 {
                (false, false, 6)
            } else if sb == 4 {
                (false, false, 7)
            } else if sb == 5 {
                (false, false, 6)
            } else if sb == 6 {
                (false, false, 5)
            } else {
                (false, false, 4)
            }
        }
    }
}

impl FilterState {
    /// Read one history slot.
    fn get_hist(&self, q: usize, i: usize) -> (result: i32)
        requires
            self.wf(),
            q < self@.channels * self@.subbands,
            i < FILTER_ORDER,
        ensures
            result as int == self@.hist[q * (FILTER_ORDER as int) + i],
    {
        proof {
            assert(q * (FILTER_ORDER as int) + i < self@.hist.len()) by (nonlinear_arith)
                requires
                    q + 1 <= self@.channels * self@.subbands,
                    i < (FILTER_ORDER as int),
                    self@.hist.len() == self@.channels * self@.subbands * (FILTER_ORDER as int),
                    (FILTER_ORDER as int) == 10,
            ;
        }
        self.history[q * FILTER_ORDER + i]
    }

    /// Convolve one channel's history against the prototype filter and
    /// append the channel's saturated PCM samples to `out`.
    fn conv_channel(&self, ch: usize, out: &mut Vec<i16>)
        requires
            self.wf(),
            ch < self@.channels,
        ensures
            final(out)@.len() == old(out)@.len() + self@.subbands,
            forall|i: int| 0 <= i < old(out)@.len() ==> final(out)@[i] == old(out)@[i],
            forall|sb: int|
                0 <= sb < self@.subbands ==> final(out)@[old(out)@.len() + sb]
                    == spec_saturating_i16(
                    sar15(
                        spec_conv_sum(
                            self@.subbands,
                            self@.hist,
                            ch as int,
                            self@.step,
                            sb,
                            FILTER_ORDER as nat,
                        ),
                    ),
                ),
    {
        let subbands = self.subbands;
        let step = self.step;
        proof {
            assert(ch * subbands + subbands <= self@.channels * subbands) by (nonlinear_arith)
                requires
                    ch + 1 <= self@.channels,
                    subbands >= 0,
            ;
        }
        let base = ch * subbands;
        let mut sb: usize = 0;
        while sb < subbands
            invariant
                sb <= subbands,
                self.wf(),
                subbands == self@.subbands,
                step == self@.step,
                ch < self@.channels,
                base == ch * subbands,
                base + subbands <= self@.channels * subbands,
                out@.len() == old(out)@.len() + sb,
                forall|i: int| 0 <= i < old(out)@.len() ==> out@[i] == old(out)@[i],
                forall|k: int|
                    0 <= k < sb ==> out@[old(out)@.len() + k] == spec_saturating_i16(
                        sar15(
                            spec_conv_sum(
                                self@.subbands,
                                self@.hist,
                                ch as int,
                                self@.step,
                                k,
                                FILTER_ORDER as nat,
                            ),
                        ),
                    ),
            decreases subbands - sb,
        {
            let mut sum: i64 = 0;
            let mut i: usize = step;
            let mut f: usize = 0;
            while f < FILTER_ORDER
                invariant
                    f <= FILTER_ORDER,
                    i < FILTER_ORDER,
                    self.wf(),
                    subbands == self@.subbands,
                    step == self@.step,
                    ch < self@.channels,
                    sb < subbands,
                    base == ch * subbands,
                    base + subbands <= self@.channels * subbands,
                    i as int == (step - f) % (FILTER_ORDER as int),
                    sum == spec_conv_sum(
                        self@.subbands,
                        self@.hist,
                        ch as int,
                        self@.step,
                        sb as int,
                        f as nat,
                    ),
                    -(f as int) * 0x8000_0000_0000 <= sum <= (f as int) * 0x8000_0000_0000,
                decreases FILTER_ORDER - f,
            {
                let even = f % 2 == 0;
                let src = term_source(subbands, even, sb);
                let p: i32 = if subbands == 4 {
                    M_PROTO_4[f][sb]
                } else {
                    M_PROTO_8[f][sb]
                };
                proof {
                    assert(p as int == spec_proto(subbands as int, f as int, sb as int));
                    lemma_proto_range(subbands as int, f as int, sb as int);
                    assert((f as int) % 2 == 0 <==> even);
                }
                if !src.0 {
                    let h = self.get_hist(base + src.2, i);
                    proof {
                        assert(-0x8000_0000_0000 <= (h as int) * (p as int) <= 0x8000_0000_0000)
                            by (nonlinear_arith)
                            requires
                                -0x8000_0000 <= h as int <= 0x8000_0000,
                                -0x10000 <= p as int <= 0x10000,
                        ;
                        assert(base + src.2 == (ch as int) * (subbands as int) + (src.2 as int));
                    }
                    let term = (h as i64) * (p as i64);
                    if src.1 {
                        sum = sum - term;
                    } else {
                        sum = sum + term;
                    }
                }
                proof {
                    lemma_mod_dec(step - f);
                }
                f = f + 1;
                i = if i == 0 {
                    FILTER_ORDER - 1
                } else {
                    i - 1
                };
            }
            out.push(saturating_i16_from_i64(sum >> 15));
            sb = sb + 1;
        }
    }
}


impl FilterState {
    /// Feed one block of reconstructed sub-band samples (flat,
    /// channel-major) through the filter bank: store the butterflies into
    /// the current step's history slots, convolve, emit one flat
    /// channel-major block of PCM samples, and advance the step cursor.
    pub fn filter(&mut self, s: &Vec<i32>) -> (out: Vec<i16>)
        requires
            old(self).wf(),
            s@.len() == old(self)@.channels * old(self)@.subbands,
            forall|i: int| 0 <= i < s@.len() ==> spec_sample_in_range(#[trigger] s@[i] as int),
        ensures
            final(self).wf(),
            final(self)@ == spec_filter_step(old(self)@, to_ints(s@)),
            out@ == spec_filter_output(old(self)@, to_ints(s@)),
    {
        let ghost v0 = self@;
        let ghost ints = to_ints(s@);
        let ghost fo = FILTER_ORDER as int;
        self.store_butterfly(0, s);
        let two = self.channels == 2;
        if two {
            self.store_butterfly(1, s);
        }
        proof {
            let target = spec_filter_hist(v0, ints);
            assert forall|n: int| 0 <= n < self@.hist.len() implies self@.hist[n] == target[n] by {
                vstd::arithmetic::div_mod::lemma_fundamental_div_mod(n, FILTER_ORDER as int);
                vstd::arithmetic::div_mod::lemma_mod_bound(n, FILTER_ORDER as int);
                let q = n / (FILTER_ORDER as int);
                let r = n % (FILTER_ORDER as int);
                assert(q < v0.channels * v0.subbands);
                vstd::arithmetic::div_mod::lemma_fundamental_div_mod(q, v0.subbands);
                vstd::arithmetic::div_mod::lemma_mod_bound(q, v0.subbands);
                let c = q / v0.subbands;
                let k = q % v0.subbands;
                assert(c < v0.channels) by (nonlinear_arith)
                    requires
                        q == c * v0.subbands + k,
                        0 <= k < v0.subbands,
                        q < v0.channels * v0.subbands,
                        v0.subbands > 0,
                        c >= 0,
                ;
                if r == v0.step {
                    assert(n == hidx(v0.subbands, c, k, v0.step));
                    assert(c * v0.subbands <= q < (c + 1) * v0.subbands) by (nonlinear_arith)
                        requires
                            q == c * v0.subbands + k,
                            0 <= k < v0.subbands,
                    ;
                }
            }
            assert(self@.hist =~= target);
        }
        let mut out: Vec<i16> = Vec::new();
        self.conv_channel(0, &mut out);
        if two {
            self.conv_channel(1, &mut out);
        }
        proof {
            let outv = spec_filter_output(v0, ints);
            assert(self@.step == v0.step && self@.subbands == v0.subbands && self@.channels
                == v0.channels);
            assert forall|n: int| 0 <= n < out@.len() implies out@[n] == outv[n] by {
                vstd::arithmetic::div_mod::lemma_fundamental_div_mod(n, v0.subbands);
                vstd::arithmetic::div_mod::lemma_mod_bound(n, v0.subbands);
                let c = n / v0.subbands;
                let k = n % v0.subbands;
                assert(c < v0.channels) by (nonlinear_arith)
                    requires
                        n == c * v0.subbands + k,
                        0 <= k < v0.subbands,
                        n < v0.channels * v0.subbands,
                        v0.subbands > 0,
                        c >= 0,
                ;
                if c == 0 {
                    assert(out@[n] == out@[0 * v0.subbands + k]);
                }
            }
            assert(out@ =~= outv);
        }
        let step = self.step;
        if step + 1 == FILTER_ORDER {
            self.step = 0;
        } else {
            self.step = step + 1;
        }
        proof {
            if v0.step + 1 == fo {
                assert((v0.step + 1) % fo == 0) by {
                    vstd::arithmetic::div_mod::lemma_mod_self_0(fo);
                }
            } else {
                vstd::arithmetic::div_mod::lemma_small_mod((v0.step + 1) as nat, fo as nat);
            }
        }
        out
    }
}


/// The PCM blocks a filter state produces from a sequence of input blocks,
/// fed in order.
pub open spec fn spec_filter_run(v: FilterModel, blocks: Seq<Seq<int>>) -> Seq<Seq<i16>>
    decreases blocks.len(),
{
    if blocks.len() == 0 {
        Seq::empty()
    } else {
        seq![spec_filter_output(v, blocks[0])] + spec_filter_run(
            spec_filter_step(v, blocks[0]),
            blocks.skip(1),
        )
    }
}

/// Two independent filter states in the same state produce identical PCM
/// output sequences from the same input blocks: the filter bank has no
/// hidden state beyond its history and cursor.
pub proof fn lemma_filter_run_deterministic(v1: FilterModel, v2: FilterModel, blocks: Seq<Seq<int>>)
    requires
        v1.channels == v2.channels,
        v1.subbands == v2.subbands,
        v1.step == v2.step,
        v1.hist =~= v2.hist,
    ensures
        spec_filter_run(v1, blocks) == spec_filter_run(v2, blocks),
{
    assert(v1 == v2);
}


/// A well-formed filter model: a valid configuration, a fully allocated
/// history, and a cursor in range.
pub open spec fn model_wf(v: FilterModel) -> bool {
    (v.channels == 1 || v.channels == 2) && (v.subbands == 4 || v.subbands == 8) && v.hist.len()
        == v.channels * v.subbands * (FILTER_ORDER as int) && 0 <= v.step < FILTER_ORDER as int
}

/// A block of silence: one zero sample per cell.
pub open spec fn zero_block(cells: nat) -> Seq<int> {
    Seq::new(cells, |i: int| 0)
}

/// The filter state left behind after feeding a sequence of blocks.
pub open spec fn spec_filter_run_state(v: FilterModel, blocks: Seq<Seq<int>>) -> FilterModel
    decreases blocks.len(),
{
    if blocks.len() == 0 {
        v
    } else {
        spec_filter_run_state(spec_filter_step(v, blocks[0]), blocks.skip(1))
    }
}

/// The butterflies of an all-zero block are zero.
proof fn lemma_butterfly_zero(subbands: int, k: int)
    requires
        subbands == 4 || subbands == 8,
        0 <= k < subbands,
    ensures
        spec_butterfly(subbands, zero_block(subbands as nat), k) == 0,
{
}

/// The 15-bit shift of zero is zero.
proof fn lemma_sar15_zero()
    ensures
        sar15(0) == 0,
{
    assert(0i64 >> 15 == 0i64) by (bit_vector);
}

/// One all-zero block writes zeros into the slots of the current step and
/// leaves every other slot unchanged.
proof fn lemma_zero_step(v: FilterModel)
    requires
        model_wf(v),
    ensures
        model_wf(spec_filter_step(v, zero_block((v.channels * v.subbands) as nat))),
        spec_filter_step(v, zero_block((v.channels * v.subbands) as nat)).step == (v.step + 1) % (
        FILTER_ORDER as int),
        spec_filter_step(v, zero_block((v.channels * v.subbands) as nat)).channels == v.channels,
        spec_filter_step(v, zero_block((v.channels * v.subbands) as nat)).subbands == v.subbands,
        spec_filter_step(v, zero_block((v.channels * v.subbands) as nat)).hist.len()
            == v.hist.len(),
        forall|n: int|
            0 <= n < v.hist.len() && n % (FILTER_ORDER as int) == v.step ==> #[trigger] spec_filter_step(
                v,
                zero_block((v.channels * v.subbands) as nat),
            ).hist[n] == 0,
        forall|n: int|
            0 <= n < v.hist.len() && n % (FILTER_ORDER as int) != v.step ==> #[trigger] spec_filter_step(
                v,
                zero_block((v.channels * v.subbands) as nat),
            ).hist[n] == v.hist[n],
{
    let cells = (v.channels * v.subbands) as nat;
    let z = zero_block(cells);
    let fo = FILTER_ORDER as int;
    vstd::arithmetic::div_mod::lemma_mod_bound(v.step + 1, fo);
    assert forall|n: int|
        0 <= n < v.hist.len() && n % fo == v.step implies spec_filter_hist(v, z)[n] == 0 by {
        vstd::arithmetic::div_mod::lemma_fundamental_div_mod(n, fo);
        vstd::arithmetic::div_mod::lemma_mod_bound(n, fo);
        let q = n / fo;
        assert(q < v.channels * v.subbands);
        vstd::arithmetic::div_mod::lemma_fundamental_div_mod(q, v.subbands);
        vstd::arithmetic::div_mod::lemma_mod_bound(q, v.subbands);
        let c = q / v.subbands;
        let k = q % v.subbands;
        assert(c < v.channels) by (nonlinear_arith)
            requires
                q == c * v.subbands + k,
                0 <= k < v.subbands,
                q < v.channels * v.subbands,
                v.subbands > 0,
                c >= 0,
        ;
        assert(chan_samples(z, v.subbands, c) =~= zero_block(v.subbands as nat)) by {
            assert(0 <= c * v.subbands && c * v.subbands + v.subbands <= cells) by (
            nonlinear_arith)
                requires
                    0 <= c,
                    c < v.channels,
                    v.subbands > 0,
                    cells == v.channels * v.subbands,
            ;
        }
        lemma_butterfly_zero(v.subbands, k);
        lemma_sar15_zero();
    }
}

/// After `FILTER_ORDER` consecutive all-zero blocks the whole history has
/// settled to zero: each block zeroes one step slot and the cursor wraps
/// around exactly once.
proof fn lemma_zero_blocks_clear_history(v: FilterModel, blocks: Seq<Seq<int>>, k: int)
    requires
        model_wf(v),
        0 <= k <= blocks.len(),
        blocks.len() <= FILTER_ORDER as int,
        forall|j: int|
            0 <= j < blocks.len() ==> #[trigger] blocks[j] == zero_block(
                (v.channels * v.subbands) as nat,
            ),
    ensures
        model_wf(spec_filter_run_state(v, blocks.take(k))),
        spec_filter_run_state(v, blocks.take(k)).channels == v.channels,
        spec_filter_run_state(v, blocks.take(k)).subbands == v.subbands,
        spec_filter_run_state(v, blocks.take(k)).hist.len() == v.hist.len(),
        spec_filter_run_state(v, blocks.take(k)).step == (v.step + k) % (FILTER_ORDER as int),
        forall|n: int|
            0 <= n < v.hist.len() && (n % (FILTER_ORDER as int) - v.step) % (FILTER_ORDER as int)
                < k ==> spec_filter_run_state(v, blocks.take(k)).hist[n] == 0,
    decreases k,
{
    let fo = FILTER_ORDER as int;
    if k == 0 {
        assert(blocks.take(0) =~= Seq::<Seq<int>>::empty());
        vstd::arithmetic::div_mod::lemma_small_mod(v.step as nat, fo as nat);
    } else {
        lemma_zero_blocks_clear_history(v, blocks, k - 1);
        let prev = spec_filter_run_state(v, blocks.take(k - 1));
        lemma_zero_step(prev);
        let cur = spec_filter_step(prev, zero_block((v.channels * v.subbands) as nat));
        assert(spec_filter_run_state(v, blocks.take(k)) == cur) by {
            lemma_run_state_snoc(v, blocks.take(k));
            assert(blocks.take(k).drop_last() =~= blocks.take(k - 1));
            assert(blocks.take(k).last() == blocks[k - 1]);
        }
        assert(cur.step == ((v.step + k - 1) % fo + 1) % fo);
        lemma_mod_incr(v.step + k - 1);
        assert(cur.step == (v.step + k) % fo);
        assert forall|n: int|
            0 <= n < v.hist.len() && (n % fo - v.step) % fo < k implies cur.hist[n] == 0 by {
            vstd::arithmetic::div_mod::lemma_mod_bound(n, fo);
            vstd::arithmetic::div_mod::lemma_mod_bound(n % fo - v.step, fo);
            let d = (n % fo - v.step) % fo;
            if d < k - 1 {
                assert(prev.hist[n] == 0);
                if n % fo == prev.step {
                } else {
                }
            } else {
                assert(d == k - 1);
                lemma_mod_diff_shift(v.step, n % fo);
                assert(n % fo == (v.step + d) % fo);
                assert(prev.step == (v.step + (k - 1)) % fo);
            }
        }
    }
}

/// Unroll a run of blocks from the back.
proof fn lemma_run_state_snoc(v: FilterModel, blocks: Seq<Seq<int>>)
    requires
        blocks.len() >= 1,
    ensures
        spec_filter_run_state(v, blocks) == spec_filter_step(
            spec_filter_run_state(v, blocks.drop_last()),
            blocks.last(),
        ),
    decreases blocks.len(),
{
    if blocks.len() > 1 {
        lemma_run_state_snoc(spec_filter_step(v, blocks[0]), blocks.skip(1));
        assert(blocks.skip(1).drop_last() =~= blocks.drop_last().skip(1));
        assert(blocks.drop_last()[0] == blocks[0]);
        assert(blocks.skip(1).last() == blocks.last());
        assert(spec_filter_run_state(v, blocks) == spec_filter_run_state(
            spec_filter_step(v, blocks[0]),
            blocks.skip(1),
        ));
        assert(spec_filter_run_state(v, blocks.drop_last()) == spec_filter_run_state(
            spec_filter_step(v, blocks[0]),
            blocks.drop_last().skip(1),
        ));
        assert(blocks.skip(1).drop_last() == blocks.drop_last().skip(1));
        assert(spec_filter_run_state(spec_filter_step(v, blocks[0]), blocks.skip(1))
            == spec_filter_step(
            spec_filter_run_state(spec_filter_step(v, blocks[0]), blocks.skip(1).drop_last()),
            blocks.skip(1).last(),
        ));
    } else {
        assert(blocks.drop_last() =~= Seq::<Seq<int>>::empty());
        assert(blocks.skip(1) =~= Seq::<Seq<int>>::empty());
        assert(spec_filter_run_state(v, blocks) == spec_filter_run_state(
            spec_filter_step(v, blocks[0]),
            blocks.skip(1),
        ));
        assert(spec_filter_run_state(spec_filter_step(v, blocks[0]), blocks.skip(1))
            == spec_filter_step(v, blocks[0]));
        assert(spec_filter_run_state(v, blocks.drop_last()) == v);
        assert(blocks[0] == blocks.last());
    }
}

/// Incrementing a value commutes with reduction modulo the filter order.
proof fn lemma_mod_incr(d: int)
    ensures
        (d % (FILTER_ORDER as int) + 1) % (FILTER_ORDER as int) == (d + 1) % (FILTER_ORDER as int),
{
    let fo = FILTER_ORDER as int;
    vstd::arithmetic::div_mod::lemma_mod_bound(d, fo);
    vstd::arithmetic::div_mod::lemma_fundamental_div_mod(d, fo);
    if d % fo + 1 < fo {
        vstd::arithmetic::div_mod::lemma_small_mod((d % fo + 1) as nat, fo as nat);
        vstd::arithmetic::div_mod::lemma_fundamental_div_mod_converse(d + 1, fo, d / fo, d % fo + 1);
    } else {
        vstd::arithmetic::div_mod::lemma_mod_self_0(fo);
        vstd::arithmetic::div_mod::lemma_fundamental_div_mod_converse(d + 1, fo, d / fo + 1, 0);
    }
}

/// The cursor distance from `a` to `b` brings `a` back to `b`.
proof fn lemma_mod_diff_shift(a: int, b: int)
    requires
        0 <= a < FILTER_ORDER as int,
        0 <= b < FILTER_ORDER as int,
    ensures
        (a + (b - a) % (FILTER_ORDER as int)) % (FILTER_ORDER as int) == b,
{
    let fo = FILTER_ORDER as int;
    if b >= a {
        vstd::arithmetic::div_mod::lemma_small_mod((b - a) as nat, fo as nat);
        vstd::arithmetic::div_mod::lemma_small_mod(b as nat, fo as nat);
    } else {
        vstd::arithmetic::div_mod::lemma_fundamental_div_mod_converse(b - a, fo, -1, b - a + fo);
        vstd::arithmetic::div_mod::lemma_fundamental_div_mod_converse(a + (b - a + fo), fo, 1, b);
    }
}

/// The convolution over an all-zero history is zero.
proof fn lemma_conv_zero(subbands: int, hist: Seq<int>, ch: int, step: int, sb: int, taps: nat)
    requires
        forall|n: int| 0 <= n < hist.len() ==> #[trigger] hist[n] == 0,
        subbands == 4 || subbands == 8,
        0 <= sb < subbands,
        0 <= ch,
        0 <= step < FILTER_ORDER as int,
        (ch + 1) * subbands * (FILTER_ORDER as int) <= hist.len(),
    ensures
        spec_conv_sum(subbands, hist, ch, step, sb, taps) == 0,
    decreases taps,
{
    if taps > 0 {
        lemma_conv_zero(subbands, hist, ch, step, sb, (taps - 1) as nat);
        let f = taps - 1;
        let i = (step - f) % (FILTER_ORDER as int);
        vstd::arithmetic::div_mod::lemma_mod_bound(step - f, FILTER_ORDER as int);
        let src = spec_term_source(subbands, f % 2 == 0, sb);
        if !src.0 {
            assert(0 <= hidx(subbands, ch, src.2, i) < hist.len()) by (nonlinear_arith)
                requires
                    hidx(subbands, ch, src.2, i) == (ch * subbands + src.2) * (FILTER_ORDER as int)
                        + i,
                    0 <= src.2 < subbands,
                    0 <= ch,
                    0 <= i < FILTER_ORDER as int,
                    (ch + 1) * subbands * (FILTER_ORDER as int) <= hist.len(),
                    subbands > 0,
            ;
        }
    }
}

/// Feeding `FILTER_ORDER` consecutive all-zero blocks saturates the
/// history to zero and the PCM output to exact silence: the final block of
/// the run, and every later all-zero block, produces only zero samples.
pub proof fn lemma_zero_blocks_silence(v: FilterModel, blocks: Seq<Seq<int>>)
    requires
        model_wf(v),
        blocks.len() == FILTER_ORDER as int,
        forall|j: int|
            0 <= j < blocks.len() ==> #[trigger] blocks[j] == zero_block(
                (v.channels * v.subbands) as nat,
            ),
    ensures
        forall|n: int|
            0 <= n < v.hist.len() ==> #[trigger] spec_filter_run_state(v, blocks).hist[n] == 0,
        spec_filter_run(v, blocks).len() == FILTER_ORDER as int,
        forall|m: int|
            0 <= m < v.channels * v.subbands ==> #[trigger] spec_filter_run(v, blocks)[(
            FILTER_ORDER - 1) as int][m] == 0i16,
{
    let fo = FILTER_ORDER as int;
    let cells = (v.channels * v.subbands) as nat;
    lemma_zero_blocks_clear_history(v, blocks, fo);
    assert(blocks.take(fo) =~= blocks);
    assert forall|n: int|
        0 <= n < v.hist.len() implies #[trigger] spec_filter_run_state(v, blocks).hist[n]
        == 0 by {
        vstd::arithmetic::div_mod::lemma_mod_bound(n, fo);
        vstd::arithmetic::div_mod::lemma_mod_bound(n % fo - v.step, fo);
    }
    lemma_run_length(v, blocks);
    lemma_zero_blocks_clear_history(v, blocks, fo - 1);
    let v9 = spec_filter_run_state(v, blocks.take(fo - 1));
    lemma_zero_step(v9);
    let vf = spec_filter_step(v9, zero_block(cells));
    assert forall|n: int| 0 <= n < v9.hist.len() implies #[trigger] vf.hist[n] == 0 by {
        vstd::arithmetic::div_mod::lemma_mod_bound(n, fo);
        vstd::arithmetic::div_mod::lemma_mod_bound(n % fo - v.step, fo);
        if n % fo != v9.step {
            let d = (n % fo - v.step) % fo;
            if d == fo - 1 {
                lemma_mod_diff_shift(v.step, n % fo);
                assert(false);
            }
            assert(v9.hist[n] == 0);
        }
    }
    lemma_run_last_output(v, blocks);
    let out = spec_filter_output(v9, zero_block(cells));
    assert forall|m: int| 0 <= m < v.channels * v.subbands implies #[trigger] out[m] == 0i16 by {
        vstd::arithmetic::div_mod::lemma_fundamental_div_mod(m, v9.subbands);
        vstd::arithmetic::div_mod::lemma_mod_bound(m, v9.subbands);
        let c = m / v9.subbands;
        let k = m % v9.subbands;
        assert(c < v9.channels) by (nonlinear_arith)
            requires
                m == c * v9.subbands + k,
                0 <= k < v9.subbands,
                m < v9.channels * v9.subbands,
                v9.subbands > 0,
                c >= 0,
        ;
        assert((c + 1) * v9.subbands * fo <= vf.hist.len()) by (nonlinear_arith)
            requires
                c + 1 <= v9.channels,
                v9.subbands > 0,
                fo > 0,
                vf.hist.len() == v9.channels * v9.subbands * fo,
        ;
        lemma_conv_zero(v9.subbands, vf.hist, c, v9.step, k, fo as nat);
        lemma_sar15_zero();
    }
}

/// A run over blocks yields one output block per input block.
proof fn lemma_run_length(v: FilterModel, blocks: Seq<Seq<int>>)
    ensures
        spec_filter_run(v, blocks).len() == blocks.len(),
    decreases blocks.len(),
{
    if blocks.len() > 0 {
        lemma_run_length(spec_filter_step(v, blocks[0]), blocks.skip(1));
    }
}

/// The last output of a run is the output of the state after all earlier
/// blocks, fed the last block.
proof fn lemma_run_last_output(v: FilterModel, blocks: Seq<Seq<int>>)
    requires
        blocks.len() >= 1,
    ensures
        spec_filter_run(v, blocks)[blocks.len() - 1] == spec_filter_output(
            spec_filter_run_state(v, blocks.drop_last()),
            blocks.last(),
        ),
    decreases blocks.len(),
{
    lemma_run_length(v, blocks);
    if blocks.len() > 1 {
        lemma_run_last_output(spec_filter_step(v, blocks[0]), blocks.skip(1));
        assert(blocks.skip(1).drop_last() =~= blocks.drop_last().skip(1));
        assert(blocks.drop_last()[0] == blocks[0]);
        lemma_run_length(spec_filter_step(v, blocks[0]), blocks.skip(1));
        assert(spec_filter_run(v, blocks)[blocks.len() - 1] == spec_filter_run(
            spec_filter_step(v, blocks[0]),
            blocks.skip(1),
        )[blocks.len() - 2]);
    } else {
        assert(blocks.drop_last() =~= Seq::<Seq<int>>::empty());
    }
}

} // verus!
