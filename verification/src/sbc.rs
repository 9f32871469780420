//! The adaptive bit-allocation engine: distributes a fixed bitpool budget
//! across sub-bands from the scale factors, the channel mode and the
//! allocation method, matching the published algorithm bit for bit.
//!
//! For mono and dual-channel modes every channel is allocated independently
//! against its own copy of the bitpool; for stereo and joint-stereo the
//! bitslice search and both top-up passes run over the cells of both
//! channels against a single budget, visiting sub-bands in sub-band-major
//! order with the channel as the inner loop.

use vstd::prelude::*;

use crate::header::{AllocationMethod, ChannelMode, Frequency, SBCHeader};
use crate::header::{
    spec_allocation_method_of, spec_bitpool_of, spec_channel_mode_of, spec_channels,
    spec_frequency_of, spec_subbands_count, spec_subbands_of,
};

verus! {

/// Number of history entries kept per sub-band by the synthesis filter.
pub const FILTER_ORDER: usize = 10;

/// Loudness offsets per frequency and sub-band for 4 sub-bands.
pub const SBC_OFFSET4: [[i8; 4]; 4] = [
    [-1, 0, 0, 0],
    [-2, 0, 0, 1],
    [-2, 0, 0, 1],
    [-2, 0, 0, 1],
];

/// Loudness offsets per frequency and sub-band for 8 sub-bands.
pub const SBC_OFFSET8: [[i8; 8]; 4] = [
    [-2, 0, 0, 0, 0, 0, 0, 1],
    [-3, 0, 0, 0, 0, 0, 1, 2],
    [-4, 0, 0, 0, 0, 0, 1, 2],
    [-4, 0, 0, 0, 0, 0, 1, 2],
];

/// The row index a frequency selects in the offset tables.
pub open spec fn spec_frequency_index(f: Frequency) -> int {
    match f {
        Frequency::SBC_FREQ_16000 => 0,
        Frequency::SBC_FREQ_32000 => 1,
        Frequency::SBC_FREQ_44100 => 2,
        Frequency::SBC_FREQ_48000 => 3,
    }
}

/// The loudness offset of sub-band `sb` at frequency `f` for a 4- or
/// 8-sub-band frame.
pub open spec fn spec_offset(subbands: int, f: Frequency, sb: int) -> int
    recommends
        subbands == 4 || subbands == 8,
        0 <= sb < subbands,
{
    if subbands == 4 {
        SBC_OFFSET4[spec_frequency_index(f)][sb] as int
    } else {
        SBC_OFFSET8[spec_frequency_index(f)][sb] as int
    }
}

/// Loudness offset of sub-band `sb` at frequency `frequency`.
pub fn loudness_offset(subbands: usize, frequency: Frequency, sb: usize) -> (result: i8)
    requires
        subbands == 4 || subbands == 8,
        sb < subbands,
    ensures
        result as int == spec_offset(subbands as int, frequency, sb as int),
{
    let fi: usize = match frequency {
        Frequency::SBC_FREQ_16000 => 0,
        Frequency::SBC_FREQ_32000 => 1,
        Frequency::SBC_FREQ_44100 => 2,
        Frequency::SBC_FREQ_48000 => 3,
    };
    if subbands == 4 {
        SBC_OFFSET4[fi][sb]
    } else {
        SBC_OFFSET8[fi][sb]
    }
}

/// Bitneed of one cell: the scale factor itself under the SNR method; under
/// the loudness method the scale factor less the sub-band offset, halved
/// (truncated toward zero) only when positive.
pub open spec fn spec_bitneed(
    method: AllocationMethod,
    subbands: int,
    f: Frequency,
    sb: int,
    sf: int,
) -> int {
    match method {
        AllocationMethod::SBC_AM_SNR => sf,
        AllocationMethod::SBC_AM_LOUDNESS => {
            let loudness = sf - spec_offset(subbands, f, sb);
            if loudness > 0 {
                loudness / 2
            } else {
                loudness
            }
        },
    }
}

/// How many bits a cell of bitneed `n` is granted at threshold `t`:
/// none below `t + 2`, otherwise `n - t` capped at 16.
pub open spec fn spec_cell_bits(n: int, t: int) -> int {
    if n < t + 2 {
        0
    } else if n - t <= 16 {
        n - t
    } else {
        16
    }
}

/// The slice-count contribution of a cell of bitneed `n` at threshold `t`.
pub open spec fn spec_contrib(n: int, t: int) -> int {
    if n == t + 1 {
        2
    } else if t + 1 < n && n < t + 16 {
        1
    } else {
        0
    }
}

/// Slice count at threshold `t`: the contributions summed over all cells in scope.
pub open spec fn spec_slice_count(need: Seq<int>, t: int) -> int
    decreases need.len(),
{
    if need.len() == 0 {
        0
    } else {
        spec_slice_count(need.drop_last(), t) + spec_contrib(need.last(), t)
    }
}

/// The running bit count the bitslice search has accumulated once the
/// threshold has come down to `t`: the bits every cell would be granted at
/// threshold `t`, summed over the scope.
pub open spec fn spec_accum(need: Seq<int>, t: int) -> int
    decreases need.len(),
{
    if need.len() == 0 {
        0
    } else {
        spec_accum(need.drop_last(), t) + spec_cell_bits(need.last(), t)
    }
}

/// The largest bitneed in scope.
pub open spec fn spec_max_need(need: Seq<int>) -> int
    recommends
        need.len() >= 1,
    decreases need.len(),
{
    if need.len() <= 1 {
        need[0]
    } else {
        let m = spec_max_need(need.drop_last());
        if need.last() > m {
            need.last()
        } else {
            m
        }
    }
}

/// The smallest bitneed in scope.
pub open spec fn spec_min_need(need: Seq<int>) -> int
    recommends
        need.len() >= 1,
    decreases need.len(),
{
    if need.len() <= 1 {
        need[0]
    } else {
        let m = spec_min_need(need.drop_last());
        if need.last() < m {
            need.last()
        } else {
            m
        }
    }
}

/// Lowering the threshold by one grants each cell exactly its slice-count
/// contribution at the new threshold.
pub proof fn lemma_accum_step(need: Seq<int>, t: int)
    ensures
        spec_accum(need, t - 1) == spec_accum(need, t) + spec_slice_count(need, t),
    decreases need.len(),
{
    if need.len() > 0 {
        lemma_accum_step(need.drop_last(), t);
    }
}

/// Every cell lies between the scope's minimum and maximum bitneed.
pub proof fn lemma_need_bounds(need: Seq<int>, i: int)
    requires
        0 <= i < need.len(),
    ensures
        spec_min_need(need) <= need[i] <= spec_max_need(need),
    decreases need.len(),
{
    if need.len() > 1 {
        if i < need.len() - 1 {
            lemma_need_bounds(need.drop_last(), i);
        }
    }
}

/// At thresholds at or above the maximum bitneed nothing is granted.
pub proof fn lemma_accum_above_max(need: Seq<int>, t: int)
    requires
        need.len() == 0 || t >= spec_max_need(need),
    ensures
        spec_accum(need, t) == 0,
    decreases need.len(),
{
    if need.len() > 0 {
        if need.len() > 1 {
            assert(spec_max_need(need) >= spec_max_need(need.drop_last()));
            assert(spec_max_need(need) >= need.last());
            lemma_accum_above_max(need.drop_last(), t);
            assert(spec_cell_bits(need.last(), t) == 0);
        } else {
            assert(need.drop_last().len() == 0);
            assert(spec_accum(need.drop_last(), t) == 0);
            assert(need.last() == need[0]);
            assert(spec_cell_bits(need[0], t) == 0);
        }
    }
}

/// Once the threshold is 17 or more below the smallest bitneed, every cell
/// is granted its full 16 bits.
pub proof fn lemma_accum_saturated(need: Seq<int>, t: int)
    requires
        need.len() == 0 || t <= spec_min_need(need) - 17,
    ensures
        spec_accum(need, t) == 16 * need.len(),
    decreases need.len(),
{
    if need.len() > 0 {
        if need.len() > 1 {
            assert(spec_min_need(need) <= spec_min_need(need.drop_last()));
            assert(spec_min_need(need) <= need.last());
            lemma_accum_saturated(need.drop_last(), t);
            assert(spec_cell_bits(need.last(), t) == 16);
        } else {
            assert(need.drop_last().len() == 0);
            assert(spec_accum(need.drop_last(), t) == 0);
            assert(need.last() == need[0]);
            assert(spec_cell_bits(need[0], t) == 16);
        }
    }
}

/// The threshold the bitslice search stops at, counting down from `t`: the
/// first (largest) threshold whose accumulated grant at one step lower
/// reaches the bitpool.
pub open spec fn spec_find_bitslice(need: Seq<int>, bitpool: int, t: int) -> int
    decreases t - spec_min_need(need) + 17,
        when need.len() >= 1 && bitpool <= 16 * need.len() && t >= spec_min_need(need) - 16
        via spec_find_bitslice_decreases
{
    if spec_accum(need, t - 1) >= bitpool {
        t
    } else {
        spec_find_bitslice(need, bitpool, t - 1)
    }
}

#[via_fn]
proof fn spec_find_bitslice_decreases(need: Seq<int>, bitpool: int, t: int) {
    if spec_accum(need, t - 1) < bitpool {
        if t - 1 < spec_min_need(need) - 16 {
            lemma_accum_saturated(need, t - 1);
        }
    }
}

/// The search result lies between one step under the smallest bitneed and
/// the starting threshold, its accumulated grant stays within the bitpool,
/// and it is the largest threshold not above the start whose one-lower
/// accumulated grant reaches the bitpool.
pub proof fn lemma_find_bitslice_props(need: Seq<int>, bitpool: int, t: int)
    requires
        need.len() >= 1,
        0 <= bitpool <= 16 * need.len(),
        t >= spec_min_need(need) - 16,
        spec_accum(need, t) <= bitpool,
    ensures
        spec_find_bitslice(need, bitpool, t) <= t,
        spec_find_bitslice(need, bitpool, t) >= spec_min_need(need) - 16,
        spec_accum(need, spec_find_bitslice(need, bitpool, t)) <= bitpool,
        spec_accum(need, spec_find_bitslice(need, bitpool, t) - 1) >= bitpool,
    decreases t - spec_min_need(need) + 17,
{
    if spec_accum(need, t - 1) >= bitpool {
    } else {
        if t - 1 < spec_min_need(need) - 16 {
            lemma_accum_saturated(need, t - 1);
            assert(false);
        }
        lemma_find_bitslice_props(need, bitpool, t - 1);
    }
}


/// A sequence of 32-bit values as mathematical integers.
pub open spec fn to_ints(s: Seq<i32>) -> Seq<int> {
    s.map_values(|x: i32| x as int)
}

/// The sum of a sequence of integers.
pub open spec fn spec_sum(s: Seq<int>) -> int
    decreases s.len(),
{
    if s.len() == 0 {
        0
    } else {
        spec_sum(s.drop_last()) + s.last()
    }
}

/// The bit widths granted at threshold `t` before the top-up passes.
pub open spec fn spec_init_bits(need: Seq<int>, t: int) -> Seq<int> {
    Seq::new(need.len(), |i: int| spec_cell_bits(need[i], t))
}

/// The initial grant sums to exactly the bit count the search accumulated.
pub proof fn lemma_sum_init_bits(need: Seq<int>, t: int)
    ensures
        spec_sum(spec_init_bits(need, t)) == spec_accum(need, t),
    decreases need.len(),
{
    if need.len() > 0 {
        lemma_sum_init_bits(need.drop_last(), t);
        assert(spec_init_bits(need, t).drop_last() =~= spec_init_bits(need.drop_last(), t));
    }
}

/// Replacing one element changes the sum by the difference.
pub proof fn lemma_sum_update(s: Seq<int>, i: int, v: int)
    requires
        0 <= i < s.len(),
    ensures
        spec_sum(s.update(i, v)) == spec_sum(s) - s[i] + v,
    decreases s.len(),
{
    if i == s.len() - 1 {
        assert(s.update(i, v).drop_last() =~= s.drop_last());
    } else {
        lemma_sum_update(s.drop_last(), i, v);
        assert(s.update(i, v).drop_last() =~= s.drop_last().update(i, v));
    }
}

/// One cell of the first top-up pass: a width from 2 to 15 gains one bit;
/// otherwise a cell whose bitneed sits exactly one over the threshold is
/// set to two bits when two budget units are left.
pub open spec fn spec_pass1_step(
    need: Seq<int>,
    t: int,
    bitpool: int,
    state: (Seq<int>, int),
    c: int,
) -> (Seq<int>, int)
    recommends
        0 <= c < state.0.len(),
{
    let bits = state.0;
    let count = state.1;
    if count < bitpool && bits[c] >= 2 && bits[c] < 16 {
        (bits.update(c, bits[c] + 1), count + 1)
    } else if count < bitpool && !(bits[c] >= 2 && bits[c] < 16) && need[c] == t + 1 && bitpool
        > count + 1 {
        (bits.update(c, 2), count + 2)
    } else {
        state
    }
}

/// The first top-up pass over the first `k` cells of the visiting order.
pub open spec fn spec_pass1(
    need: Seq<int>,
    t: int,
    bitpool: int,
    state: (Seq<int>, int),
    order: Seq<int>,
    k: nat,
) -> (Seq<int>, int)
    decreases k,
{
    if k == 0 {
        state
    } else {
        spec_pass1_step(
            need,
            t,
            bitpool,
            spec_pass1(need, t, bitpool, state, order, (k - 1) as nat),
            order[k - 1],
        )
    }
}

/// One cell of the second top-up pass: any width under 16 gains one bit
/// while budget is left.
pub open spec fn spec_pass2_step(bitpool: int, state: (Seq<int>, int), c: int) -> (Seq<int>, int)
    recommends
        0 <= c < state.0.len(),
{
    let bits = state.0;
    let count = state.1;
    if count < bitpool && bits[c] < 16 {
        (bits.update(c, bits[c] + 1), count + 1)
    } else {
        state
    }
}

/// The second top-up pass over the first `k` cells of the visiting order.
pub open spec fn spec_pass2(
    bitpool: int,
    state: (Seq<int>, int),
    order: Seq<int>,
    k: nat,
) -> (Seq<int>, int)
    decreases k,
{
    if k == 0 {
        state
    } else {
        spec_pass2_step(bitpool, spec_pass2(bitpool, state, order, (k - 1) as nat), order[k - 1])
    }
}

/// The order the top-up passes visit the cells of a scope in: channel-major
/// for an independent channel, sub-band-major with the channel inner for a
/// shared stereo scope.
pub open spec fn spec_scope_order(cells: nat, subbands: nat, interleaved: bool) -> Seq<int> {
    if interleaved {
        Seq::new(cells, |j: int| (j % 2) * subbands + j / 2)
    } else {
        Seq::new(cells, |j: int| j)
    }
}

/// The bit widths allocated to one scope (one independent channel, or both
/// channels of a shared stereo scope): bitslice search, initial grant, then
/// the two top-up passes in visiting order.
pub open spec fn spec_alloc_scope(need: Seq<int>, bitpool: int, order: Seq<int>) -> Seq<int>
    recommends
        need.len() >= 1,
        0 <= bitpool <= 16 * need.len(),
{
    let t = spec_find_bitslice(need, bitpool, spec_max_need(need));
    let state0 = (spec_init_bits(need, t), spec_accum(need, t));
    let state1 = spec_pass1(need, t, bitpool, state0, order, order.len());
    let state2 = spec_pass2(bitpool, state1, order, order.len());
    state2.0
}

/// The first pass keeps the sum of the widths within the running bit
/// count, never exceeds the bitpool, and keeps every width between 0 and 16.
pub proof fn lemma_pass1_invariant(
    need: Seq<int>,
    t: int,
    bitpool: int,
    state: (Seq<int>, int),
    order: Seq<int>,
    k: nat,
)
    requires
        k <= order.len(),
        spec_sum(state.0) <= state.1,
        state.1 <= bitpool,
        forall|j: int| 0 <= j < order.len() ==> 0 <= #[trigger] order[j] < state.0.len(),
        forall|i: int| 0 <= i < state.0.len() ==> 0 <= #[trigger] state.0[i] <= 16,
    ensures
        spec_pass1(need, t, bitpool, state, order, k).0.len() == state.0.len(),
        spec_sum(spec_pass1(need, t, bitpool, state, order, k).0) <= spec_pass1(
            need,
            t,
            bitpool,
            state,
            order,
            k,
        ).1,
        spec_pass1(need, t, bitpool, state, order, k).1 <= bitpool,
        forall|i: int|
            0 <= i < state.0.len() ==> 0 <= #[trigger] spec_pass1(
                need,
                t,
                bitpool,
                state,
                order,
                k,
            ).0[i] <= 16,
    decreases k,
{
    if k > 0 {
        lemma_pass1_invariant(need, t, bitpool, state, order, (k - 1) as nat);
        let prev = spec_pass1(need, t, bitpool, state, order, (k - 1) as nat);
        let c = order[k - 1];
        if prev.1 < bitpool && prev.0[c] >= 2 && prev.0[c] < 16 {
            lemma_sum_update(prev.0, c, prev.0[c] + 1);
        } else if prev.1 < bitpool && !(prev.0[c] >= 2 && prev.0[c] < 16) && need[c] == t + 1
            && bitpool > prev.1 + 1 {
            lemma_sum_update(prev.0, c, 2);
            assert(prev.0[c] == 0 || prev.0[c] == 1 || prev.0[c] == 16);
            assert(prev.0[c] == 16 ==> spec_sum(prev.0.update(c, 2)) <= spec_sum(prev.0));
        }
    }
}

/// The second pass keeps the same invariants as the first.
pub proof fn lemma_pass2_invariant(
    bitpool: int,
    state: (Seq<int>, int),
    order: Seq<int>,
    k: nat,
)
    requires
        k <= order.len(),
        spec_sum(state.0) <= state.1,
        state.1 <= bitpool,
        forall|j: int| 0 <= j < order.len() ==> 0 <= #[trigger] order[j] < state.0.len(),
        forall|i: int| 0 <= i < state.0.len() ==> 0 <= #[trigger] state.0[i] <= 16,
    ensures
        spec_pass2(bitpool, state, order, k).0.len() == state.0.len(),
        spec_sum(spec_pass2(bitpool, state, order, k).0) <= spec_pass2(bitpool, state, order, k).1,
        spec_pass2(bitpool, state, order, k).1 <= bitpool,
        forall|i: int|
            0 <= i < state.0.len() ==> 0 <= #[trigger] spec_pass2(bitpool, state, order, k).0[i]
                <= 16,
    decreases k,
{
    if k > 0 {
        lemma_pass2_invariant(bitpool, state, order, (k - 1) as nat);
        let prev = spec_pass2(bitpool, state, order, (k - 1) as nat);
        let c = order[k - 1];
        if prev.1 < bitpool && prev.0[c] < 16 {
            lemma_sum_update(prev.0, c, prev.0[c] + 1);
        }
    }
}

/// The bit allocation of one scope never hands out more bits than the
/// bitpool in total, and never more than 16 bits to a single cell.
pub proof fn lemma_alloc_scope_budget(need: Seq<int>, bitpool: int, order: Seq<int>)
    requires
        need.len() >= 1,
        0 <= bitpool <= 16 * need.len(),
        forall|j: int| 0 <= j < order.len() ==> 0 <= #[trigger] order[j] < need.len(),
    ensures
        spec_alloc_scope(need, bitpool, order).len() == need.len(),
        spec_sum(spec_alloc_scope(need, bitpool, order)) <= bitpool,
        forall|i: int|
            0 <= i < need.len() ==> 0 <= #[trigger] spec_alloc_scope(need, bitpool, order)[i]
                <= 16,
{
    let mx = spec_max_need(need);
    lemma_need_bounds(need, 0);
    lemma_accum_above_max(need, mx);
    lemma_find_bitslice_props(need, bitpool, mx);
    let t = spec_find_bitslice(need, bitpool, mx);
    lemma_sum_init_bits(need, t);
    let state0 = (spec_init_bits(need, t), spec_accum(need, t));
    lemma_pass1_invariant(need, t, bitpool, state0, order, order.len());
    let state1 = spec_pass1(need, t, bitpool, state0, order, order.len());
    lemma_pass2_invariant(bitpool, state1, order, order.len());
}

/// Under the loudness method a positive computed value is halved, truncated
/// toward zero; a zero or negative one is kept unchanged.
pub proof fn lemma_loudness_bitneed(subbands: int, f: Frequency, sb: int, sf: int)
    ensures
        sf - spec_offset(subbands, f, sb) > 0 ==> spec_bitneed(
            AllocationMethod::SBC_AM_LOUDNESS,
            subbands,
            f,
            sb,
            sf,
        ) == (sf - spec_offset(subbands, f, sb)) / 2,
        sf - spec_offset(subbands, f, sb) <= 0 ==> spec_bitneed(
            AllocationMethod::SBC_AM_LOUDNESS,
            subbands,
            f,
            sb,
            sf,
        ) == sf - spec_offset(subbands, f, sb),
{
}


/// A sequence of bytes as mathematical integers.
pub open spec fn u8s_to_ints(s: Seq<u8>) -> Seq<int> {
    s.map_values(|x: u8| x as int)
}

/// The bitneeds of one channel, in sub-band order.
pub open spec fn spec_channel_need(
    method: AllocationMethod,
    subbands: int,
    f: Frequency,
    sf: Seq<u8>,
    ch: int,
) -> Seq<int> {
    Seq::new(
        subbands as nat,
        |sb: int| spec_bitneed(method, subbands, f, sb, sf[ch * subbands + sb] as int),
    )
}

/// Whether a header's bitpool can be met by its scope at all: up to 16 bits
/// per cell of one channel for the independent modes, of both channels for
/// the shared stereo modes.  Beyond this the bitslice search cannot reach
/// its target.
pub open spec fn spec_bitpool_in_range(h: SBCHeader) -> bool {
    let subbands = spec_subbands_count(spec_subbands_of(h)) as int;
    match spec_channel_mode_of(h) {
        ChannelMode::SBC_MODE_MONO | ChannelMode::SBC_MODE_DUAL_CHANNEL => spec_bitpool_of(h) as int
            <= 16 * subbands,
        ChannelMode::SBC_MODE_STEREO | ChannelMode::SBC_MODE_JOINT_STEREO => spec_bitpool_of(
            h,
        ) as int <= 32 * subbands,
    }
}

/// The bit widths the allocation engine derives from a header and a flat
/// channel-major scale-factor matrix: per channel against its own bitpool
/// copy in the independent modes, over both channels against one bitpool in
/// the shared stereo modes.
pub open spec fn spec_calculate_bits(h: SBCHeader, sf: Seq<u8>) -> Seq<int> {
    let subbands = spec_subbands_count(spec_subbands_of(h)) as int;
    let bitpool = spec_bitpool_of(h) as int;
    let method = spec_allocation_method_of(h);
    let f = spec_frequency_of(h);
    match spec_channel_mode_of(h) {
        ChannelMode::SBC_MODE_MONO => spec_alloc_scope(
            spec_channel_need(method, subbands, f, sf, 0),
            bitpool,
            spec_scope_order(subbands as nat, subbands as nat, false),
        ),
        ChannelMode::SBC_MODE_DUAL_CHANNEL => spec_alloc_scope(
            spec_channel_need(method, subbands, f, sf, 0),
            bitpool,
            spec_scope_order(subbands as nat, subbands as nat, false),
        ) + spec_alloc_scope(
            spec_channel_need(method, subbands, f, sf, 1),
            bitpool,
            spec_scope_order(subbands as nat, subbands as nat, false),
        ),
        ChannelMode::SBC_MODE_STEREO | ChannelMode::SBC_MODE_JOINT_STEREO => spec_alloc_scope(
            spec_channel_need(method, subbands, f, sf, 0) + spec_channel_need(
                method,
                subbands,
                f,
                sf,
                1,
            ),
            bitpool,
            spec_scope_order((2 * subbands) as nat, subbands as nat, true),
        ),
    }
}

/// The loudness offsets lie between -4 and 2.
pub proof fn lemma_offset_range(subbands: int, f: Frequency, sb: int)
    requires
        subbands == 4 || subbands == 8,
        0 <= sb < subbands,
    ensures
        -4 <= spec_offset(subbands, f, sb) <= 2,
{
}

/// A bitneed computed from a 4-bit scale factor lies between -6 and 15.
pub proof fn lemma_bitneed_range(
    method: AllocationMethod,
    subbands: int,
    f: Frequency,
    sb: int,
    sf: int,
)
    requires
        subbands == 4 || subbands == 8,
        0 <= sb < subbands,
        0 <= sf < 16,
    ensures
        -6 <= spec_bitneed(method, subbands, f, sb, sf) <= 15,
{
    lemma_offset_range(subbands, f, sb);
}

/// A scope whose cells lie in a range has its minimum and maximum there too.
pub proof fn lemma_minmax_range(need: Seq<int>, lo: int, hi: int)
    requires
        need.len() >= 1,
        forall|i: int| 0 <= i < need.len() ==> lo <= #[trigger] need[i] <= hi,
    ensures
        lo <= spec_min_need(need),
        spec_max_need(need) <= hi,
        spec_min_need(need) <= spec_max_need(need),
    decreases need.len(),
{
    if need.len() > 1 {
        lemma_minmax_range(need.drop_last(), lo, hi);
    }
}

/// The accumulated grant lies between zero and 16 bits per cell.
pub proof fn lemma_accum_bounds(need: Seq<int>, t: int)
    ensures
        0 <= spec_accum(need, t) <= 16 * need.len(),
    decreases need.len(),
{
    if need.len() > 0 {
        lemma_accum_bounds(need.drop_last(), t);
    }
}

/// The slice count lies between zero and 2 bits per cell.
pub proof fn lemma_slice_count_bounds(need: Seq<int>, t: int)
    ensures
        0 <= spec_slice_count(need, t) <= 2 * need.len(),
    decreases need.len(),
{
    if need.len() > 0 {
        lemma_slice_count_bounds(need.drop_last(), t);
    }
}

/// The bitneeds of one channel, computed from its scale factors.
fn channel_bitneed(
    method: AllocationMethod,
    subbands: usize,
    frequency: Frequency,
    sf: &Vec<u8>,
    ch: usize,
) -> (result: Vec<i32>)
    requires
        subbands == 4 || subbands == 8,
        (ch + 1) * subbands <= sf@.len(),
        forall|i: int| 0 <= i < sf@.len() ==> #[trigger] sf@[i] < 16,
    ensures
        to_ints(result@) == spec_channel_need(method, subbands as int, frequency, sf@, ch as int),
        result@.len() == subbands,
        forall|i: int| 0 <= i < result@.len() ==> -6 <= #[trigger] result@[i] <= 15,
{
    let ghost target = spec_channel_need(method, subbands as int, frequency, sf@, ch as int);
    let sflen: usize = sf.len();
    let mut result: Vec<i32> = Vec::new();
    let mut sb: usize = 0;
    while sb < subbands
        invariant
            sb <= subbands,
            subbands == 4 || subbands == 8,
            (ch + 1) * subbands <= sf@.len(),
            sf@.len() == sflen,
            forall|i: int| 0 <= i < sf@.len() ==> #[trigger] sf@[i] < 16,
            result@.len() == sb,
            target == spec_channel_need(method, subbands as int, frequency, sf@, ch as int),
            forall|i: int| 0 <= i < sb ==> to_ints(result@)[i] == target[i],
            forall|i: int| 0 <= i < result@.len() ==> -6 <= #[trigger] result@[i] <= 15,
        decreases subbands - sb,
    {
        proof {
            assert(ch * subbands + sb < (ch + 1) * subbands) by (nonlinear_arith)
                requires
                    sb < subbands,
            ;
        }
        let sfv = sf[ch * subbands + sb] as i32;
        let v: i32 = match method {
            AllocationMethod::SBC_AM_SNR => sfv,
            AllocationMethod::SBC_AM_LOUDNESS => {
                let loudness = sfv - loudness_offset(subbands, frequency, sb) as i32;
                if loudness > 0 {
                    loudness / 2
                } else {
                    loudness
                }
            },
        };
        proof {
            lemma_bitneed_range(
                method,
                subbands as int,
                frequency,
                sb as int,
                sf@[ch * subbands + sb] as int,
            );
            assert(v as int == spec_bitneed(
                method,
                subbands as int,
                frequency,
                sb as int,
                sf@[ch * subbands + sb] as int,
            ));
        }
        result.push(v);
        sb = sb + 1;
    }
    proof {
        assert(to_ints(result@) =~= target);
    }
    result
}


/// Allocate the bit widths of one scope: find the bitslice, grant the
/// initial widths, then run the two top-up passes in visiting order.
fn alloc_scope(need: &Vec<i32>, bitpool: i32, subbands: usize, interleaved: bool) -> (result: Vec<
    u8,
>)
    requires
        need@.len() >= 1,
        need@.len() <= 16,
        0 <= bitpool <= 16 * need@.len(),
        forall|i: int| 0 <= i < need@.len() ==> -6 <= #[trigger] need@[i] <= 15,
        interleaved ==> need@.len() == 2 * subbands && subbands >= 1,
        !interleaved ==> need@.len() == subbands,
    ensures
        u8s_to_ints(result@) == spec_alloc_scope(
            to_ints(need@),
            bitpool as int,
            spec_scope_order(need@.len(), subbands as nat, interleaved),
        ),
        result@.len() == need@.len(),
        forall|i: int| 0 <= i < result@.len() ==> #[trigger] result@[i] <= 16,
{
    let ghost ns = to_ints(need@);
    let ghost order = spec_scope_order(need@.len(), subbands as nat, interleaved);
    let cells = need.len();
    proof {
        assert(forall|i: int| 0 <= i < ns.len() ==> -6 <= #[trigger] ns[i] <= 15);
        lemma_minmax_range(ns, -6, 15);
        assert(forall|j: int| 0 <= j < order.len() ==> 0 <= #[trigger] order[j] < ns.len()) by {
            assert forall|j: int| 0 <= j < order.len() implies 0 <= #[trigger] order[j]
                < ns.len() by {
                if interleaved {
                    assert(order[j] == (j % 2) * subbands + j / 2);
                    assert(j % 2 == 0 || j % 2 == 1);
                    assert(j / 2 < subbands);
                }
            }
        }
    }
    // The largest bitneed in scope.
    let mut max_need: i32 = need[0];
    let mut i: usize = 1;
    proof {
        assert(ns.take(1) =~= seq![ns[0]]);
    }
    while i < cells
        invariant
            1 <= i <= cells,
            cells == need@.len(),
            ns == to_ints(need@),
            forall|k: int| 0 <= k < ns.len() ==> -6 <= #[trigger] ns[k] <= 15,
            max_need == spec_max_need(ns.take(i as int)),
            -6 <= max_need <= 15,
        decreases cells - i,
    {
        let ghost pre = ns.take(i as int);
        if need[i] > max_need {
            max_need = need[i];
        }
        i = i + 1;
        proof {
            assert(ns.take(i as int).drop_last() =~= pre);
            assert(ns.take(i as int).last() == ns[i - 1]);
        }
    }
    proof {
        assert(ns.take(cells as int) =~= ns);
    }
    // The bitslice search: bring the threshold down until the accumulated
    // grant reaches the bitpool.  No correction is needed afterwards: the
    // loop only stops once the accumulated grant at one step lower already
    // reaches the budget, so a further decrement can never be owed.
    let mut bitcount: i32 = 0;
    let mut slicecount: i32 = 0;
    let mut bitslice: i32 = max_need + 1;
    proof {
        lemma_accum_above_max(ns, bitslice as int);
        lemma_accum_above_max(ns, bitslice as int - 1);
        lemma_accum_step(ns, bitslice as int);
    }
    loop
        invariant_except_break
            cells == need@.len(),
            ns == to_ints(need@),
            1 <= cells <= 16,
            0 <= bitpool <= 16 * cells,
            forall|k: int| 0 <= k < ns.len() ==> -6 <= #[trigger] ns[k] <= 15,
            -6 <= spec_min_need(ns),
            spec_max_need(ns) <= 15,
            spec_min_need(ns) - 15 <= bitslice <= spec_max_need(ns) + 1,
            bitcount == spec_accum(ns, bitslice as int),
            slicecount == spec_slice_count(ns, bitslice as int),
            spec_find_bitslice(ns, bitpool as int, spec_max_need(ns)) == spec_find_bitslice(
                ns,
                bitpool as int,
                bitslice as int - 1,
            ),
        ensures
            cells == need@.len(),
            ns == to_ints(need@),
            bitslice as int == spec_find_bitslice(ns, bitpool as int, spec_max_need(ns)),
            bitcount == spec_accum(ns, bitslice as int),
            spec_min_need(ns) - 16 <= bitslice <= spec_max_need(ns) + 1,
        decreases bitslice - spec_min_need(ns) + 16,
    {
        proof {
            lemma_accum_bounds(ns, bitslice as int - 1);
            lemma_slice_count_bounds(ns, bitslice as int);
            lemma_accum_step(ns, bitslice as int);
        }
        bitslice = bitslice - 1;
        bitcount = bitcount + slicecount;
        slicecount = 0;
        let mut j: usize = 0;
        while j < cells
            invariant
                j <= cells,
                cells == need@.len(),
                ns == to_ints(need@),
                cells <= 16,
                forall|k: int| 0 <= k < ns.len() ==> -6 <= #[trigger] ns[k] <= 15,
                -22 <= bitslice <= 16,
                slicecount == spec_slice_count(ns.take(j as int), bitslice as int),
                0 <= slicecount <= 2 * j,
            decreases cells - j,
        {
            let ghost pre = ns.take(j as int);
            proof {
                lemma_slice_count_bounds(pre, bitslice as int);
            }
            let n = need[j];
            let c: i32 = if n == bitslice + 1 {
                2
            } else if n > bitslice + 1 && n < bitslice + 16 {
                1
            } else {
                0
            };
            slicecount = slicecount + c;
            j = j + 1;
            proof {
                assert(ns.take(j as int).drop_last() =~= pre);
                assert(ns.take(j as int).last() == ns[j - 1]);
            }
        }
        proof {
            assert(ns.take(cells as int) =~= ns);
            lemma_accum_step(ns, bitslice as int);
            lemma_accum_bounds(ns, bitslice as int);
            lemma_accum_bounds(ns, bitslice as int - 1);
            lemma_slice_count_bounds(ns, bitslice as int);
        }
        if bitcount + slicecount >= bitpool {
            proof {
                assert(spec_accum(ns, bitslice as int - 1) >= bitpool);
                assert(spec_find_bitslice(ns, bitpool as int, bitslice as int) == bitslice as int);
            }
            break ;
        }
        proof {
            assert(spec_accum(ns, bitslice as int - 1) < bitpool);
            if bitslice as int - 1 < spec_min_need(ns) - 16 {
                lemma_accum_saturated(ns, bitslice as int - 1);
                assert(false);
            }
            assert(spec_find_bitslice(ns, bitpool as int, bitslice as int) == spec_find_bitslice(
                ns,
                bitpool as int,
                bitslice as int - 1,
            ));
        }
    }
    let ghost t = bitslice as int;
    // The initial widths granted at the found threshold.
    let mut bits: Vec<i32> = Vec::new();
    let mut j: usize = 0;
    while j < cells
        invariant
            j <= cells,
            cells == need@.len(),
            ns == to_ints(need@),
            forall|k: int| 0 <= k < ns.len() ==> -6 <= #[trigger] ns[k] <= 15,
            forall|k: int| 0 <= k < need@.len() ==> -6 <= #[trigger] need@[k] <= 15,
            -22 <= bitslice <= 16,
            t == bitslice as int,
            bits@.len() == j,
            forall|k: int| 0 <= k < j ==> to_ints(bits@)[k] == spec_init_bits(ns, t)[k],
            forall|k: int| 0 <= k < j ==> 0 <= #[trigger] bits@[k] <= 16,
        decreases cells - j,
    {
        let n = need[j];
        let v: i32 = if n < bitslice + 2 {
            0
        } else if n - bitslice <= 16 {
            n - bitslice
        } else {
            16
        };
        proof {
            assert(v as int == spec_cell_bits(ns[j as int], t));
        }
        bits.push(v);
        j = j + 1;
    }
    proof {
        assert(to_ints(bits@) =~= spec_init_bits(ns, t));
        lemma_accum_above_max(ns, spec_max_need(ns));
        lemma_find_bitslice_props(ns, bitpool as int, spec_max_need(ns));
        lemma_sum_init_bits(ns, t);
        lemma_accum_bounds(ns, t);
    }
    let ghost state0 = (spec_init_bits(ns, t), spec_accum(ns, t));
    // First top-up pass.
    let mut j: usize = 0;
    while j < cells
        invariant
            j <= cells,
            cells == need@.len(),
            ns == to_ints(need@),
            1 <= cells <= 16,
            0 <= bitpool <= 16 * cells,
            interleaved ==> cells == 2 * subbands && subbands >= 1,
            !interleaved ==> cells == subbands,
            order == spec_scope_order(need@.len(), subbands as nat, interleaved),
            forall|k: int| 0 <= k < ns.len() ==> -6 <= #[trigger] ns[k] <= 15,
            forall|k: int| 0 <= k < need@.len() ==> -6 <= #[trigger] need@[k] <= 15,
            -22 <= bitslice <= 16,
            t == bitslice as int,
            bits@.len() == cells,
            to_ints(bits@) == spec_pass1(ns, t, bitpool as int, state0, order, j as nat).0,
            bitcount as int == spec_pass1(ns, t, bitpool as int, state0, order, j as nat).1,
            0 <= bitcount <= bitpool,
            forall|k: int| 0 <= k < cells ==> 0 <= #[trigger] bits@[k] <= 16,
        decreases cells - j,
    {
        let c: usize = if interleaved {
            if j % 2 == 1 {
                subbands + j / 2
            } else {
                j / 2
            }
        } else {
            j
        };
        proof {
            assert(order.len() == cells);
            if interleaved {
                assert(j / 2 < subbands) by (nonlinear_arith)
                    requires
                        j < 2 * subbands,
                ;
                assert(j % 2 == 0 || j % 2 == 1);
                assert(order[j as int] == (j as int % 2) * (subbands as nat) + j as int / 2);
                if j % 2 == 1 {
                    assert((j as int % 2) * (subbands as nat) == subbands) by (nonlinear_arith)
                        requires
                            j as int % 2 == 1,
                    ;
                } else {
                    assert((j as int % 2) * (subbands as nat) == 0) by (nonlinear_arith)
                        requires
                            j as int % 2 == 0,
                    ;
                }
            } else {
                assert(order[j as int] == j);
            }
            assert(c as int == order[j as int]);
            assert(c < cells);
        }
        let ghost prev = (to_ints(bits@), bitcount as int);
        let bc = bits[c];
        if bitcount < bitpool && bc >= 2 && bc < 16 {
            bits.set(c, bc + 1);
            bitcount = bitcount + 1;
        } else if bitcount < bitpool && !(bc >= 2 && bc < 16) && need[c] == bitslice + 1 && bitpool
            > bitcount + 1 {
            bits.set(c, 2);
            bitcount = bitcount + 2;
        }
        j = j + 1;
        proof {
            assert(to_ints(bits@) =~= spec_pass1_step(ns, t, bitpool as int, prev, c as int).0);
            assert(spec_pass1(ns, t, bitpool as int, state0, order, j as nat)
                == spec_pass1_step(ns, t, bitpool as int, prev, order[j - 1]));
        }
    }
    let ghost state1 = spec_pass1(ns, t, bitpool as int, state0, order, order.len());
    // Second top-up pass.
    let mut j: usize = 0;
    while j < cells
        invariant
            j <= cells,
            cells == need@.len(),
            ns == to_ints(need@),
            1 <= cells <= 16,
            0 <= bitpool <= 16 * cells,
            interleaved ==> cells == 2 * subbands && subbands >= 1,
            !interleaved ==> cells == subbands,
            order == spec_scope_order(need@.len(), subbands as nat, interleaved),
            state1 == spec_pass1(ns, t, bitpool as int, state0, order, order.len()),
            bits@.len() == cells,
            to_ints(bits@) == spec_pass2(bitpool as int, state1, order, j as nat).0,
            bitcount as int == spec_pass2(bitpool as int, state1, order, j as nat).1,
            0 <= bitcount <= bitpool,
            forall|k: int| 0 <= k < cells ==> 0 <= #[trigger] bits@[k] <= 16,
        decreases cells - j,
    {
        let c: usize = if interleaved {
            if j % 2 == 1 {
                subbands + j / 2
            } else {
                j / 2
            }
        } else {
            j
        };
        proof {
            assert(order.len() == cells);
            if interleaved {
                assert(j / 2 < subbands) by (nonlinear_arith)
                    requires
                        j < 2 * subbands,
                ;
                assert(j % 2 == 0 || j % 2 == 1);
                assert(order[j as int] == (j as int % 2) * (subbands as nat) + j as int / 2);
                if j % 2 == 1 {
                    assert((j as int % 2) * (subbands as nat) == subbands) by (nonlinear_arith)
                        requires
                            j as int % 2 == 1,
                    ;
                } else {
                    assert((j as int % 2) * (subbands as nat) == 0) by (nonlinear_arith)
                        requires
                            j as int % 2 == 0,
                    ;
                }
            } else {
                assert(order[j as int] == j);
            }
            assert(c as int == order[j as int]);
            assert(c < cells);
        }
        let ghost prev = (to_ints(bits@), bitcount as int);
        let bc = bits[c];
        if bitcount < bitpool && bc < 16 {
            bits.set(c, bc + 1);
            bitcount = bitcount + 1;
        }
        j = j + 1;
        proof {
            assert(to_ints(bits@) =~= spec_pass2_step(bitpool as int, prev, c as int).0);
            assert(spec_pass2(bitpool as int, state1, order, j as nat) == spec_pass2_step(
                bitpool as int,
                prev,
                order[j - 1],
            ));
        }
    }
    // Hand the widths out as bytes.
    let mut result: Vec<u8> = Vec::new();
    let mut j: usize = 0;
    while j < cells
        invariant
            j <= cells,
            cells == bits@.len(),
            result@.len() == j,
            forall|k: int| 0 <= k < cells ==> 0 <= #[trigger] bits@[k] <= 16,
            forall|k: int| 0 <= k < j ==> u8s_to_ints(result@)[k] == to_ints(bits@)[k],
            forall|k: int| 0 <= k < j ==> #[trigger] result@[k] <= 16,
        decreases cells - j,
    {
        result.push(bits[j] as u8);
        j = j + 1;
    }
    proof {
        assert(u8s_to_ints(result@) =~= to_ints(bits@));
        assert(to_ints(bits@) == spec_alloc_scope(ns, bitpool as int, order));
    }
    result
}


/// Compute the bit widths used to encode each sub-band sample of a frame,
/// from the header fields and the flat channel-major scale-factor matrix.
/// Every width lies between 0 and 16, and each scope's widths sum to no
/// more than the bitpool (see `lemma_calculate_bits_budget`).
pub fn calculate_bits(header: &SBCHeader, scale_factor: &Vec<u8>) -> (bits: Vec<u8>)
    requires
        scale_factor@.len() == spec_channels(spec_channel_mode_of(*header)) * spec_subbands_count(
            spec_subbands_of(*header),
        ),
        forall|i: int| 0 <= i < scale_factor@.len() ==> #[trigger] scale_factor@[i] < 16,
        spec_bitpool_in_range(*header),
    ensures
        u8s_to_ints(bits@) == spec_calculate_bits(*header, scale_factor@),
        bits@.len() == scale_factor@.len(),
        forall|i: int| 0 <= i < bits@.len() ==> #[trigger] bits@[i] <= 16,
{
    let subbands = header.subbands().subbands();
    let method = header.allocation_method();
    let freq = header.frequency();
    let bitpool = header.bitpool() as i32;
    match header.channel_mode() {
        ChannelMode::SBC_MODE_MONO => {
            let need = channel_bitneed(method, subbands, freq, scale_factor, 0);
            let out = alloc_scope(&need, bitpool, subbands, false);
            out
        },
        ChannelMode::SBC_MODE_DUAL_CHANNEL => {
            let need0 = channel_bitneed(method, subbands, freq, scale_factor, 0);
            let a0 = alloc_scope(&need0, bitpool, subbands, false);
            let need1 = channel_bitneed(method, subbands, freq, scale_factor, 1);
            let a1 = alloc_scope(&need1, bitpool, subbands, false);
            let ghost g0 = a0@;
            let ghost g1 = a1@;
            let mut out = a0;
            let mut tail = a1;
            out.append(&mut tail);
            proof {
                assert(out@ =~= g0 + g1);
                assert(u8s_to_ints(g0 + g1) =~= u8s_to_ints(g0) + u8s_to_ints(g1));
            }
            out
        },
        ChannelMode::SBC_MODE_STEREO | ChannelMode::SBC_MODE_JOINT_STEREO => {
            let need0 = channel_bitneed(method, subbands, freq, scale_factor, 0);
            let need1 = channel_bitneed(method, subbands, freq, scale_factor, 1);
            let ghost n0 = need0@;
            let ghost n1 = need1@;
            let mut need = need0;
            let mut tail = need1;
            need.append(&mut tail);
            proof {
                assert(need@ =~= n0 + n1);
                assert(to_ints(n0 + n1) =~= to_ints(n0) + to_ints(n1));
            }
            let out = alloc_scope(&need, bitpool, subbands, true);
            out
        },
    }
}

/// The bit allocation never spends more than the bitpool in any scope, nor
/// more than 16 bits on one cell: the total over a frame stays within one
/// bitpool for mono and the shared stereo modes, and within one bitpool per
/// channel for dual-channel.
pub proof fn lemma_calculate_bits_budget(h: SBCHeader, sf: Seq<u8>)
    requires
        sf.len() == spec_channels(spec_channel_mode_of(h)) * spec_subbands_count(
            spec_subbands_of(h),
        ),
        forall|i: int| 0 <= i < sf.len() ==> #[trigger] sf[i] < 16,
        spec_bitpool_in_range(h),
    ensures
        spec_calculate_bits(h, sf).len() == sf.len(),
        forall|i: int|
            0 <= i < sf.len() ==> 0 <= #[trigger] spec_calculate_bits(h, sf)[i] <= 16,
        spec_channel_mode_of(h) != ChannelMode::SBC_MODE_DUAL_CHANNEL ==> spec_sum(
            spec_calculate_bits(h, sf),
        ) <= spec_bitpool_of(h) as int,
        spec_channel_mode_of(h) == ChannelMode::SBC_MODE_DUAL_CHANNEL ==> spec_sum(
            spec_calculate_bits(h, sf).take(
                spec_subbands_count(spec_subbands_of(h)) as int,
            ),
        ) <= spec_bitpool_of(h) as int && spec_sum(
            spec_calculate_bits(h, sf).skip(
                spec_subbands_count(spec_subbands_of(h)) as int,
            ),
        ) <= spec_bitpool_of(h) as int,
{
    let subbands = spec_subbands_count(spec_subbands_of(h)) as int;
    let bitpool = spec_bitpool_of(h) as int;
    let method = spec_allocation_method_of(h);
    let f = spec_frequency_of(h);
    let order1 = spec_scope_order(subbands as nat, subbands as nat, false);
    assert(forall|j: int| 0 <= j < order1.len() ==> 0 <= #[trigger] order1[j] < subbands);
    match spec_channel_mode_of(h) {
        ChannelMode::SBC_MODE_MONO => {
            let need = spec_channel_need(method, subbands, f, sf, 0);
            lemma_alloc_scope_budget(need, bitpool, order1);
        },
        ChannelMode::SBC_MODE_DUAL_CHANNEL => {
            let need0 = spec_channel_need(method, subbands, f, sf, 0);
            let need1 = spec_channel_need(method, subbands, f, sf, 1);
            lemma_alloc_scope_budget(need0, bitpool, order1);
            lemma_alloc_scope_budget(need1, bitpool, order1);
            let a0 = spec_alloc_scope(need0, bitpool, order1);
            let a1 = spec_alloc_scope(need1, bitpool, order1);
            assert((a0 + a1).take(subbands) =~= a0);
            assert((a0 + a1).skip(subbands) =~= a1);
        },
        ChannelMode::SBC_MODE_STEREO | ChannelMode::SBC_MODE_JOINT_STEREO => {
            let need = spec_channel_need(method, subbands, f, sf, 0) + spec_channel_need(
                method,
                subbands,
                f,
                sf,
                1,
            );
            let order2 = spec_scope_order((2 * subbands) as nat, subbands as nat, true);
            assert(forall|j: int|
                0 <= j < order2.len() ==> 0 <= #[trigger] order2[j] < need.len()) by {
                assert forall|j: int|
                    0 <= j < order2.len() implies 0 <= #[trigger] order2[j] < need.len() by {
                    assert(order2[j] == (j % 2) * subbands + j / 2);
                    assert(j % 2 == 0 || j % 2 == 1);
                    assert(j / 2 < subbands);
                }
            }
            lemma_alloc_scope_budget(need, bitpool, order2);
        },
    }
}

} // verus!
