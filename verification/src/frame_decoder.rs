//! The per-frame decoder: validates the configuration and the optional
//! CRC-8, reads the joint-stereo bitmap and the scale factors, computes the
//! bit allocation once, and then lazily produces one PCM block per call
//! until the frame's block count is exhausted.

use vstd::prelude::*;

use vstd::arithmetic::power2::pow2;

use crate::crc::{crc8, spec_crc8};
use crate::filter_state::{spec_filter_output, spec_filter_step, FilterState};
use crate::header::{
    spec_channel_mode_of, spec_channels, spec_encode_array, spec_frame_blocks, spec_subbands_count,
    spec_subbands_of, ChannelMode, SBCHeader, MSBC_BLOCKS,
};
use crate::io::{lemma_read_bits_bound, spec_read_bits, BitInput, ByteError, ByteInput};
use crate::sbc::{calculate_bits, spec_bitpool_in_range, spec_calculate_bits, to_ints, u8s_to_ints};

verus! {

/// Why a frame failed to decode: the byte source ran dry, the frame's
/// blocks are exhausted, the header does not match the decoder's
/// configuration, or the checksum did not match.
#[derive(Debug)]
pub enum FrameDecodeError {
    ByteError(ByteError),
    NoBlock,
    SizeBed,
    CRCBed,
}

/// Result and next state of reading `count` 4-bit scale factors.
pub open spec fn spec_read_nibbles(bi: BitInput, rem: Seq<u8>, count: nat) -> Option<
    (Seq<u8>, BitInput, Seq<u8>),
>
    decreases count,
{
    if count == 0 {
        Some((Seq::empty(), bi, rem))
    } else {
        match spec_read_bits(bi, rem, 4) {
            Some(t) => match spec_read_nibbles(t.1, t.2, (count - 1) as nat) {
                Some(r) => Some((seq![t.0 as u8] + r.0, r.1, r.2)),
                None => None,
            },
            None => None,
        }
    }
}

/// Result of parsing a frame's side information from the bit stream: the
/// joint-stereo bitmap (zero unless the mode is joint stereo), the flat
/// channel-major scale-factor matrix, and the reader state and bytes left.
pub open spec fn spec_parse_frame(h: SBCHeader, rem: Seq<u8>) -> Option<
    (u8, Seq<u8>, BitInput, Seq<u8>),
> {
    let subbands = spec_subbands_count(spec_subbands_of(h)) as nat;
    let channels = spec_channels(spec_channel_mode_of(h)) as nat;
    let bi0 = BitInput { b: 0, o: 0 };
    let joint_read = if spec_channel_mode_of(h) == ChannelMode::SBC_MODE_JOINT_STEREO {
        spec_read_bits(bi0, rem, subbands)
    } else {
        Some((0, bi0, rem))
    };
    match joint_read {
        Some(j) => match spec_read_nibbles(j.1, j.2, channels * subbands) {
            Some(r) => Some((j.0 as u8, r.0, r.1, r.2)),
            None => None,
        },
        None => None,
    }
}

/// Dequantize a codeword of `w` bits under scale factor `sf`: recover a
/// signed value with two extra precision bits.
pub open spec fn spec_dequantize(c: int, w: int, sf: int) -> int
    recommends
        1 <= w <= 16,
        0 <= c < pow2(w as nat),
        0 <= sf < 16,
{
    let base = pow2((sf + 3) as nat) as int;
    ((2 * c + 1) * base) / (pow2(w as nat) - 1) - base
}

/// Result and next state of reading and dequantizing the codewords of the
/// cells from `idx` on: zero-width cells yield silence and consume nothing.
pub open spec fn spec_read_samples(
    widths: Seq<u8>,
    sfs: Seq<u8>,
    bi: BitInput,
    rem: Seq<u8>,
    idx: nat,
) -> Option<(Seq<int>, BitInput, Seq<u8>)>
    decreases widths.len() - idx,
{
    if idx >= widths.len() {
        Some((Seq::empty(), bi, rem))
    } else {
        let w = widths[idx as int] as int;
        if w == 0 {
            match spec_read_samples(widths, sfs, bi, rem, idx + 1) {
                Some(r) => Some((seq![0int] + r.0, r.1, r.2)),
                None => None,
            }
        } else {
            match spec_read_bits(bi, rem, w as nat) {
                Some(t) => match spec_read_samples(widths, sfs, t.1, t.2, idx + 1) {
                    Some(r) => Some(
                        (seq![spec_dequantize(t.0 as int, w, sfs[idx as int] as int)] + r.0, r.1, r.2),
                    ),
                    None => None,
                },
                None => None,
            }
        }
    }
}

/// Whether the joint-stereo bitmap selects sub-band `sb` for mid/side coding.
pub open spec fn spec_joint_bit(joint: u8, sb: int) -> bool {
    joint & (1u8 << (sb as u8)) != 0
}

/// Undo mid/side coding: in a two-channel frame, each sub-band the bitmap
/// selects replaces its pair (a, b) with (a + b, a - b).
pub open spec fn spec_apply_joint(
    samples: Seq<int>,
    joint: u8,
    channels: int,
    subbands: int,
) -> Seq<int> {
    if channels == 2 {
        Seq::new(
            samples.len(),
            |n: int|
                {
                    let sb = if n < subbands {
                        n
                    } else {
                        n - subbands
                    };
                    if spec_joint_bit(joint, sb) {
                        if n < subbands {
                            samples[n] + samples[n + subbands]
                        } else {
                            samples[n - subbands] - samples[n]
                        }
                    } else {
                        samples[n]
                    }
                },
        )
    } else {
        samples
    }
}

/// The nibble-packed bytes of a run of scale factors, two per byte,
/// even-indexed factor in the high nibble.
pub open spec fn spec_pack_nibbles(sf: Seq<u8>) -> Seq<u8> {
    Seq::new((sf.len() / 2) as nat, |i: int| (((sf[2 * i] & 0xF) << 4) | (sf[2 * i + 1] & 0xF)))
}

/// The frame checksum: a CRC-8 over the two header bytes after the sync
/// word, then (in joint-stereo mode) the bitmap's bits, then each channel's
/// scale factors packed two nibbles per byte.  The bitmap value carries its
/// bits right-aligned, and the bit-granular fold covers a byte's high bits,
/// so the bitmap is shifted up to the byte's top before it is folded.
pub open spec fn spec_frame_crc(h: SBCHeader, joint: u8, sf: Seq<u8>) -> u8 {
    let subbands = spec_subbands_count(spec_subbands_of(h)) as int;
    let channels = spec_channels(spec_channel_mode_of(h)) as int;
    let c0 = spec_crc8(0x0F, spec_encode_array(h).skip(1), 16);
    let c1 = if spec_channel_mode_of(h) == ChannelMode::SBC_MODE_JOINT_STEREO {
        spec_crc8(c0, seq![(joint << ((8 - subbands) as u8))], subbands as nat)
    } else {
        c0
    };
    let c2 = spec_crc8(c1, spec_pack_nibbles(sf.take(subbands)), (subbands * 4) as nat);
    if channels == 2 {
        spec_crc8(
            c2,
            spec_pack_nibbles(sf.subrange(subbands, 2 * subbands)),
            (subbands * 4) as nat,
        )
    } else {
        c2
    }
}

/// A frame decoder bound to one frame's side information: the joint-stereo
/// bitmap, the scale factors, the bit widths computed once at construction,
/// the bit-reader state within the frame's payload, and the count of
/// blocks still to produce.
pub struct FrameDecoder {
    pub joint: u8,
    pub scale_factor: Vec<u8>,
    pub bits: Vec<u8>,
    pub bit: BitInput,
    pub blocks: usize,
    pub channels: usize,
    pub subbands: usize,
}

impl FrameDecoder {
    /// A decoder's matrices match its configuration, its scale factors are
    /// nibbles, and its widths are at most 16 bits.
    pub open spec fn wf(self) -> bool {
        (self.channels == 1 || self.channels == 2) && (self.subbands == 4 || self.subbands == 8)
            && self.scale_factor@.len() == self.channels * self.subbands && self.bits@.len()
            == self.channels * self.subbands && self.bit.wf() && (forall|i: int|
            0 <= i < self.scale_factor@.len() ==> #[trigger] self.scale_factor@[i] < 16) && (
        forall|i: int| 0 <= i < self.bits@.len() ==> #[trigger] self.bits@[i] <= 16)
    }
}


impl FrameDecoder {
    /// One channel's scale factors packed two nibbles per byte, the
    /// even-indexed factor in the high nibble.
    fn pack_channel(&self, ch: usize) -> (result: Vec<u8>)
        requires
            self.wf(),
            ch < self.channels,
        ensures
            result@ == spec_pack_nibbles(
                self.scale_factor@.subrange(
                    ch * self.subbands as int,
                    ch * self.subbands + self.subbands,
                ),
            ),
            result@.len() == self.subbands / 2,
    {
        let subbands = self.subbands;
        let base = ch * subbands;
        let ghost slice = self.scale_factor@.subrange(base as int, base + subbands);
        proof {
            assert(base + subbands <= self.scale_factor@.len()) by (nonlinear_arith)
                requires
                    base == ch * subbands,
                    ch + 1 <= self.channels,
                    self.scale_factor@.len() == self.channels * subbands,
            ;
        }
        let mut packed: Vec<u8> = Vec::new();
        let mut i: usize = 0;
        while i < subbands / 2
            invariant
                i <= subbands / 2,
                subbands == self.subbands,
                subbands == 4 || subbands == 8,
                base == ch * subbands,
                base + subbands <= self.scale_factor@.len(),
                slice == self.scale_factor@.subrange(base as int, base + subbands),
                packed@.len() == i,
                forall|k: int| 0 <= k < i ==> packed@[k] == spec_pack_nibbles(slice)[k],
            decreases subbands / 2 - i,
        {
            let hi = self.scale_factor[base + 2 * i] & 0x0F;
            let lo = self.scale_factor[base + 2 * i + 1] & 0x0F;
            packed.push((hi << 4u8) | lo);
            i = i + 1;
        }
        proof {
            assert(packed@ =~= spec_pack_nibbles(slice));
        }
        packed
    }

    /// The checksum of this frame's side information under `header`.
    fn crc(&self, header: &SBCHeader) -> (result: u8)
        requires
            self.wf(),
            self.channels == spec_channels(spec_channel_mode_of(*header)),
            self.subbands == spec_subbands_count(spec_subbands_of(*header)),
        ensures
            result == spec_frame_crc(*header, self.joint, self.scale_factor@),
    {
        let subbands = self.subbands;
        let array = header.encode_array();
        let head = vec![array[1], array[2]];
        proof {
            assert(head@ =~= spec_encode_array(*header).skip(1));
        }
        let mut crc = crc8(0x0F, head.as_slice(), 16);
        if let ChannelMode::SBC_MODE_JOINT_STEREO = header.channel_mode() {
            let shift = 8 - subbands;
            let jbyte = self.joint << shift;
            let jb = vec![jbyte];
            proof {
                assert(jb@ =~= seq![self.joint << ((8 - subbands as int) as u8)]);
            }
            crc = crc8(crc, jb.as_slice(), subbands);
        }
        let ghost sf = self.scale_factor@;
        let p0 = self.pack_channel(0);
        proof {
            assert(sf.subrange(0, subbands as int) =~= sf.take(subbands as int));
        }
        crc = crc8(crc, p0.as_slice(), subbands * 4);
        if self.channels == 2 {
            let p1 = self.pack_channel(1);
            crc = crc8(crc, p1.as_slice(), subbands * 4);
        }
        crc
    }
}

impl FrameDecoder {
    /// Construct a frame decoder without reading or checking a checksum
    /// byte: validate the configuration against `decoder`, read the
    /// joint-stereo bitmap (joint-stereo mode only) and the scale factors,
    /// and compute the bit allocation once for the frame.
    pub fn new_no_crc<B: ByteInput>(
        header: &SBCHeader,
        decoder: &FilterState,
        input: &mut B,
    ) -> (result: Result<FrameDecoder, FrameDecodeError>)
        requires
            decoder.wf(),
            spec_bitpool_in_range(*header),
        ensures
            spec_channels(spec_channel_mode_of(*header)) != decoder@.channels
                || spec_subbands_count(spec_subbands_of(*header)) != decoder@.subbands ==> (result
                matches Err(e) && e is SizeBed && final(input).remaining() == old(
                input,
            ).remaining()),
            spec_channels(spec_channel_mode_of(*header)) == decoder@.channels
                && spec_subbands_count(spec_subbands_of(*header)) == decoder@.subbands ==> match
                spec_parse_frame(*header, old(input).remaining()) {
                Some(t) => result matches Ok(d) && d.wf() && d.joint == t.0 && d.scale_factor@
                    == t.1 && d.bit == t.2 && final(input).remaining() == t.3 && u8s_to_ints(
                    d.bits@,
                ) == spec_calculate_bits(*header, t.1) && d.blocks == spec_frame_blocks(*header)
                    && d.channels == decoder@.channels && d.subbands == decoder@.subbands,
                None => result matches Err(e) && e is ByteError,
            },
    {
        let channels = header.channel_mode().channels();
        let subbands = header.subbands().subbands();
        if channels != decoder.channels() || subbands != decoder.subbands() {
            return Err(FrameDecodeError::SizeBed);
        }
        let ghost rem0 = input.remaining();
        let mut bit = BitInput::new();
        let ghost bi0 = bit;
        let joint: u8 = if let ChannelMode::SBC_MODE_JOINT_STEREO = header.channel_mode() {
            match bit.read_u8(input, subbands) {
                Ok(j) => j,
                Err(_) => {
                    return Err(FrameDecodeError::ByteError(()));
                },
            }
        } else {
            0
        };
        let ghost rem1 = input.remaining();
        proof {
            if spec_channel_mode_of(*header) == ChannelMode::SBC_MODE_JOINT_STEREO {
                assert(spec_read_bits(bi0, rem0, subbands as nat) matches Some(t) ==> t.0
                    == joint as nat && t.1 == bit && t.2 == rem1);
            }
        }
        let cells = channels * subbands;
        let mut scale_factor: Vec<u8> = Vec::new();
        let mut i: usize = 0;
        proof {
            if let Some(r) = spec_read_nibbles(bit, input.remaining(), cells as nat) {
                assert(scale_factor@ + r.0 =~= r.0);
            }
        }
        loop
            invariant_except_break
                i <= cells,
                bit.wf(),
                cells == channels * subbands,
                channels == 1 || channels == 2,
                subbands == 4 || subbands == 8,
                channels == spec_channels(spec_channel_mode_of(*header)),
                subbands == spec_subbands_count(spec_subbands_of(*header)),
                channels == decoder@.channels,
                subbands == decoder@.subbands,
                scale_factor@.len() == i,
                forall|k: int| 0 <= k < i ==> #[trigger] scale_factor@[k] < 16,
                match spec_read_nibbles(bit, input.remaining(), (cells - i) as nat) {
                    Some(r) => spec_parse_frame(*header, rem0) == Some(
                        (joint, scale_factor@ + r.0, r.1, r.2),
                    ),
                    None => spec_parse_frame(*header, rem0) is None,
                },
                rem0 == old(input).remaining(),
            ensures
                bit.wf(),
                i == cells,
                scale_factor@.len() == cells,
                forall|k: int| 0 <= k < cells ==> #[trigger] scale_factor@[k] < 16,
                spec_parse_frame(*header, rem0) == Some(
                    (joint, scale_factor@, bit, input.remaining()),
                ),
                rem0 == old(input).remaining(),
            decreases cells - i,
        {
            if i == cells {
                proof {
                    assert(spec_read_nibbles(bit, input.remaining(), 0) == Some(
                        (Seq::<u8>::empty(), bit, input.remaining()),
                    ));
                    assert(scale_factor@ + Seq::<u8>::empty() =~= scale_factor@);
                }
                break ;
            }
            let ghost pre_bit = bit;
            let ghost pre_rem = input.remaining();
            let ghost pre_sf = scale_factor@;
            let nib = match bit.read_u8(input, 4) {
                Ok(v) => v,
                Err(_) => {
                    proof {
                        assert(spec_read_nibbles(pre_bit, pre_rem, (cells - i) as nat) is None);
                    }
                    return Err(FrameDecodeError::ByteError(()));
                },
            };
            proof {
                lemma_read_bits_bound(pre_bit, pre_rem, 4);
                vstd::arithmetic::power2::lemma2_to64();
                let t = spec_read_bits(pre_bit, pre_rem, 4).unwrap();
                assert(spec_read_nibbles(pre_bit, pre_rem, (cells - i) as nat) == match
                    spec_read_nibbles(t.1, t.2, (cells - i - 1) as nat) {
                    Some(r) => Some((seq![t.0 as u8] + r.0, r.1, r.2)),
                    None => None,
                });
            }
            scale_factor.push(nib);
            i = i + 1;
            proof {
                if let Some(r) = spec_read_nibbles(bit, input.remaining(), (cells - i) as nat) {
                    assert(pre_sf + (seq![nib] + r.0) =~= scale_factor@ + r.0);
                }
            }
        }
        let bits = calculate_bits(header, &scale_factor);
        let blocks = match header.blocks() {
            Some(b) => b.blocks(),
            None => MSBC_BLOCKS,
        };
        Ok(FrameDecoder { joint, scale_factor, bits, bit, blocks, channels, subbands })
    }

    /// Construct a frame decoder after reading and verifying the frame's
    /// CRC-8 byte: a mismatch rejects the frame with a checksum error.
    pub fn new<B: ByteInput>(
        header: &SBCHeader,
        decoder: &FilterState,
        input: &mut B,
    ) -> (result: Result<FrameDecoder, FrameDecodeError>)
        requires
            decoder.wf(),
            spec_bitpool_in_range(*header),
        ensures
            old(input).remaining().len() == 0 ==> (result matches Err(e) && e is ByteError),
            old(input).remaining().len() >= 1 && (spec_channels(spec_channel_mode_of(*header))
                != decoder@.channels || spec_subbands_count(spec_subbands_of(*header))
                != decoder@.subbands) ==> (result matches Err(e) && e is SizeBed),
            old(input).remaining().len() >= 1 && spec_channels(spec_channel_mode_of(*header))
                == decoder@.channels && spec_subbands_count(spec_subbands_of(*header))
                == decoder@.subbands ==> match spec_parse_frame(
                *header,
                old(input).remaining().skip(1),
            ) {
                Some(t) => {
                    &&& spec_frame_crc(*header, t.0, t.1) == old(input).remaining()[0]
                        ==> (result matches Ok(d) && d.wf() && d.joint == t.0 && d.scale_factor@
                        == t.1 && d.bit == t.2 && final(input).remaining() == t.3 && u8s_to_ints(
                        d.bits@,
                    ) == spec_calculate_bits(*header, t.1) && d.blocks == spec_frame_blocks(
                        *header,
                    ) && d.channels == decoder@.channels && d.subbands == decoder@.subbands)
                    &&& spec_frame_crc(*header, t.0, t.1) != old(input).remaining()[0]
                        ==> (result matches Err(e) && e is CRCBed)
                },
                None => result matches Err(e) && e is ByteError,
            },
    {
        let crc = match input.read_u8() {
            Ok(c) => c,
            Err(_) => {
                return Err(FrameDecodeError::ByteError(()));
            },
        };
        let s = match Self::new_no_crc(header, decoder, input) {
            Ok(s) => s,
            Err(e) => {
                return Err(e);
            },
        };
        if s.crc(header) == crc {
            Ok(s)
        } else {
            Err(FrameDecodeError::CRCBed)
        }
    }

    /// Construct a frame decoder, consuming the frame's CRC-8 byte without
    /// verifying it.
    pub fn new_skip_crc<B: ByteInput>(
        header: &SBCHeader,
        decoder: &FilterState,
        input: &mut B,
    ) -> (result: Result<FrameDecoder, FrameDecodeError>)
        requires
            decoder.wf(),
            spec_bitpool_in_range(*header),
        ensures
            old(input).remaining().len() == 0 ==> (result matches Err(e) && e is ByteError),
            old(input).remaining().len() >= 1 && (spec_channels(spec_channel_mode_of(*header))
                != decoder@.channels || spec_subbands_count(spec_subbands_of(*header))
                != decoder@.subbands) ==> (result matches Err(e) && e is SizeBed),
            old(input).remaining().len() >= 1 && spec_channels(spec_channel_mode_of(*header))
                == decoder@.channels && spec_subbands_count(spec_subbands_of(*header))
                == decoder@.subbands ==> match spec_parse_frame(
                *header,
                old(input).remaining().skip(1),
            ) {
                Some(t) => result matches Ok(d) && d.wf() && d.joint == t.0 && d.scale_factor@
                    == t.1 && d.bit == t.2 && final(input).remaining() == t.3 && u8s_to_ints(
                    d.bits@,
                ) == spec_calculate_bits(*header, t.1) && d.blocks == spec_frame_blocks(*header)
                    && d.channels == decoder@.channels && d.subbands == decoder@.subbands,
                None => result matches Err(e) && e is ByteError,
            },
    {
        let _crc = match input.read_u8() {
            Ok(c) => c,
            Err(_) => {
                return Err(FrameDecodeError::ByteError(()));
            },
        };
        Self::new_no_crc(header, decoder, input)
    }
}


proof fn lemma_zero_and(y: u8)
    by (bit_vector)
    ensures
        0u8 & y == 0,
{
}

/// Dequantize one codeword: scale-recoverable signed reconstruction with
/// two extra precision bits.
fn dequantize(c: u16, w: u8, sf: u8) -> (result: i32)
    requires
        1 <= w <= 16,
        sf < 16,
        (c as nat) < pow2(w as nat),
    ensures
        result as int == spec_dequantize(c as int, w as int, sf as int),
        -0x40000 <= result <= 0x80000,
{
    let shift: u64 = sf as u64 + 3;
    proof {
        vstd::arithmetic::power2::lemma2_to64();
        vstd::bits::lemma_u64_shl_is_mul(1u64, shift);
        vstd::bits::lemma_u64_shl_is_mul(1u64, w as u64);
        vstd::arithmetic::power2::lemma_pow2_pos(w as nat);
        vstd::arithmetic::power2::lemma_pow2_pos(shift as nat);
    }
    let base: u64 = 1u64 << shift;
    let denom: u64 = (1u64 << (w as u64)) - 1;
    proof {
        assert((2 * (c as int) + 1) * (base as int) <= 0x20_0000_0000) by (nonlinear_arith)
            requires
                c <= 0xFFFF,
                base <= 0x40000,
        ;
    }
    let numer: u64 = (2 * (c as u64) + 1) * base;
    let q: u64 = numer / denom;
    proof {
        assert(numer as int <= (denom as int) * (3 * base as int)) by (nonlinear_arith)
            requires
                numer == (2 * (c as int) + 1) * (base as int),
                c as int <= denom as int,
                denom >= 1,
                base >= 1,
        ;
        vstd::arithmetic::div_mod::lemma_div_is_ordered(
            numer as int,
            (denom as int) * (3 * base as int),
            denom as int,
        );
        vstd::arithmetic::div_mod::lemma_div_multiples_vanish(3 * base as int, denom as int);
        assert((denom as int) * (3 * base as int) == (3 * base as int) * (denom as int)) by (
        nonlinear_arith);
        assert(q <= 3 * base as int);
    }
    let r = (q as i64) - (base as i64);
    r as i32
}

impl FrameDecoder {
    /// Produce the frame's next PCM block: fail with `NoBlock` once the
    /// block count is exhausted, else read one codeword per cell with the
    /// widths computed at construction, dequantize, undo mid/side coding
    /// where the joint bitmap selects it, and run the block through the
    /// filter bank.
    pub fn next<B: ByteInput>(&mut self, decoder: &mut FilterState, input: &mut B) -> (result:
        Result<Vec<i16>, FrameDecodeError>)
        requires
            old(self).wf(),
            old(decoder).wf(),
            old(decoder)@.channels == old(self).channels,
            old(decoder)@.subbands == old(self).subbands,
        ensures
            final(self).wf(),
            final(decoder).wf(),
            final(self).channels == old(self).channels,
            final(self).subbands == old(self).subbands,
            final(self).scale_factor@ == old(self).scale_factor@,
            final(self).bits@ == old(self).bits@,
            final(self).joint == old(self).joint,
            old(self).blocks == 0 ==> (result matches Err(e) && e is NoBlock && *final(self)
                == *old(self) && *final(decoder) == *old(decoder) && final(input).remaining()
                == old(input).remaining()),
            old(self).blocks > 0 ==> final(self).blocks == old(self).blocks - 1,
            old(self).blocks > 0 ==> match spec_read_samples(
                old(self).bits@,
                old(self).scale_factor@,
                old(self).bit,
                old(input).remaining(),
                0,
            ) {
                Some(t) => result matches Ok(out) && out@ == spec_filter_output(
                    old(decoder)@,
                    spec_apply_joint(
                        t.0,
                        old(self).joint,
                        old(self).channels as int,
                        old(self).subbands as int,
                    ),
                ) && final(decoder)@ == spec_filter_step(
                    old(decoder)@,
                    spec_apply_joint(
                        t.0,
                        old(self).joint,
                        old(self).channels as int,
                        old(self).subbands as int,
                    ),
                ) && final(self).bit == t.1 && final(input).remaining() == t.2,
                None => (result matches Err(e) && e is ByteError && *final(decoder) == *old(
                    decoder,
                )),
            },
    {
        if self.blocks == 0 {
            return Err(FrameDecodeError::NoBlock);
        }
        self.blocks = self.blocks - 1;
        let channels = self.channels;
        let subbands = self.subbands;
        let cells = channels * subbands;
        let ghost widths = self.bits@;
        let ghost sfs = self.scale_factor@;
        let ghost rem0 = input.remaining();
        let ghost bit0 = self.bit;
        let mut sample: Vec<i32> = Vec::new();
        let mut i: usize = 0;
        proof {
            if let Some(r) = spec_read_samples(widths, sfs, self.bit, input.remaining(), 0) {
                assert(to_ints(sample@) + r.0 =~= r.0);
            }
        }
        loop
            invariant_except_break
                i <= cells,
                self.wf(),
                decoder.wf(),
                *decoder == *old(decoder),
                old(self).blocks > 0,
                self.blocks == old(self).blocks - 1,
                self.joint == old(self).joint,
                self.channels == old(self).channels,
                self.subbands == old(self).subbands,
                self.scale_factor@ == old(self).scale_factor@,
                self.bits@ == old(self).bits@,
                bit0 == old(self).bit,
                cells == channels * subbands,
                channels == self.channels,
                subbands == self.subbands,
                widths == self.bits@,
                sfs == self.scale_factor@,
                rem0 == old(input).remaining(),
                sample@.len() == i,
                forall|k: int|
                    0 <= k < i ==> -0x40000 <= #[trigger] sample@[k] <= 0x80000,
                match spec_read_samples(widths, sfs, self.bit, input.remaining(), i as nat) {
                    Some(r) => spec_read_samples(widths, sfs, bit0, rem0, 0) == Some(
                        (to_ints(sample@) + r.0, r.1, r.2),
                    ),
                    None => spec_read_samples(widths, sfs, bit0, rem0, 0) is None,
                },
            ensures
                self.wf(),
                decoder.wf(),
                *decoder == *old(decoder),
                old(self).blocks > 0,
                self.blocks == old(self).blocks - 1,
                self.joint == old(self).joint,
                self.channels == old(self).channels,
                self.subbands == old(self).subbands,
                self.scale_factor@ == old(self).scale_factor@,
                self.bits@ == old(self).bits@,
                bit0 == old(self).bit,
                i == cells,
                channels == self.channels,
                subbands == self.subbands,
                widths == self.bits@,
                sfs == self.scale_factor@,
                sample@.len() == cells,
                forall|k: int|
                    0 <= k < cells ==> -0x40000 <= #[trigger] sample@[k] <= 0x80000,
                spec_read_samples(widths, sfs, bit0, rem0, 0) == Some(
                    (to_ints(sample@), self.bit, input.remaining()),
                ),
            decreases cells - i,
        {
            if i == cells {
                proof {
                    assert(spec_read_samples(widths, sfs, self.bit, input.remaining(), cells as nat)
                        == Some(
                        (Seq::<int>::empty(), self.bit, input.remaining()),
                    ));
                    assert(to_ints(sample@) + Seq::<int>::empty() =~= to_ints(sample@));
                }
                break ;
            }
            let ghost pre_bit = self.bit;
            let ghost pre_rem = input.remaining();
            let ghost pre_samples = to_ints(sample@);
            let w = self.bits[i];
            if w == 0 {
                sample.push(0);
                i = i + 1;
                proof {
                    if let Some(r) = spec_read_samples(
                        widths,
                        sfs,
                        self.bit,
                        input.remaining(),
                        i as nat,
                    ) {
                        assert(pre_samples + (seq![0int] + r.0) =~= to_ints(sample@) + r.0);
                    }
                }
            } else {
                let c = match self.bit.read_u16(input, w as usize) {
                    Ok(v) => v,
                    Err(_) => {
                        proof {
                            assert(spec_read_samples(widths, sfs, pre_bit, pre_rem, i as nat)
                                is None);
                        }
                        return Err(FrameDecodeError::ByteError(()));
                    },
                };
                proof {
                    lemma_read_bits_bound(pre_bit, pre_rem, w as nat);
                }
                let v = dequantize(c, w, self.scale_factor[i]);
                sample.push(v);
                i = i + 1;
                proof {
                    let t = spec_read_bits(pre_bit, pre_rem, w as nat).unwrap();
                    if let Some(r) = spec_read_samples(
                        widths,
                        sfs,
                        self.bit,
                        input.remaining(),
                        i as nat,
                    ) {
                        assert(pre_samples + (seq![spec_dequantize(
                            t.0 as int,
                            w as int,
                            sfs[i - 1] as int,
                        )] + r.0) =~= to_ints(sample@) + r.0);
                    }
                }
            }
        }
        let ghost raw = to_ints(sample@);
        let joint_v = self.joint;
        if channels == 2 && joint_v != 0 {
            let ghost target = spec_apply_joint(raw, joint_v, 2, subbands as int);
            let mut sb: usize = 0;
            while sb < subbands
                invariant
                    sb <= subbands,
                    channels == 2,
                    cells == 2 * subbands,
                    subbands == 4 || subbands == 8,
                    sample@.len() == cells,
                    raw.len() == cells,
                    target == spec_apply_joint(raw, joint_v, 2, subbands as int),
                    forall|k: int| 0 <= k < cells ==> -0x40000 <= #[trigger] raw[k] <= 0x80000,
                    forall|k: int|
                        0 <= k < cells ==> -0x100000 <= #[trigger] sample@[k] <= 0x100000,
                    forall|n: int|
                        0 <= n < subbands && n < sb ==> sample@[n] as int == target[n],
                    forall|n: int|
                        subbands <= n < cells && n - subbands < sb ==> sample@[n] as int
                            == target[n],
                    forall|n: int|
                        0 <= n < subbands && n >= sb ==> sample@[n] as int == raw[n],
                    forall|n: int|
                        subbands <= n < cells && n - subbands >= sb ==> sample@[n] as int
                            == raw[n],
                decreases subbands - sb,
            {
                let ghost pre = sample@;
                if joint_v & (1u8 << sb) != 0 {
                    let a = sample[sb];
                    let b = sample[subbands + sb];
                    sample.set(sb, a + b);
                    sample.set(subbands + sb, a - b);
                    proof {
                        assert(spec_joint_bit(joint_v, sb as int));
                        assert(target[sb as int] == raw[sb as int] + raw[subbands + sb]);
                        assert(target[subbands + sb] == raw[sb as int] - raw[subbands + sb]);
                    }
                } else {
                    proof {
                        assert(!spec_joint_bit(joint_v, sb as int));
                        assert(target[sb as int] == raw[sb as int]);
                        assert(target[subbands + sb] == raw[subbands + sb]);
                    }
                }
                sb = sb + 1;
            }
            proof {
                assert forall|n: int| 0 <= n < cells implies sample@[n] as int == target[n] by {
                }
                assert(to_ints(sample@) =~= target);
            }
        } else {
            proof {
                if channels == 2 {
                    assert forall|n: int| 0 <= n < cells implies spec_apply_joint(
                        raw,
                        joint_v,
                        2,
                        subbands as int,
                    )[n] == raw[n] by {
                        let sbn = if n < subbands {
                            n
                        } else {
                            n - subbands
                        };
                        lemma_zero_and(1u8 << (sbn as u8));
                    }
                    assert(spec_apply_joint(raw, joint_v, 2, subbands as int) =~= raw);
                }
            }
        }
        let out = decoder.filter(&sample);
        Ok(out)
    }
}


/// A cell whose allocated width is zero always reconstructs to silence,
/// regardless of its scale factor, and consumes no bits.
pub proof fn lemma_zero_width_silent(
    widths: Seq<u8>,
    sfs: Seq<u8>,
    bi: BitInput,
    rem: Seq<u8>,
    idx: nat,
)
    requires
        idx < widths.len(),
        widths[idx as int] == 0,
    ensures
        spec_read_samples(widths, sfs, bi, rem, idx) matches Some(t) ==> t.0[0] == 0,
        spec_read_samples(widths, sfs, bi, rem, idx) == match spec_read_samples(
            widths,
            sfs,
            bi,
            rem,
            idx + 1,
        ) {
            Some(r) => Some((seq![0int] + r.0, r.1, r.2)),
            None => None,
        },
{
}

} // verus!
