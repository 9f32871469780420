//! The 2–3 byte SBC / mSBC frame header and its narrow-field enumerations.
//!
//! A header is either the fixed-parameter mSBC mode (16 kHz, 8 sub-bands,
//! mono, loudness allocation, bitpool 24, and a block count of 15 carried as
//! a separate constant) or the fully parameterized SBC mode whose second
//! byte packs frequency, block count, channel mode, allocation method and
//! sub-band count, with the bitpool in the third byte.

use vstd::prelude::*;

use crate::io::{ByteError, ByteInput, ByteOutput};

verus! {

/// Sync byte selecting the fully parameterized mode.
pub const SBC_SYNCWORD: u8 = 0x9C;

/// Sync byte selecting the fixed-parameter mode.
pub const MSBC_SYNCWORD: u8 = 0xAD;

/// Blocks per frame in the fixed-parameter mode (not carried in the header).
pub const MSBC_BLOCKS: usize = 15;

/// Sampling frequency, a 2-bit field.
#[allow(non_camel_case_types)]
#[derive(Default, Debug, Copy, Clone, PartialEq, Eq, Structural)]
pub enum Frequency {
    #[default]
    SBC_FREQ_16000,
    SBC_FREQ_32000,
    SBC_FREQ_44100,
    SBC_FREQ_48000,
}

/// The frequency field of packed header byte `i` (bits 7..6).
pub open spec fn spec_frequency_decode(i: u8) -> Frequency {
    if (i >> 6) & 3 == 0 {
        Frequency::SBC_FREQ_16000
    } else if (i >> 6) & 3 == 1 {
        Frequency::SBC_FREQ_32000
    } else if (i >> 6) & 3 == 2 {
        Frequency::SBC_FREQ_44100
    } else {
        Frequency::SBC_FREQ_48000
    }
}

/// The frequency field in packed position (bits 7..6).
pub open spec fn spec_frequency_encode(f: Frequency) -> u8 {
    match f {
        Frequency::SBC_FREQ_16000 => 0x00,
        Frequency::SBC_FREQ_32000 => 0x40,
        Frequency::SBC_FREQ_44100 => 0x80,
        Frequency::SBC_FREQ_48000 => 0xC0,
    }
}

impl Frequency {
    /// Extract the frequency field from packed header byte `i`.
    pub fn decode(i: u8) -> (result: Self)
        ensures
            result == spec_frequency_decode(i),
    {
        let f = (i >> 6u8) & 3;
        if f == 0 {
            Self::SBC_FREQ_16000
        } else if f == 1 {
            Self::SBC_FREQ_32000
        } else if f == 2 {
            Self::SBC_FREQ_44100
        } else {
            Self::SBC_FREQ_48000
        }
    }

    /// Place the frequency field in packed position.
    pub fn encode(self) -> (result: u8)
        ensures
            result == spec_frequency_encode(self),
    {
        match self {
            Self::SBC_FREQ_16000 => 0x00,
            Self::SBC_FREQ_32000 => 0x40,
            Self::SBC_FREQ_44100 => 0x80,
            Self::SBC_FREQ_48000 => 0xC0,
        }
    }

    /// The sampling rate in Hertz.
    pub fn frequency(self) -> (result: u16)
        ensures
            result == match self {
                Self::SBC_FREQ_16000 => 16000u16,
                Self::SBC_FREQ_32000 => 32000u16,
                Self::SBC_FREQ_44100 => 44100u16,
                Self::SBC_FREQ_48000 => 48000u16,
            },
    {
        match self {
            Self::SBC_FREQ_16000 => 16000,
            Self::SBC_FREQ_32000 => 32000,
            Self::SBC_FREQ_44100 => 44100,
            Self::SBC_FREQ_48000 => 48000,
        }
    }
}

/// Blocks per frame, a 2-bit field.
#[allow(non_camel_case_types)]
#[derive(Default, Debug, Copy, Clone, PartialEq, Eq, Structural)]
pub enum Blocks {
    #[default]
    SBC_BLK_4,
    SBC_BLK_8,
    SBC_BLK_12,
    SBC_BLK_16,
}

/// The block-count field of packed header byte `i` (bits 5..4).
pub open spec fn spec_blocks_decode(i: u8) -> Blocks {
    if (i >> 4) & 3 == 0 {
        Blocks::SBC_BLK_4
    } else if (i >> 4) & 3 == 1 {
        Blocks::SBC_BLK_8
    } else if (i >> 4) & 3 == 2 {
        Blocks::SBC_BLK_12
    } else {
        Blocks::SBC_BLK_16
    }
}

/// The block-count field in packed position (bits 5..4).
pub open spec fn spec_blocks_encode(b: Blocks) -> u8 {
    match b {
        Blocks::SBC_BLK_4 => 0x00,
        Blocks::SBC_BLK_8 => 0x10,
        Blocks::SBC_BLK_12 => 0x20,
        Blocks::SBC_BLK_16 => 0x30,
    }
}

/// The number of blocks a `Blocks` value stands for.
pub open spec fn spec_blocks_count(b: Blocks) -> usize {
    match b {
        Blocks::SBC_BLK_4 => 4usize,
        Blocks::SBC_BLK_8 => 8usize,
        Blocks::SBC_BLK_12 => 12usize,
        Blocks::SBC_BLK_16 => 16usize,
    }
}

impl Blocks {
    /// Extract the block-count field from packed header byte `i`.
    pub fn decode(i: u8) -> (result: Self)
        ensures
            result == spec_blocks_decode(i),
    {
        let f = (i >> 4u8) & 3;
        if f == 0 {
            Self::SBC_BLK_4
        } else if f == 1 {
            Self::SBC_BLK_8
        } else if f == 2 {
            Self::SBC_BLK_12
        } else {
            Self::SBC_BLK_16
        }
    }

    /// Place the block-count field in packed position.
    pub fn encode(self) -> (result: u8)
        ensures
            result == spec_blocks_encode(self),
    {
        match self {
            Self::SBC_BLK_4 => 0x00,
            Self::SBC_BLK_8 => 0x10,
            Self::SBC_BLK_12 => 0x20,
            Self::SBC_BLK_16 => 0x30,
        }
    }

    /// The number of blocks per frame.
    pub fn blocks(self) -> (result: usize)
        ensures
            result == spec_blocks_count(self),
    {
        match self {
            Blocks::SBC_BLK_4 => 4,
            Blocks::SBC_BLK_8 => 8,
            Blocks::SBC_BLK_12 => 12,
            Blocks::SBC_BLK_16 => 16,
        }
    }
}

/// Channel mode, a 2-bit field.
#[allow(non_camel_case_types)]
#[derive(Default, Debug, Copy, Clone, PartialEq, Eq, Structural)]
pub enum ChannelMode {
    #[default]
    SBC_MODE_MONO,
    SBC_MODE_DUAL_CHANNEL,
    SBC_MODE_STEREO,
    SBC_MODE_JOINT_STEREO,
}

/// The channel-mode field of packed header byte `i` (bits 3..2).
pub open spec fn spec_channel_mode_decode(i: u8) -> ChannelMode {
    if (i >> 2) & 3 == 0 {
        ChannelMode::SBC_MODE_MONO
    } else if (i >> 2) & 3 == 1 {
        ChannelMode::SBC_MODE_DUAL_CHANNEL
    } else if (i >> 2) & 3 == 2 {
        ChannelMode::SBC_MODE_STEREO
    } else {
        ChannelMode::SBC_MODE_JOINT_STEREO
    }
}

/// The channel-mode field in packed position (bits 3..2).
pub open spec fn spec_channel_mode_encode(m: ChannelMode) -> u8 {
    match m {
        ChannelMode::SBC_MODE_MONO => 0x0,
        ChannelMode::SBC_MODE_DUAL_CHANNEL => 0x4,
        ChannelMode::SBC_MODE_STEREO => 0x8,
        ChannelMode::SBC_MODE_JOINT_STEREO => 0xC,
    }
}

/// How many channels a mode carries: one for mono, two otherwise.
pub open spec fn spec_channels(m: ChannelMode) -> usize {
    match m {
        ChannelMode::SBC_MODE_MONO => 1usize,
        ChannelMode::SBC_MODE_DUAL_CHANNEL => 2usize,
        ChannelMode::SBC_MODE_STEREO => 2usize,
        ChannelMode::SBC_MODE_JOINT_STEREO => 2usize,
    }
}

impl ChannelMode {
    /// Extract the channel-mode field from packed header byte `i`.
    pub fn decode(i: u8) -> (result: Self)
        ensures
            result == spec_channel_mode_decode(i),
    {
        let f = (i >> 2u8) & 3;
        if f == 0 {
            Self::SBC_MODE_MONO
        } else if f == 1 {
            Self::SBC_MODE_DUAL_CHANNEL
        } else if f == 2 {
            Self::SBC_MODE_STEREO
        } else {
            Self::SBC_MODE_JOINT_STEREO
        }
    }

    /// Place the channel-mode field in packed position.
    pub fn encode(self) -> (result: u8)
        ensures
            result == spec_channel_mode_encode(self),
    {
        match self {
            Self::SBC_MODE_MONO => 0x0,
            Self::SBC_MODE_DUAL_CHANNEL => 0x4,
            Self::SBC_MODE_STEREO => 0x8,
            Self::SBC_MODE_JOINT_STEREO => 0xC,
        }
    }

    /// The number of audio channels coded under this mode.
    pub fn channels(self) -> (result: usize)
        ensures
            result == spec_channels(self),
    {
        match self {
            Self::SBC_MODE_MONO => 1,
            Self::SBC_MODE_DUAL_CHANNEL => 2,
            Self::SBC_MODE_STEREO => 2,
            Self::SBC_MODE_JOINT_STEREO => 2,
        }
    }
}

/// Bit-allocation method, a 1-bit field.
#[allow(non_camel_case_types)]
#[derive(Default, Debug, Copy, Clone, PartialEq, Eq, Structural)]
pub enum AllocationMethod {
    #[default]
    SBC_AM_LOUDNESS,
    SBC_AM_SNR,
}

/// The allocation-method field of packed header byte `i` (bit 1).
pub open spec fn spec_allocation_method_decode(i: u8) -> AllocationMethod {
    if (i >> 1) & 1 == 0 {
        AllocationMethod::SBC_AM_LOUDNESS
    } else {
        AllocationMethod::SBC_AM_SNR
    }
}

/// The allocation-method field in packed position (bit 1).
pub open spec fn spec_allocation_method_encode(m: AllocationMethod) -> u8 {
    match m {
        AllocationMethod::SBC_AM_LOUDNESS => 0x0,
        AllocationMethod::SBC_AM_SNR => 0x2,
    }
}

impl AllocationMethod {
    /// Extract the allocation-method field from packed header byte `i`.
    pub fn decode(i: u8) -> (result: Self)
        ensures
            result == spec_allocation_method_decode(i),
    {
        if (i >> 1u8) & 1 == 0 {
            Self::SBC_AM_LOUDNESS
        } else {
            Self::SBC_AM_SNR
        }
    }

    /// Place the allocation-method field in packed position.
    pub fn encode(self) -> (result: u8)
        ensures
            result == spec_allocation_method_encode(self),
    {
        match self {
            Self::SBC_AM_LOUDNESS => 0x0,
            Self::SBC_AM_SNR => 0x2,
        }
    }
}

/// Sub-band count, a 1-bit field.
#[allow(non_camel_case_types)]
#[derive(Default, Debug, Copy, Clone, PartialEq, Eq, Structural)]
pub enum Subbands {
    #[default]
    SBC_SB_4,
    SBC_SB_8,
}

/// The sub-band field of packed header byte `i` (bit 0).
pub open spec fn spec_subbands_decode(i: u8) -> Subbands {
    if i & 1 == 0 {
        Subbands::SBC_SB_4
    } else {
        Subbands::SBC_SB_8
    }
}

/// The sub-band field in packed position (bit 0).
pub open spec fn spec_subbands_encode(s: Subbands) -> u8 {
    match s {
        Subbands::SBC_SB_4 => 0x0,
        Subbands::SBC_SB_8 => 0x1,
    }
}

/// The number of sub-bands a `Subbands` value stands for.
pub open spec fn spec_subbands_count(s: Subbands) -> usize {
    match s {
        Subbands::SBC_SB_4 => 4usize,
        Subbands::SBC_SB_8 => 8usize,
    }
}

impl Subbands {
    /// Extract the sub-band field from packed header byte `i`.
    pub fn decode(i: u8) -> (result: Self)
        ensures
            result == spec_subbands_decode(i),
    {
        if i & 1 == 0 {
            Self::SBC_SB_4
        } else {
            Self::SBC_SB_8
        }
    }

    /// Place the sub-band field in packed position.
    pub fn encode(self) -> (result: u8)
        ensures
            result == spec_subbands_encode(self),
    {
        match self {
            Self::SBC_SB_4 => 0x0,
            Self::SBC_SB_8 => 0x1,
        }
    }

    /// The number of sub-bands per channel.
    pub fn subbands(self) -> (result: usize)
        ensures
            result == spec_subbands_count(self),
    {
        match self {
            Subbands::SBC_SB_4 => 4,
            Subbands::SBC_SB_8 => 8,
        }
    }
}

/// A frame header: the fixed-parameter mode, or the fully parameterized one.
#[derive(Default, Debug, Copy, Clone, PartialEq, Eq, Structural)]
pub enum SBCHeader {
    #[default]
    MSBC,
    SBC {
        frequency: Frequency,
        blocks: Blocks,
        channel_mode: ChannelMode,
        allocation_method: AllocationMethod,
        subbands: Subbands,
        bitpool: u8,
    },
}

/// The packed second header byte of the parameterized mode.
pub open spec fn spec_pack_fields(
    frequency: Frequency,
    blocks: Blocks,
    channel_mode: ChannelMode,
    allocation_method: AllocationMethod,
    subbands: Subbands,
) -> u8 {
    (spec_frequency_encode(frequency) | spec_blocks_encode(blocks) | spec_channel_mode_encode(
        channel_mode,
    ) | spec_allocation_method_encode(allocation_method) | spec_subbands_encode(subbands)) as u8
}

/// The three bytes a header encodes to.
pub open spec fn spec_encode_array(h: SBCHeader) -> Seq<u8> {
    match h {
        SBCHeader::MSBC => seq![MSBC_SYNCWORD, 0u8, 0u8],
        SBCHeader::SBC { frequency, blocks, channel_mode, allocation_method, subbands, bitpool } => seq![
            SBC_SYNCWORD,
            spec_pack_fields(frequency, blocks, channel_mode, allocation_method, subbands),
            bitpool,
        ],
    }
}

/// The header three bytes decode to, or `None` on an unrecognized sync word.
pub open spec fn spec_decode_array(a: Seq<u8>) -> Option<SBCHeader>
    recommends
        a.len() == 3,
{
    if a[0] == SBC_SYNCWORD {
        Some(
            SBCHeader::SBC {
                frequency: spec_frequency_decode(a[1]),
                blocks: spec_blocks_decode(a[1]),
                channel_mode: spec_channel_mode_decode(a[1]),
                allocation_method: spec_allocation_method_decode(a[1]),
                subbands: spec_subbands_decode(a[1]),
                bitpool: a[2],
            },
        )
    } else if a[0] == MSBC_SYNCWORD {
        Some(SBCHeader::MSBC)
    } else {
        None
    }
}


/// The frequency a header carries: 16 kHz in the fixed-parameter mode.
pub open spec fn spec_frequency_of(h: SBCHeader) -> Frequency {
    match h {
        SBCHeader::MSBC => Frequency::SBC_FREQ_16000,
        SBCHeader::SBC { frequency, .. } => frequency,
    }
}

/// The channel mode a header carries: mono in the fixed-parameter mode.
pub open spec fn spec_channel_mode_of(h: SBCHeader) -> ChannelMode {
    match h {
        SBCHeader::MSBC => ChannelMode::SBC_MODE_MONO,
        SBCHeader::SBC { channel_mode, .. } => channel_mode,
    }
}

/// The sub-band count a header carries: eight in the fixed-parameter mode.
pub open spec fn spec_subbands_of(h: SBCHeader) -> Subbands {
    match h {
        SBCHeader::MSBC => Subbands::SBC_SB_8,
        SBCHeader::SBC { subbands, .. } => subbands,
    }
}

/// The block-count field a header carries, absent in the fixed-parameter mode.
pub open spec fn spec_blocks_of(h: SBCHeader) -> Option<Blocks> {
    match h {
        SBCHeader::MSBC => None,
        SBCHeader::SBC { blocks, .. } => Some(blocks),
    }
}

/// The allocation method a header carries: loudness in the fixed-parameter mode.
pub open spec fn spec_allocation_method_of(h: SBCHeader) -> AllocationMethod {
    match h {
        SBCHeader::MSBC => AllocationMethod::SBC_AM_LOUDNESS,
        SBCHeader::SBC { allocation_method, .. } => allocation_method,
    }
}

/// The bitpool a header carries: 24 in the fixed-parameter mode.
pub open spec fn spec_bitpool_of(h: SBCHeader) -> u8 {
    match h {
        SBCHeader::MSBC => 24u8,
        SBCHeader::SBC { bitpool, .. } => bitpool,
    }
}

/// The number of blocks a frame under this header holds: the block-count
/// field, or the fixed-parameter constant.
pub open spec fn spec_frame_blocks(h: SBCHeader) -> usize {
    match spec_blocks_of(h) {
        Some(b) => spec_blocks_count(b),
        None => MSBC_BLOCKS,
    }
}

impl SBCHeader {
    /// Decode a header from three raw bytes; `None` on an unrecognized sync word.
    pub fn decode_array(array: &[u8; 3]) -> (result: Option<Self>)
        ensures
            result == spec_decode_array(array@),
    {
        if array[0] == SBC_SYNCWORD {
            Some(
                Self::SBC {
                    frequency: Frequency::decode(array[1]),
                    blocks: Blocks::decode(array[1]),
                    channel_mode: ChannelMode::decode(array[1]),
                    allocation_method: AllocationMethod::decode(array[1]),
                    subbands: Subbands::decode(array[1]),
                    bitpool: array[2],
                },
            )
        } else if array[0] == MSBC_SYNCWORD {
            Some(Self::MSBC)
        } else {
            None
        }
    }

    /// Encode a header to its three raw bytes.
    pub fn encode_array(&self) -> (result: [u8; 3])
        ensures
            result@ == spec_encode_array(*self),
    {
        match *self {
            SBCHeader::MSBC => {
                let r = [MSBC_SYNCWORD, 0, 0];
                proof {
                    assert(r@ =~= spec_encode_array(*self));
                }
                r
            },
            SBCHeader::SBC { frequency, blocks, channel_mode, allocation_method, subbands, bitpool } => {
                let packed = frequency.encode() | blocks.encode() | channel_mode.encode()
                    | allocation_method.encode() | subbands.encode();
                let r = [SBC_SYNCWORD, packed, bitpool];
                proof {
                    assert(r@ =~= spec_encode_array(*self));
                }
                r
            },
        }
    }

    /// Read and decode a three-byte header from a byte source.
    pub fn decode<B: ByteInput>(input: &mut B) -> (result: Result<Self, ByteError>)
        ensures
            result is Ok <==> old(input).remaining().len() >= 3 && spec_decode_array(
                old(input).remaining().take(3),
            ) is Some,
            result matches Ok(h) ==> Some(h) == spec_decode_array(old(input).remaining().take(3))
                && final(input).remaining() == old(input).remaining().skip(3),
            result is Err && old(input).remaining().len() < 3 ==> final(input).remaining() == old(
                input,
            ).remaining(),
            result is Err && old(input).remaining().len() >= 3 ==> final(input).remaining() == old(
                input,
            ).remaining().skip(3),
    {
        let data = match input.read(3) {
            Ok(v) => v,
            Err(e) => {
                return Err(e);
            },
        };
        let array = [data[0], data[1], data[2]];
        proof {
            assert(array@ =~= old(input).remaining().take(3));
        }
        match Self::decode_array(&array) {
            Some(h) => Ok(h),
            None => Err(()),
        }
    }

    /// Encode a header and write its three bytes to a byte sink.
    pub fn encode<B: ByteOutput>(&self, output: &mut B) -> (result: Result<(), ByteError>)
        ensures
            result is Ok ==> final(output).written() == old(output).written() + spec_encode_array(
                *self,
            ).take(vstd::math::min(3, old(output).room() as int)),
            result is Err ==> final(output).written() == old(output).written(),
    {
        let array = self.encode_array();
        output.write(vstd::array::array_as_slice(&array))
    }

    /// The frequency: 16 kHz in the fixed-parameter mode.
    pub fn frequency(&self) -> (result: Frequency)
        ensures
            result == spec_frequency_of(*self),
    {
        match *self {
            SBCHeader::MSBC => Frequency::SBC_FREQ_16000,
            SBCHeader::SBC { frequency, .. } => frequency,
        }
    }

    /// The channel mode: mono in the fixed-parameter mode.
    pub fn channel_mode(&self) -> (result: ChannelMode)
        ensures
            result == spec_channel_mode_of(*self),
    {
        match *self {
            SBCHeader::MSBC => ChannelMode::SBC_MODE_MONO,
            SBCHeader::SBC { channel_mode, .. } => channel_mode,
        }
    }

    /// The sub-band count: eight in the fixed-parameter mode.
    pub fn subbands(&self) -> (result: Subbands)
        ensures
            result == spec_subbands_of(*self),
    {
        match *self {
            SBCHeader::MSBC => Subbands::SBC_SB_8,
            SBCHeader::SBC { subbands, .. } => subbands,
        }
    }

    /// The block-count field: absent in the fixed-parameter mode, whose
    /// block count is the separate constant `MSBC_BLOCKS`.
    pub fn blocks(&self) -> (result: Option<Blocks>)
        ensures
            result == spec_blocks_of(*self),
    {
        match *self {
            SBCHeader::MSBC => None,
            SBCHeader::SBC { blocks, .. } => Some(blocks),
        }
    }

    /// The allocation method: loudness in the fixed-parameter mode.
    pub fn allocation_method(&self) -> (result: AllocationMethod)
        ensures
            result == spec_allocation_method_of(*self),
    {
        match *self {
            SBCHeader::MSBC => AllocationMethod::SBC_AM_LOUDNESS,
            SBCHeader::SBC { allocation_method, .. } => allocation_method,
        }
    }

    /// The bitpool: 24 in the fixed-parameter mode.
    pub fn bitpool(&self) -> (result: u8)
        ensures
            result == spec_bitpool_of(*self),
    {
        match *self {
            SBCHeader::MSBC => 24,
            SBCHeader::SBC { bitpool, .. } => bitpool,
        }
    }
}

/// Encoding then decoding gives back the header, for every header of either
/// mode: the three encoded bytes always decode to `Some` of that header.
pub proof fn lemma_header_round_trip(h: SBCHeader)
    ensures
        spec_decode_array(spec_encode_array(h)) == Some(h),
{
    match h {
        SBCHeader::MSBC => {
        },
        SBCHeader::SBC { frequency, blocks, channel_mode, allocation_method, subbands, bitpool } => {
            let packed = spec_pack_fields(
                frequency,
                blocks,
                channel_mode,
                allocation_method,
                subbands,
            );
            let ff = spec_frequency_encode(frequency);
            let bb = spec_blocks_encode(blocks);
            let cc = spec_channel_mode_encode(channel_mode);
            let aa = spec_allocation_method_encode(allocation_method);
            let ss = spec_subbands_encode(subbands);
            assert(ff == 0x00 || ff == 0x40 || ff == 0x80 || ff == 0xC0);
            assert(bb == 0x00 || bb == 0x10 || bb == 0x20 || bb == 0x30);
            assert(cc == 0x0 || cc == 0x4 || cc == 0x8 || cc == 0xC);
            assert(aa == 0x0 || aa == 0x2);
            assert(ss == 0x0 || ss == 0x1);
            assert((packed >> 6) & 3 == 0 <==> ff == 0x00) by (bit_vector)
                requires packed == (ff | bb | cc | aa | ss) as u8,
                    (ff == 0x00 || ff == 0x40 || ff == 0x80 || ff == 0xC0) && (bb == 0x00 || bb == 0x10 || bb == 0x20 || bb == 0x30) && (cc == 0x0 || cc == 0x4 || cc == 0x8 || cc == 0xC) && (aa == 0x0 || aa == 0x2) && (ss == 0x0 || ss == 0x1),
            ;
            assert(((packed >> 6) & 3 == 1 <==> ff == 0x40) && ((packed >> 6) & 3 == 2 <==> ff
                == 0x80) && ((packed >> 6) & 3 == 3 <==> ff == 0xC0)) by (bit_vector)
                requires packed == (ff | bb | cc | aa | ss) as u8,
                    (ff == 0x00 || ff == 0x40 || ff == 0x80 || ff == 0xC0) && (bb == 0x00 || bb == 0x10 || bb == 0x20 || bb == 0x30) && (cc == 0x0 || cc == 0x4 || cc == 0x8 || cc == 0xC) && (aa == 0x0 || aa == 0x2) && (ss == 0x0 || ss == 0x1),
            ;
            assert(((packed >> 4) & 3 == 0 <==> bb == 0x00) && ((packed >> 4) & 3 == 1 <==> bb
                == 0x10) && ((packed >> 4) & 3 == 2 <==> bb == 0x20) && ((packed >> 4) & 3 == 3
                <==> bb == 0x30)) by (bit_vector)
                requires packed == (ff | bb | cc | aa | ss) as u8,
                    (ff == 0x00 || ff == 0x40 || ff == 0x80 || ff == 0xC0) && (bb == 0x00 || bb == 0x10 || bb == 0x20 || bb == 0x30) && (cc == 0x0 || cc == 0x4 || cc == 0x8 || cc == 0xC) && (aa == 0x0 || aa == 0x2) && (ss == 0x0 || ss == 0x1),
            ;
            assert(((packed >> 2) & 3 == 0 <==> cc == 0x0) && ((packed >> 2) & 3 == 1 <==> cc
                == 0x4) && ((packed >> 2) & 3 == 2 <==> cc == 0x8) && ((packed >> 2) & 3 == 3 <==>
                cc == 0xC)) by (bit_vector)
                requires packed == (ff | bb | cc | aa | ss) as u8,
                    (ff == 0x00 || ff == 0x40 || ff == 0x80 || ff == 0xC0) && (bb == 0x00 || bb == 0x10 || bb == 0x20 || bb == 0x30) && (cc == 0x0 || cc == 0x4 || cc == 0x8 || cc == 0xC) && (aa == 0x0 || aa == 0x2) && (ss == 0x0 || ss == 0x1),
            ;
            assert(((packed >> 1) & 1 == 0 <==> aa == 0x0) && (packed & 1 == 0 <==> ss == 0x0))
                by (bit_vector)
                requires packed == (ff | bb | cc | aa | ss) as u8,
                    (ff == 0x00 || ff == 0x40 || ff == 0x80 || ff == 0xC0) && (bb == 0x00 || bb == 0x10 || bb == 0x20 || bb == 0x30) && (cc == 0x0 || cc == 0x4 || cc == 0x8 || cc == 0xC) && (aa == 0x0 || aa == 0x2) && (ss == 0x0 || ss == 0x1),
            ;
            assert(spec_frequency_decode(packed) == frequency);
            assert(spec_blocks_decode(packed) == blocks);
            assert(spec_channel_mode_decode(packed) == channel_mode);
            assert(spec_allocation_method_decode(packed) == allocation_method);
            assert(spec_subbands_decode(packed) == subbands);
        },
    }
}

} // verus!
