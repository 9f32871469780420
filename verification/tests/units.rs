//! Unit tests: header field codecs and accessors, CRC-8 values, the
//! MSB-first bit reader, byte sinks, rounding helpers, exact bit
//! allocations, and filter-bank silence.

use sbc_decoder::crc::crc8;
use sbc_decoder::filter_state::FilterState;
use sbc_decoder::header::{
    AllocationMethod, Blocks, ChannelMode, Frequency, SBCHeader, Subbands, MSBC_BLOCKS,
};
use sbc_decoder::helper::{round32, round64, saturating_i16, saturating_i16_from_i64};
use sbc_decoder::io::{BitInput, ByteCursor, ByteInput, ByteOutput, ByteSink};
use sbc_decoder::sbc::{calculate_bits, loudness_offset};

#[test]
fn header_field_codecs_round_trip() {
    for f in [
        Frequency::SBC_FREQ_16000,
        Frequency::SBC_FREQ_32000,
        Frequency::SBC_FREQ_44100,
        Frequency::SBC_FREQ_48000,
    ] {
        assert_eq!(Frequency::decode(f.encode()), f);
    }
    for b in [
        Blocks::SBC_BLK_4,
        Blocks::SBC_BLK_8,
        Blocks::SBC_BLK_12,
        Blocks::SBC_BLK_16,
    ] {
        assert_eq!(Blocks::decode(b.encode()), b);
    }
    for m in [
        ChannelMode::SBC_MODE_MONO,
        ChannelMode::SBC_MODE_DUAL_CHANNEL,
        ChannelMode::SBC_MODE_STEREO,
        ChannelMode::SBC_MODE_JOINT_STEREO,
    ] {
        assert_eq!(ChannelMode::decode(m.encode()), m);
    }
    for a in [AllocationMethod::SBC_AM_LOUDNESS, AllocationMethod::SBC_AM_SNR] {
        assert_eq!(AllocationMethod::decode(a.encode()), a);
    }
    for s in [Subbands::SBC_SB_4, Subbands::SBC_SB_8] {
        assert_eq!(Subbands::decode(s.encode()), s);
    }
    assert_eq!(Frequency::SBC_FREQ_44100.frequency(), 44100);
    assert_eq!(Blocks::SBC_BLK_12.blocks(), 12);
    assert_eq!(ChannelMode::SBC_MODE_JOINT_STEREO.channels(), 2);
    assert_eq!(Subbands::SBC_SB_8.subbands(), 8);
}

#[test]
fn header_round_trip_both_modes() {
    let full = SBCHeader::SBC {
        frequency: Frequency::SBC_FREQ_44100,
        blocks: Blocks::SBC_BLK_12,
        channel_mode: ChannelMode::SBC_MODE_JOINT_STEREO,
        allocation_method: AllocationMethod::SBC_AM_SNR,
        subbands: Subbands::SBC_SB_8,
        bitpool: 53,
    };
    assert_eq!(SBCHeader::decode_array(&full.encode_array()), Some(full));
    assert_eq!(
        SBCHeader::decode_array(&SBCHeader::MSBC.encode_array()),
        Some(SBCHeader::MSBC)
    );
    assert_eq!(SBCHeader::decode_array(&[0x00, 0x00, 0x00]), None);
    // And through a sink and source.
    let mut sink = ByteSink::new(16);
    full.encode(&mut sink).unwrap();
    let mut cursor = ByteCursor::new(sink.into_bytes());
    assert_eq!(SBCHeader::decode(&mut cursor), Ok(full));
}

#[test]
fn fixed_parameter_mode_accessors() {
    let h = SBCHeader::MSBC;
    assert_eq!(h.frequency(), Frequency::SBC_FREQ_16000);
    assert_eq!(h.channel_mode(), ChannelMode::SBC_MODE_MONO);
    assert_eq!(h.subbands(), Subbands::SBC_SB_8);
    assert_eq!(h.blocks(), None);
    assert_eq!(h.allocation_method(), AllocationMethod::SBC_AM_LOUDNESS);
    assert_eq!(h.bitpool(), 24);
    assert_eq!(MSBC_BLOCKS, 15);
    assert_eq!(h.encode_array(), [0xAD, 0x00, 0x00]);
}

#[test]
fn crc8_exact_values() {
    assert_eq!(crc8(0xFF, &[], 0), 0xFF);
    assert_eq!(crc8(0x00, &[0x01], 8), 0x1D);
    assert_eq!(crc8(0x00, &[0x80], 1), 0x1D);
    assert_eq!(crc8(0x0F, &[0x00, 0x18], 16), 0x86);
    // The checksum of the first test frame's header fields and scale factors.
    assert_eq!(crc8(0x0F, &[0x00, 0x18, 0xA9, 0x76], 32), 0xC1);
}

#[test]
fn bit_reader_is_msb_first_across_bytes() {
    // 0b1011_0110, 0b0101_1100: 3 + 7 + 6 bits, MSB-first.
    let mut cursor = ByteCursor::new(vec![0xB6, 0x5C]);
    let mut bits = BitInput::new();
    assert_eq!(bits.read_u8(&mut cursor, 3), Ok(0b101));
    assert_eq!(bits.read_u8(&mut cursor, 7), Ok(0b1011_0_01));
    assert_eq!(bits.read_u8(&mut cursor, 6), Ok(0b01_1100));
    assert_eq!(bits.read_u8(&mut cursor, 0), Ok(0));
    assert!(bits.read_u8(&mut cursor, 1).is_err());
}

#[test]
fn bit_reader_wide_reads() {
    let mut cursor = ByteCursor::new(vec![0x12, 0x34, 0x56, 0x78]);
    let mut bits = BitInput::new();
    assert_eq!(bits.read_u16(&mut cursor, 4), Ok(0x1));
    assert_eq!(bits.read_u16(&mut cursor, 16), Ok(0x2345));
    assert_eq!(bits.read_u16(&mut cursor, 12), Ok(0x678));
    assert!(bits.read_u16(&mut cursor, 17).is_err());
    assert!(bits.read_u16(&mut cursor, 1).is_err());
}

#[test]
fn byte_sink_truncates_silently() {
    let mut sink = ByteSink::new(3);
    sink.write(&[1, 2]).unwrap();
    sink.write(&[3, 4, 5]).unwrap();
    assert_eq!(sink.into_bytes(), vec![1, 2, 3]);
}

#[test]
fn byte_cursor_fails_without_partial_consumption() {
    let mut cursor = ByteCursor::new(vec![9, 8]);
    assert!(cursor.read(3).is_err());
    assert_eq!(cursor.read(2), Ok(vec![9, 8]));
    assert!(cursor.read_u8().is_err());
}

#[test]
fn rounding_is_nearest_ties_toward_zero() {
    assert_eq!(round64(5, 1), 2);
    assert_eq!(round64(-5, 1), -2);
    assert_eq!(round64(7, 1), 3);
    assert_eq!(round64(-7, 1), -3);
    assert_eq!(round64(6, 2), 1);
    assert_eq!(round64(0x4000000000000000, 49), 0x2000);
    assert_eq!(round32(5, 1), 2);
    assert_eq!(round32(-5, 1), -2);
    assert_eq!(round32(100, 0), 100);
}

#[test]
fn saturation_clamps_to_sixteen_bits() {
    assert_eq!(saturating_i16(40000), 32767);
    assert_eq!(saturating_i16(-40000), -32768);
    assert_eq!(saturating_i16(1234), 1234);
    assert_eq!(saturating_i16_from_i64(1 << 40), 32767);
    assert_eq!(saturating_i16_from_i64(-(1 << 40)), -32768);
    assert_eq!(saturating_i16_from_i64(-5), -5);
}

#[test]
fn loudness_offsets_match_published_tables() {
    assert_eq!(loudness_offset(4, Frequency::SBC_FREQ_16000, 0), -1);
    assert_eq!(loudness_offset(4, Frequency::SBC_FREQ_48000, 3), 1);
    assert_eq!(loudness_offset(8, Frequency::SBC_FREQ_44100, 0), -4);
    assert_eq!(loudness_offset(8, Frequency::SBC_FREQ_32000, 7), 2);
}

fn mono_header(bitpool: u8, method: AllocationMethod) -> SBCHeader {
    SBCHeader::SBC {
        frequency: Frequency::SBC_FREQ_16000,
        blocks: Blocks::SBC_BLK_4,
        channel_mode: ChannelMode::SBC_MODE_MONO,
        allocation_method: method,
        subbands: Subbands::SBC_SB_4,
        bitpool,
    }
}

#[test]
fn allocation_exact_widths() {
    // Loudness: bitneeds of [10, 9, 7, 6] at 16 kHz are [5, 4, 3, 3].
    let h = mono_header(24, AllocationMethod::SBC_AM_LOUDNESS);
    let bits = calculate_bits(&h, &vec![10, 9, 7, 6]);
    assert_eq!(bits, vec![8, 6, 5, 5]);
    // SNR: the bitneeds are the scale factors themselves.
    let h = mono_header(24, AllocationMethod::SBC_AM_SNR);
    let bits = calculate_bits(&h, &vec![5, 0, 3, 12]);
    assert_eq!(bits, vec![7, 0, 4, 13]);
}

#[test]
fn allocation_respects_budget_and_cell_cap() {
    let h = mono_header(64, AllocationMethod::SBC_AM_SNR);
    let bits = calculate_bits(&h, &vec![15, 15, 15, 15]);
    assert_eq!(bits, vec![16, 16, 16, 16]);
    for bp in [0u8, 1, 7, 24, 63, 64] {
        let h = mono_header(bp, AllocationMethod::SBC_AM_LOUDNESS);
        let bits = calculate_bits(&h, &vec![15, 0, 8, 3]);
        let total: u32 = bits.iter().map(|b| *b as u32).sum();
        assert!(total <= bp as u32);
        assert!(bits.iter().all(|b| *b <= 16));
    }
}

#[test]
fn filter_history_settles_to_silence_on_zero_input() {
    let mut state = FilterState::new(1, 4);
    let loud = state.filter(&vec![100_000, -200_000, 300_000, -400_000]);
    assert_eq!(loud.len(), 4);
    let mut last = Vec::new();
    for _ in 0..10 {
        last = state.filter(&vec![0, 0, 0, 0]);
    }
    // After ten all-zero blocks the whole history is zero again, so the
    // tenth block is exact silence.
    assert_eq!(last, vec![0, 0, 0, 0]);
}
