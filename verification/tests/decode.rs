//! End-to-end decode scenarios: concatenated checksummed frames, a shared
//! header with checksum-free payload segments, and lockstep decoding
//! through two independent filter states.

use sbc_decoder::crc::crc8;
use sbc_decoder::filter_state::FilterState;
use sbc_decoder::frame_decoder::{FrameDecodeError, FrameDecoder};
use sbc_decoder::header::SBCHeader;
use sbc_decoder::io::ByteCursor;

const DATA: [u8; 576] = [
    0x9C, 0x00, 0x18, 0xC1, 0xA9, 0x76, 0x7F, 0x7D, 0xEE, 0x83, 0x82, 0x0D, 0x82, 0x5D, 0x81, 0xE3,
    0xD0, 0xC9, 0x9C, 0x00, 0x18, 0xA9, 0xDD, 0xDD, 0x80, 0xD3, 0xCE, 0xF9, 0x43, 0xCF, 0xB0, 0x23,
    0x96, 0xA9, 0xB1, 0xBA, 0x9C, 0x00, 0x18, 0xCE, 0xDE, 0xBE, 0x25, 0x1C, 0x22, 0xB9, 0x00, 0x8E,
    0x3A, 0xF4, 0x1F, 0x8E, 0x39, 0x9E, 0x9C, 0x00, 0x18, 0x5A, 0xDE, 0xDE, 0x2C, 0xB9, 0xAF, 0xB7,
    0x2C, 0x23, 0xC2, 0xD4, 0xE7, 0x62, 0x55, 0x93, 0x9C, 0x00, 0x18, 0x5A, 0xDE, 0xDE, 0xAA, 0x9B,
    0x9B, 0x53, 0x35, 0x99, 0xA2, 0xDB, 0xF1, 0x1F, 0x8E, 0x67, 0x9C, 0x00, 0x18, 0xB2, 0xED, 0xBB,
    0x4F, 0x0F, 0x48, 0x7A, 0x95, 0xE3, 0x93, 0x55, 0xF3, 0xC4, 0xA1, 0x2E, 0x9C, 0x00, 0x18, 0x64,
    0xDD, 0xCD, 0x92, 0x49, 0x26, 0x98, 0x4B, 0x64, 0x37, 0x86, 0xD2, 0xA4, 0xB3, 0x7C, 0x9C, 0x00,
    0x18, 0x37, 0xDE, 0xED, 0x4F, 0x95, 0x50, 0x76, 0xB3, 0xCB, 0x3C, 0x96, 0x02, 0xD7, 0x15, 0x2A,
    0x9C, 0x00, 0x18, 0xE2, 0xBE, 0xDD, 0xE6, 0xD7, 0xAD, 0x7E, 0x2B, 0x99, 0x98, 0xCE, 0xD5, 0x7A,
    0x7B, 0x4E, 0x9C, 0x00, 0x18, 0x97, 0xDE, 0xCE, 0x6A, 0x9F, 0x4E, 0x39, 0x91, 0xDA, 0x09, 0x09,
    0xA2, 0xA4, 0xFB, 0x61, 0x9C, 0x00, 0x18, 0xBC, 0xEE, 0xDD, 0x95, 0x01, 0xEE, 0xBF, 0x11, 0xF1,
    0x89, 0x42, 0x9A, 0x76, 0x67, 0x39, 0x9C, 0x00, 0x18, 0xC9, 0xCE, 0xDD, 0x52, 0x7B, 0x65, 0x71,
    0x56, 0x27, 0x63, 0x42, 0xCC, 0x23, 0x06, 0xD9, 0x9C, 0x00, 0x18, 0x7D, 0xDE, 0xDD, 0x63, 0x01,
    0xF7, 0xE4, 0xE2, 0x37, 0x71, 0x5C, 0x6A, 0xA5, 0xC6, 0x69, 0x9C, 0x00, 0x18, 0xA9, 0xDD, 0xDD,
    0x58, 0x81, 0xE6, 0xAB, 0x5C, 0x37, 0x34, 0x2A, 0x1D, 0x44, 0xE2, 0x32, 0x9C, 0x00, 0x18, 0x20,
    0xDD, 0xBC, 0x0F, 0x93, 0x4E, 0xBC, 0xC3, 0x9C, 0xC5, 0x4C, 0x64, 0xDC, 0xB7, 0x4C, 0x9C, 0x00,
    0x18, 0x7D, 0xDE, 0xDD, 0xA5, 0xB2, 0x84, 0x3A, 0xB9, 0x48, 0x9D, 0x26, 0x1E, 0x50, 0x98, 0xF2,
    0x9C, 0x00, 0x18, 0xA9, 0xDD, 0xDD, 0x88, 0xA3, 0x93, 0x33, 0xC9, 0x60, 0x93, 0x78, 0xCA, 0xD8,
    0x40, 0x05, 0x9C, 0x00, 0x18, 0x64, 0xDD, 0xCD, 0x5C, 0x3A, 0x59, 0xBB, 0xD0, 0x73, 0x3F, 0x32,
    0x59, 0xBD, 0x1A, 0x81, 0x9C, 0x00, 0x18, 0xB0, 0xDE, 0xCD, 0x1C, 0xF9, 0x44, 0x36, 0x67, 0x6E,
    0x39, 0x36, 0x93, 0xB8, 0xC9, 0xEF, 0x9C, 0x00, 0x18, 0xA9, 0xDD, 0xDD, 0xE9, 0x53, 0xEE, 0xB0,
    0x1B, 0x96, 0xB1, 0xB1, 0xBA, 0x1F, 0x3A, 0xF2, 0x9C, 0x00, 0x18, 0x5A, 0xDE, 0xDE, 0xB7, 0x03,
    0x4E, 0x42, 0xF2, 0xDF, 0x86, 0x33, 0x9E, 0x2C, 0xB9, 0xAF, 0x9C, 0x00, 0x18, 0xB0, 0xDE, 0xCD,
    0xBF, 0x2E, 0x33, 0xBA, 0xD6, 0xF7, 0x62, 0x57, 0xA3, 0xB2, 0x9D, 0x8B, 0x9C, 0x00, 0x18, 0x5A,
    0xDE, 0xDE, 0x49, 0x35, 0x99, 0xA4, 0xDB, 0xF1, 0x27, 0x8E, 0x67, 0x16, 0x8C, 0x9D, 0x9C, 0x00,
    0x18, 0xA5, 0xED, 0xCD, 0x7B, 0x2B, 0xEC, 0x96, 0xAB, 0xF0, 0xBF, 0x43, 0x2F, 0x8A, 0x49, 0x26,
    0x9C, 0x00, 0x18, 0x7D, 0xDE, 0xDD, 0x9E, 0xA5, 0xC4, 0x2D, 0x46, 0xB2, 0xA8, 0xD9, 0xDC, 0x55,
    0x97, 0x50, 0x9C, 0x00, 0x18, 0xE3, 0xDD, 0xED, 0x6C, 0x6B, 0xCB, 0x42, 0x2E, 0x02, 0xDD, 0x2D,
    0x2A, 0x8F, 0xCD, 0xCD, 0x9C, 0x00, 0x18, 0x71, 0xAE, 0xDE, 0xA4, 0x67, 0x29, 0xD1, 0x9D, 0xA5,
    0x24, 0xF6, 0x9E, 0x0A, 0x8B, 0x4E, 0x9C, 0x00, 0x18, 0x6C, 0xEE, 0xCC, 0x5D, 0x98, 0xE4, 0x3F,
    0x0C, 0xD6, 0x95, 0x01, 0xB3, 0x97, 0x01, 0xEC, 0x9C, 0x00, 0x18, 0x7D, 0xDE, 0xDD, 0xF7, 0x11,
    0xF1, 0x9B, 0x42, 0x9A, 0x6E, 0x67, 0x39, 0x5F, 0x3D, 0xA5, 0x9C, 0x00, 0x18, 0xC9, 0xCE, 0xDD,
    0x81, 0x56, 0x27, 0x67, 0x42, 0xCC, 0x0F, 0x06, 0xD9, 0x56, 0x03, 0xD7, 0x9C, 0x00, 0x18, 0x7D,
    0xDE, 0xDD, 0xE4, 0xE2, 0x37, 0x69, 0x5C, 0x6A, 0xAD, 0xC6, 0x69, 0x56, 0xC0, 0xE6, 0x9C, 0x00,
    0x18, 0x64, 0xDD, 0xCD, 0xA3, 0x5C, 0x77, 0x3E, 0x28, 0x3D, 0x42, 0xE0, 0x92, 0x07, 0x93, 0xAB,
];

#[test]
fn test1() {
    let mut data = ByteCursor::new(DATA.to_vec());
    let mut decoder = FilterState::new(1, 4);
    for _i in 0..32 {
        let h = SBCHeader::decode(&mut data).unwrap();
        let mut frame = FrameDecoder::new(&h, &decoder, &mut data).unwrap();
        loop {
            match frame.next(&mut decoder, &mut data) {
                Ok(x) => {
                    for j in x {
                        println!("{}", j);
                    }
                },
                Err(FrameDecodeError::NoBlock) => break,
                Err(e) => panic!("{:?}", e),
            }
        }
    }
}

const DATA2: [u8; 451] = [
    0x9C, 0x00, 0x18, 0xA9, 0x76, 0x7F, 0x7D, 0xEE, 0x83, 0x82, 0x0D, 0x82, 0x5D, 0x81, 0xE3, 0xD0,
    0xC9, 0xDD, 0xDD, 0x80, 0xD3, 0xCE, 0xF9, 0x43, 0xCF, 0xB0, 0x23, 0x96, 0xA9, 0xB1, 0xBA, 0xDE,
    0xBE, 0x25, 0x1C, 0x22, 0xB9, 0x00, 0x8E, 0x3A, 0xF4, 0x1F, 0x8E, 0x39, 0x9E, 0xDE, 0xDE, 0x2C,
    0xB9, 0xAF, 0xB7, 0x2C, 0x23, 0xC2, 0xD4, 0xE7, 0x62, 0x55, 0x93, 0xDE, 0xDE, 0xAA, 0x9B, 0x9B,
    0x53, 0x35, 0x99, 0xA2, 0xDB, 0xF1, 0x1F, 0x8E, 0x67, 0xED, 0xBB, 0x4F, 0x0F, 0x48, 0x7A, 0x95,
    0xE3, 0x93, 0x55, 0xF3, 0xC4, 0xA1, 0x2E, 0xDD, 0xCD, 0x92, 0x49, 0x26, 0x98, 0x4B, 0x64, 0x37,
    0x86, 0xD2, 0xA4, 0xB3, 0x7C, 0xDE, 0xED, 0x4F, 0x95, 0x50, 0x76, 0xB3, 0xCB, 0x3C, 0x96, 0x02,
    0xD7, 0x15, 0x2A, 0xBE, 0xDD, 0xE6, 0xD7, 0xAD, 0x7E, 0x2B, 0x99, 0x98, 0xCE, 0xD5, 0x7A, 0x7B,
    0x4E, 0xDE, 0xCE, 0x6A, 0x9F, 0x4E, 0x39, 0x91, 0xDA, 0x09, 0x09, 0xA2, 0xA4, 0xFB, 0x61, 0xEE,
    0xDD, 0x95, 0x01, 0xEE, 0xBF, 0x11, 0xF1, 0x89, 0x42, 0x9A, 0x76, 0x67, 0x39, 0xCE, 0xDD, 0x52,
    0x7B, 0x65, 0x71, 0x56, 0x27, 0x63, 0x42, 0xCC, 0x23, 0x06, 0xD9, 0xDE, 0xDD, 0x63, 0x01, 0xF7,
    0xE4, 0xE2, 0x37, 0x71, 0x5C, 0x6A, 0xA5, 0xC6, 0x69, 0xDD, 0xDD, 0x58, 0x81, 0xE6, 0xAB, 0x5C,
    0x37, 0x34, 0x2A, 0x1D, 0x44, 0xE2, 0x32, 0xDD, 0xBC, 0x0F, 0x93, 0x4E, 0xBC, 0xC3, 0x9C, 0xC5,
    0x4C, 0x64, 0xDC, 0xB7, 0x4C, 0xDE, 0xDD, 0xA5, 0xB2, 0x84, 0x3A, 0xB9, 0x48, 0x9D, 0x26, 0x1E,
    0x50, 0x98, 0xF2, 0xDD, 0xDD, 0x88, 0xA3, 0x93, 0x33, 0xC9, 0x60, 0x93, 0x78, 0xCA, 0xD8, 0x40,
    0x05, 0xDD, 0xCD, 0x5C, 0x3A, 0x59, 0xBB, 0xD0, 0x73, 0x3F, 0x32, 0x59, 0xBD, 0x1A, 0x81, 0xDE,
    0xCD, 0x1C, 0xF9, 0x44, 0x36, 0x67, 0x6E, 0x39, 0x36, 0x93, 0xB8, 0xC9, 0xEF, 0xDD, 0xDD, 0xE9,
    0x53, 0xEE, 0xB0, 0x1B, 0x96, 0xB1, 0xB1, 0xBA, 0x1F, 0x3A, 0xF2, 0xDE, 0xDE, 0xB7, 0x03, 0x4E,
    0x42, 0xF2, 0xDF, 0x86, 0x33, 0x9E, 0x2C, 0xB9, 0xAF, 0xDE, 0xCD, 0xBF, 0x2E, 0x33, 0xBA, 0xD6,
    0xF7, 0x62, 0x57, 0xA3, 0xB2, 0x9D, 0x8B, 0xDE, 0xDE, 0x49, 0x35, 0x99, 0xA4, 0xDB, 0xF1, 0x27,
    0x8E, 0x67, 0x16, 0x8C, 0x9D, 0xED, 0xCD, 0x7B, 0x2B, 0xEC, 0x96, 0xAB, 0xF0, 0xBF, 0x43, 0x2F,
    0x8A, 0x49, 0x26, 0xDE, 0xDD, 0x9E, 0xA5, 0xC4, 0x2D, 0x46, 0xB2, 0xA8, 0xD9, 0xDC, 0x55, 0x97,
    0x50, 0xDD, 0xED, 0x6C, 0x6B, 0xCB, 0x42, 0x2E, 0x02, 0xDD, 0x2D, 0x2A, 0x8F, 0xCD, 0xCD, 0xAE,
    0xDE, 0xA4, 0x67, 0x29, 0xD1, 0x9D, 0xA5, 0x24, 0xF6, 0x9E, 0x0A, 0x8B, 0x4E, 0xEE, 0xCC, 0x5D,
    0x98, 0xE4, 0x3F, 0x0C, 0xD6, 0x95, 0x01, 0xB3, 0x97, 0x01, 0xEC, 0xDE, 0xDD, 0xF7, 0x11, 0xF1,
    0x9B, 0x42, 0x9A, 0x6E, 0x67, 0x39, 0x5F, 0x3D, 0xA5, 0xCE, 0xDD, 0x81, 0x56, 0x27, 0x67, 0x42,
    0xCC, 0x0F, 0x06, 0xD9, 0x56, 0x03, 0xD7, 0xDE, 0xDD, 0xE4, 0xE2, 0x37, 0x69, 0x5C, 0x6A, 0xAD,
    0xC6, 0x69, 0x56, 0xC0, 0xE6, 0xDD, 0xCD, 0xA3, 0x5C, 0x77, 0x3E, 0x28, 0x3D, 0x42, 0xE0, 0x92,
    0x07, 0x93, 0xAB,
];

#[test]
fn test2() {
    let mut data = ByteCursor::new(DATA2.to_vec());
    let mut decoder = FilterState::new(1, 4);
    let h = SBCHeader::decode(&mut data).unwrap();
    for _i in 0..32 {
        let mut frame = FrameDecoder::new_no_crc(&h, &decoder, &mut data).unwrap();
        loop {
            match frame.next(&mut decoder, &mut data) {
                Ok(x) => {
                    for j in x {
                        println!("{}", j);
                    }
                },
                Err(FrameDecodeError::NoBlock) => break,
                Err(e) => panic!("{:?}", e),
            }
        }
    }
}

/// Decoding the same frame stream through two independently constructed
/// filter states produces identical PCM sample sequences.
#[test]
fn lockstep_decoding_is_identical() {
    let mut pcm_a: Vec<i16> = Vec::new();
    let mut pcm_b: Vec<i16> = Vec::new();
    for out in [&mut pcm_a, &mut pcm_b] {
        let mut data = ByteCursor::new(DATA.to_vec());
        let mut decoder = FilterState::new(1, 4);
        for _i in 0..32 {
            let h = SBCHeader::decode(&mut data).unwrap();
            let mut frame = FrameDecoder::new(&h, &decoder, &mut data).unwrap();
            loop {
                match frame.next(&mut decoder, &mut data) {
                    Ok(x) => out.extend(x),
                    Err(FrameDecodeError::NoBlock) => break,
                    Err(e) => panic!("{:?}", e),
                }
            }
        }
        assert_eq!(out.len(), 32 * 4 * 4);
    }
    assert_eq!(pcm_a, pcm_b);
}

/// Corrupting any single bit of the checksummed region after the sync word
/// is rejected: with a matching configuration the frame fails with a
/// checksum mismatch, and never decodes as if it were intact.
#[test]
fn single_bit_corruption_is_rejected() {
    // The first 18-byte frame of the stream: sync, two header bytes, the
    // CRC byte, then the payload beginning with two scale-factor bytes.
    let frame: Vec<u8> = DATA[..18].to_vec();
    for byte in [1usize, 2, 4, 5] {
        for bit in 0..8 {
            let mut corrupted = frame.clone();
            corrupted[byte] ^= 0x80 >> bit;
            let mut data = ByteCursor::new(corrupted);
            let mut decoder = FilterState::new(1, 4);
            let h = SBCHeader::decode(&mut data).unwrap();
            // A corrupted bitpool field can exceed what four sub-bands can
            // absorb; the allocation search cannot meet such a budget.
            if h.bitpool() as usize > 16 * h.subbands().subbands() {
                continue;
            }
            match FrameDecoder::new(&h, &mut decoder, &mut data) {
                Ok(_) => panic!("corrupted frame accepted: byte {} bit {}", byte, bit),
                Err(FrameDecodeError::CRCBed) => {},
                Err(FrameDecodeError::SizeBed) => {
                    // A flip inside the channel-mode or sub-band fields
                    // changes the configuration itself, which is rejected
                    // before the checksum is read.
                    assert_eq!(byte, 1);
                },
                Err(e) => panic!("unexpected error: {:?}", e),
            }
        }
    }
}

/// A frame whose bitpool is zero allocates no bits at all, and every
/// reconstructed sample of its blocks is silence through a fresh filter.
#[test]
fn zero_bitpool_decodes_to_silence() {
    // Parameterized header: 16 kHz, 4 blocks, mono, loudness, 4 sub-bands,
    // bitpool 0; no checksum byte; two scale-factor bytes, no payload.
    let bytes = vec![0x9C, 0x00, 0x00, 0xAB, 0xCD];
    let mut data = ByteCursor::new(bytes);
    let mut decoder = FilterState::new(1, 4);
    let h = SBCHeader::decode(&mut data).unwrap();
    let mut frame = FrameDecoder::new_no_crc(&h, &decoder, &mut data).unwrap();
    let mut blocks = 0;
    loop {
        match frame.next(&mut decoder, &mut data) {
            Ok(x) => {
                blocks += 1;
                for j in x {
                    assert_eq!(j, 0);
                }
            },
            Err(FrameDecodeError::NoBlock) => break,
            Err(e) => panic!("{:?}", e),
        }
    }
    assert_eq!(blocks, 4);
}

/// A header whose channel or sub-band count does not match the filter
/// state is rejected with a configuration mismatch.
#[test]
fn configuration_mismatch_is_rejected() {
    let mut data = ByteCursor::new(DATA.to_vec());
    let mut decoder = FilterState::new(1, 8);
    let h = SBCHeader::decode(&mut data).unwrap();
    match FrameDecoder::new(&h, &mut decoder, &mut data) {
        Err(FrameDecodeError::SizeBed) => {},
        r => panic!("expected a configuration mismatch, got {:?}", r.is_ok()),
    }
}

/// Exhausted frames report the end of their block sequence, not an error.
#[test]
fn exhausted_frame_reports_no_block() {
    let mut data = ByteCursor::new(DATA.to_vec());
    let mut decoder = FilterState::new(1, 4);
    let h = SBCHeader::decode(&mut data).unwrap();
    let mut frame = FrameDecoder::new(&h, &decoder, &mut data).unwrap();
    for _ in 0..4 {
        frame.next(&mut decoder, &mut data).unwrap();
    }
    assert!(matches!(
        frame.next(&mut decoder, &mut data),
        Err(FrameDecodeError::NoBlock)
    ));
    assert!(matches!(
        frame.next(&mut decoder, &mut data),
        Err(FrameDecodeError::NoBlock)
    ));
}

/// A byte stream that ends in the middle of a frame reports underflow:
/// during construction if the scale factors are cut short, and during
/// block production if the payload is.
#[test]
fn truncated_stream_reports_underflow() {
    let mut data = ByteCursor::new(DATA[..5].to_vec());
    let mut decoder = FilterState::new(1, 4);
    let h = SBCHeader::decode(&mut data).unwrap();
    match FrameDecoder::new(&h, &mut decoder, &mut data) {
        Err(FrameDecodeError::ByteError(())) => {},
        r => panic!("expected underflow, got ok={:?}", r.is_ok()),
    }
    let mut data = ByteCursor::new(DATA[..8].to_vec());
    let mut decoder = FilterState::new(1, 4);
    let h = SBCHeader::decode(&mut data).unwrap();
    let mut frame = FrameDecoder::new(&h, &decoder, &mut data).unwrap();
    match frame.next(&mut decoder, &mut data) {
        Err(FrameDecodeError::ByteError(())) => {},
        r => panic!("expected underflow, got ok={:?}", r.is_ok()),
    }
}

/// A joint-stereo frame with eight sub-bands decodes through the shared
/// stereo allocation, the mid/side undo and the 8-band filter bank.
#[test]
fn joint_stereo_eight_subbands_decodes() {
    // Sync, then: 16 kHz, 4 blocks, joint stereo, loudness, 8 sub-bands,
    // bitpool 30; no checksum byte.  The payload holds the bitmap byte,
    // sixteen scale-factor nibbles and more than enough codeword bytes.
    let mut bytes = vec![0x9C, 0x0D, 30];
    bytes.push(0xA5);
    for i in 0..8 {
        bytes.push(0x11 * i as u8);
    }
    for i in 0..120 {
        bytes.push((37 * i + 11) as u8);
    }
    let mut data = ByteCursor::new(bytes);
    let mut decoder = FilterState::new(2, 8);
    let h = SBCHeader::decode(&mut data).unwrap();
    let mut frame = FrameDecoder::new_no_crc(&h, &decoder, &mut data).unwrap();
    let mut blocks = 0;
    loop {
        match frame.next(&mut decoder, &mut data) {
            Ok(x) => {
                blocks += 1;
                assert_eq!(x.len(), 16);
            },
            Err(FrameDecodeError::NoBlock) => break,
            Err(e) => panic!("{:?}", e),
        }
    }
    assert_eq!(blocks, 4);
}

/// A dual-channel frame allocates each channel against its own bitpool
/// copy and decodes both channels independently.
#[test]
fn dual_channel_decodes() {
    // Sync, then: 32 kHz, 8 blocks, dual channel, SNR, 4 sub-bands,
    // bitpool 20; no checksum byte.
    let mut bytes = vec![0x9C, 0x56, 20];
    for i in 0..4 {
        bytes.push(0x42 + 0x11 * i as u8);
    }
    for i in 0..120 {
        bytes.push((91 * i + 3) as u8);
    }
    let mut data = ByteCursor::new(bytes);
    let mut decoder = FilterState::new(2, 4);
    let h = SBCHeader::decode(&mut data).unwrap();
    let mut frame = FrameDecoder::new_no_crc(&h, &decoder, &mut data).unwrap();
    let mut blocks = 0;
    loop {
        match frame.next(&mut decoder, &mut data) {
            Ok(x) => {
                blocks += 1;
                assert_eq!(x.len(), 8);
            },
            Err(FrameDecodeError::NoBlock) => break,
            Err(e) => panic!("{:?}", e),
        }
    }
    assert_eq!(blocks, 8);
}

/// A fixed-parameter frame reports its built-in configuration and yields
/// fifteen blocks of eight mono samples.
#[test]
fn fixed_parameter_mode_decodes() {
    let mut bytes = vec![0xAD, 0x00, 0x00, 0x77];
    for i in 0..4 {
        bytes.push(0x89 + 0x08 * i as u8);
    }
    for i in 0..80 {
        bytes.push((53 * i + 29) as u8);
    }
    let mut data = ByteCursor::new(bytes);
    let mut decoder = FilterState::new(1, 8);
    let h = SBCHeader::decode(&mut data).unwrap();
    // The byte after the three header bytes is consumed as the unchecked
    // checksum slot.
    let mut frame = FrameDecoder::new_skip_crc(&h, &decoder, &mut data).unwrap();
    let mut blocks = 0;
    loop {
        match frame.next(&mut decoder, &mut data) {
            Ok(x) => {
                blocks += 1;
                assert_eq!(x.len(), 8);
            },
            Err(FrameDecodeError::NoBlock) => break,
            Err(e) => panic!("{:?}", e),
        }
    }
    assert_eq!(blocks, 15);
}

/// The checksum of a 4-sub-band joint-stereo frame covers the joint
/// bitmap: the intact frame is accepted, and flipping any single bitmap
/// or scale-factor bit is rejected as a checksum mismatch.
#[test]
fn joint_bitmap_corruption_is_rejected() {
    // Sync, then: 16 kHz, 4 blocks, joint stereo, loudness, 4 sub-bands,
    // bitpool 20.
    let bitmap: u8 = 0b1010;
    let sf: [u8; 8] = [5, 3, 5, 3, 4, 2, 4, 2];
    let c = crc8(0x0F, &[0x0C, 20], 16);
    let c = crc8(c, &[bitmap << 4], 4);
    let c = crc8(c, &[sf[0] << 4 | sf[1], sf[2] << 4 | sf[3]], 16);
    let c = crc8(c, &[sf[4] << 4 | sf[5], sf[6] << 4 | sf[7]], 16);
    let mut bytes = vec![0x9C, 0x0C, 20, c];
    // The payload bit stream: four bitmap bits, then the eight nibbles.
    bytes.push(bitmap << 4 | sf[0]);
    bytes.push(sf[1] << 4 | sf[2]);
    bytes.push(sf[3] << 4 | sf[4]);
    bytes.push(sf[5] << 4 | sf[6]);
    bytes.push(sf[7] << 4);
    for i in 0..40 {
        bytes.push((17 * i + 5) as u8);
    }
    // Intact, the frame is accepted and decodes fully.
    let mut data = ByteCursor::new(bytes.clone());
    let mut decoder = FilterState::new(2, 4);
    let h = SBCHeader::decode(&mut data).unwrap();
    let mut frame = FrameDecoder::new(&h, &decoder, &mut data).unwrap();
    let mut blocks = 0;
    loop {
        match frame.next(&mut decoder, &mut data) {
            Ok(x) => {
                blocks += 1;
                assert_eq!(x.len(), 8);
            },
            Err(FrameDecodeError::NoBlock) => break,
            Err(e) => panic!("{:?}", e),
        }
    }
    assert_eq!(blocks, 4);
    // Any single-bit flip in the bitmap or the scale-factor nibbles is
    // caught by the checksum.
    for bitpos in 0..36 {
        let mut corrupted = bytes.clone();
        corrupted[4 + bitpos / 8] ^= 0x80 >> (bitpos % 8);
        let mut data = ByteCursor::new(corrupted);
        let mut decoder = FilterState::new(2, 4);
        let h = SBCHeader::decode(&mut data).unwrap();
        match FrameDecoder::new(&h, &decoder, &mut data) {
            Err(FrameDecodeError::CRCBed) => {},
            r => panic!("flip {} not rejected (ok={})", bitpos, r.is_ok()),
        }
    }
}
