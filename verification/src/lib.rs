//! A verified decoder for the SBC / mSBC sub-band audio codec: bit-exact
//! header and CRC parsing, adaptive bit allocation, sample reconstruction
//! with joint-stereo decoding, and the fixed-point polyphase synthesis
//! filter bank.

pub mod crc;
pub mod filter_state;
pub mod frame_decoder;
pub mod header;
pub mod helper;
pub mod io;
pub mod sbc;
pub mod table;
