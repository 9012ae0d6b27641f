//! Desktop-side host logic for the Xiaomi voice remotes (RC003 / ARN9).
//!
//! The remote's buttons are plain HID over GATT; its voice channel is the
//! Android TV Voice-over-BLE (ATVV) GATT protocol. This crate holds the
//! protocol codecs, the IMA ADPCM decoder, frame reassembly, the per-connection
//! session state machine, the key-mapping model and the small decision
//! procedures around presence detection and device-scoped key remapping.
//! Everything here is pure logic with machine-checked contracts; I/O lives in
//! the application around it.

pub mod adpcm;
pub mod atvv;
pub mod dsp;
pub mod session;
pub mod text;
pub mod keymap;
pub mod fnmap;
pub mod sink;
pub mod bridge;
pub mod loopback;
pub mod presence;
pub mod hidmap;
pub mod watch;
pub mod frontapp;
pub mod config;
pub mod autostart;
