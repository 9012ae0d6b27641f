//! Android TV Voice-over-BLE (ATVV) protocol constants and message codecs.
//!
//! The host (this program) plays the TV's role:
//!
//! ```text
//! host                                 remote
//!  |-- TX: GET_CAPS ------------------>|
//!  |<-- CTL: CAPS_RESP (0x0B) ---------|  version / codecs / frame size
//!  |<-- CTL: START_SEARCH (0x08) ------|  user pressed the mic button
//!  |-- TX: MIC_OPEN (0x0C) ----------->|
//!  |<-- CTL: AUDIO_START (0x04) -------|
//!  |<-- AUDIO: ADPCM frames (notify) --|  16 kHz IMA ADPCM
//!  |<-- CTL: AUDIO_SYNC (0x0A) --------|  decoder reset after packet loss
//!  |<-- CTL: AUDIO_STOP (0x00) --------|  user released the mic button
//! ```
//!
//! UUIDs are carried as their 128-bit integer value.

use vstd::prelude::*;

verus! {

/// ATVV voice service.
pub const SERVICE: u128 = 0xAB5E0001_5A21_4F05_BC7D_AF01F617B664;

/// Host -> remote command channel (write).
pub const CHAR_TX: u128 = 0xAB5E0002_5A21_4F05_BC7D_AF01F617B664;

/// Remote -> host audio data (notify).
pub const CHAR_AUDIO: u128 = 0xAB5E0003_5A21_4F05_BC7D_AF01F617B664;

/// Remote -> host control events (notify).
pub const CHAR_CTL: u128 = 0xAB5E0004_5A21_4F05_BC7D_AF01F617B664;

/// The Bluetooth Base UUID, into which 16-bit short UUIDs are placed.
pub const BLUETOOTH_BASE_UUID: u128 = 0x0000_0000_0000_1000_8000_0080_5F9B_34FB;

/// Device Information Service (`bt16(0x180A)`), read for the model number.
pub const DEVICE_INFORMATION_SERVICE: u128 = 0x0000_180A_0000_1000_8000_0080_5F9B_34FB;

/// Model Number String characteristic (`bt16(0x2A24)`).
pub const MODEL_NUMBER_CHARACTERISTIC: u128 = 0x0000_2A24_0000_1000_8000_0080_5F9B_34FB;

/// GET_CAPS (v1.0 layout): the host announces 8 kHz and 16 kHz ADPCM support.
pub const GET_CAPS: [u8; 6] = [0x0A, 0x01, 0x00, 0x00, 0x03, 0x03];

/// 16-bit standard Bluetooth UUID -> 128-bit UUID value.
pub fn bt16(short: u16) -> (r: u128)
    ensures
        r == BLUETOOTH_BASE_UUID | ((short as u128) << 96u128),
        r == BLUETOOTH_BASE_UUID + (short as int) * 0x1_0000_0000_0000_0000_0000_0000,
{
    let r = BLUETOOTH_BASE_UUID | ((short as u128) << 96u128);
    assert(r == BLUETOOTH_BASE_UUID + (short as u128) * 0x1_0000_0000_0000_0000_0000_0000u128)
        by (bit_vector)
        requires
            r == 0x0000_0000_0000_1000_8000_0080_5F9B_34FBu128 | ((short as u128) << 96u128),
    ;
    r
}

pub open spec fn mic_open_bytes(version: u16, codec: u8) -> Seq<u8> {
    if version >= 0x0100 {
        seq![0x0Cu8, 0x00u8]
    } else {
        seq![0x0Cu8, 0x00u8, codec]
    }
}

pub open spec fn mic_close_bytes(version: u16, session_id: u8) -> Seq<u8> {
    if version >= 0x0100 {
        seq![0x0Du8, session_id]
    } else {
        seq![0x0Du8]
    }
}

/// MIC_OPEN: since v1.0 the codec is negotiated in AUDIO_START and is no
/// longer carried here.
pub fn mic_open(version: u16, codec: u8) -> (r: Vec<u8>)
    ensures
        r@ == mic_open_bytes(version, codec),
{
    let r = if version >= 0x0100 {
        vec![0x0C, 0x00]
    } else {
        vec![0x0C, 0x00, codec]
    };
    assert(r@ =~= mic_open_bytes(version, codec));
    r
}

/// MIC_CLOSE: v1.0 carries the session id.
pub fn mic_close(version: u16, session_id: u8) -> (r: Vec<u8>)
    ensures
        r@ == mic_close_bytes(version, session_id),
{
    let r = if version >= 0x0100 {
        vec![0x0D, session_id]
    } else {
        vec![0x0D]
    };
    assert(r@ =~= mic_close_bytes(version, session_id));
    r
}

/// A parsed CAPS_RESP (0x0B).
#[derive(Debug, Clone, Copy, PartialEq, Eq, Structural)]
pub struct Caps {
    pub version: u16,
    pub codecs: u8,
    /// How many audio bytes make up one ADPCM frame.
    pub frame_size: usize,
    /// 0x01 = 8 kHz, 0x02 = 16 kHz.
    pub codec: u8,
    pub sample_rate: u32,
}

/// The sample rate that goes with a codec id.
pub open spec fn rate_of(codec: u8) -> u32 {
    if codec == 0x02 {
        16_000
    } else {
        8_000
    }
}

/// The defaults measured on a real RC003: 16 kHz ADPCM, 120-byte frames.
pub open spec fn default_caps() -> Caps {
    Caps { version: 0x0100, codecs: 0x02, frame_size: 120, codec: 0x02, sample_rate: 16_000 }
}

/// CAPS_RESP decoding. Accepts the legacy v0.4 layout, and the firmware quirk
/// that puts the codec bits one byte late in the v1.0 layout.
pub open spec fn parse_caps(data: Seq<u8>) -> Option<Caps> {
    if data.len() < 7 || data[0] != 0x0B {
        None
    } else {
        let version = (data[1] as int * 256 + data[2] as int) as u16;
        if version < 0x0100 && data.len() < 9 {
            None
        } else {
            let codecs = if version >= 0x0100 {
                if data[3] == 0 && data.len() >= 9 && data[4] & 0x03 != 0 {
                    data[4]
                } else {
                    data[3]
                }
            } else {
                data[4]
            };
            let frame_size = data[5] as int * 256 + data[6] as int;
            let codec: u8 = if codecs & 0x02 != 0 { 0x02 } else { 0x01 };
            Some(Caps {
                version,
                codecs,
                frame_size: if frame_size == 0 { 120 } else { frame_size as usize },
                codec,
                sample_rate: rate_of(codec),
            })
        }
    }
}

impl Caps {
    /// The defaults measured on a real RC003: 16 kHz ADPCM, 120-byte frames.
    pub fn default_caps() -> (r: Caps)
        ensures
            r == default_caps(),
    {
        Caps { version: 0x0100, codecs: 0x02, frame_size: 120, codec: 0x02, sample_rate: 16_000 }
    }

    /// Parses a 0x0B capabilities response.
    pub fn parse(data: &[u8]) -> (r: Option<Caps>)
        ensures
            r == parse_caps(data@),
            r matches Some(c) ==> c.frame_size > 0 && (c.codec == 0x01 || c.codec == 0x02)
                && c.sample_rate == rate_of(c.codec),
    {
        if data.len() < 7 || data[0] != 0x0B {
            return None;
        }
        let version: u16 = (data[1] as u16) * 256 + data[2] as u16;
        let codecs = if version >= 0x0100 {
            let mut c = data[3];
            if c == 0 && data.len() >= 9 && data[4] & 0x03 != 0 {
                c = data[4];
            }
            c
        } else {
            if data.len() < 9 {
                return None;
            }
            data[4]
        };
        let frame_size: usize = (data[5] as usize) * 256 + data[6] as usize;
        let codec: u8 = if codecs & 0x02 != 0 { 0x02 } else { 0x01 };
        Some(Caps {
            version,
            codecs,
            frame_size: if frame_size == 0 { 120 } else { frame_size },
            codec,
            sample_rate: if codec == 0x02 { 16_000 } else { 8_000 },
        })
    }

    /// AUDIO_START may switch the codec (and so the sample rate) for one stream.
    pub fn with_stream_codec(self, codec: u8) -> (r: Caps)
        ensures
            r == (Caps { codec, sample_rate: rate_of(codec), ..self }),
    {
        Caps { codec, sample_rate: if codec == 0x02 { 16_000 } else { 8_000 }, ..self }
    }
}

/// A control event from the CTL characteristic.
#[derive(Debug, Clone, PartialEq, Eq, Structural)]
pub enum ControlEvent {
    /// 0x0B: capabilities response (the raw bytes go to [`Caps::parse`]).
    CapsResp,
    /// 0x08: the remote asks the host to open its microphone (mic button pressed).
    StartSearch,
    /// 0x04: a voice stream begins.
    AudioStart { codec: Option<u8>, session_id: Option<u8> },
    /// 0x00: the voice stream ends.
    AudioStop,
    /// 0x0A: resynchronisation after packet loss, with decoder predictor and step index.
    AudioSync { predictor: i16, step_index: u8 },
    /// An unrecognised opcode.
    Other(u8),
}

pub open spec fn byte_at(data: Seq<u8>, i: int) -> Option<u8> {
    if 0 <= i < data.len() {
        Some(data[i])
    } else {
        None
    }
}

/// The big-endian i16 whose bytes are `hi`, `lo`.
pub open spec fn be_i16(hi: u8, lo: u8) -> i16 {
    (hi as int * 256 + lo as int) as i16
}

pub open spec fn parse_control(data: Seq<u8>) -> Option<ControlEvent> {
    if data.len() == 0 {
        None
    } else if data[0] == 0x0B {
        Some(ControlEvent::CapsResp)
    } else if data[0] == 0x08 {
        Some(ControlEvent::StartSearch)
    } else if data[0] == 0x04 {
        Some(ControlEvent::AudioStart { codec: byte_at(data, 2), session_id: byte_at(data, 3) })
    } else if data[0] == 0x00 {
        Some(ControlEvent::AudioStop)
    } else if data[0] == 0x0A {
        if data.len() < 7 {
            None
        } else {
            Some(ControlEvent::AudioSync { predictor: be_i16(data[4], data[5]), step_index: data[6] })
        }
    } else {
        Some(ControlEvent::Other(data[0]))
    }
}

fn get_byte(data: &[u8], i: usize) -> (r: Option<u8>)
    ensures
        r == byte_at(data@, i as int),
{
    if i < data.len() {
        Some(data[i])
    } else {
        None
    }
}

fn be_i16_exec(hi: u8, lo: u8) -> (r: i16)
    ensures
        r == be_i16(hi, lo),
{
    let v: u16 = (hi as u16) * 256 + lo as u16;
    v as i16
}

impl ControlEvent {
    pub fn parse(data: &[u8]) -> (r: Option<ControlEvent>)
        ensures
            r == parse_control(data@),
    {
        if data.len() == 0 {
            return None;
        }
        let op = data[0];
        if op == 0x0B {
            Some(ControlEvent::CapsResp)
        } else if op == 0x08 {
            Some(ControlEvent::StartSearch)
        } else if op == 0x04 {
            Some(ControlEvent::AudioStart { codec: get_byte(data, 2), session_id: get_byte(data, 3) })
        } else if op == 0x00 {
            Some(ControlEvent::AudioStop)
        } else if op == 0x0A {
            if data.len() < 7 {
                return None;
            }
            Some(ControlEvent::AudioSync { predictor: be_i16_exec(data[4], data[5]), step_index: data[6] })
        } else {
            Some(ControlEvent::Other(op))
        }
    }
}

} // verus!
