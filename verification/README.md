# rctool-core

Desktop host logic for the Xiaomi Bluetooth voice remotes (RC003 / 2 Pro and
ARN9): the remote's microphone speaks the Android TV Voice-over-BLE (ATVV)
GATT protocol, and its buttons are ordinary HID over GATT. This crate turns
ATVV notifications into 16 kHz PCM for a loopback device ("virtual
microphone"), and models the per-application key mapping of the buttons.

The library under `src/` is verified with Verus. Public functions state their
results in their contracts; what a PCM sink does is stated over the sink's
model (`AudioSink::heard`, kept by sinks that record), since sinks are mostly
supplied by the application. The properties that span several calls are
stated and proved as proof functions (`law_*`).

## Layout

- `src/atvv.rs` — ATVV messages: capabilities, control events, MIC_OPEN /
  MIC_CLOSE, the service and characteristic UUIDs.
- `src/adpcm.rs` — IMA ADPCM decoder, with its state model.
- `src/dsp.rs` — frame reassembly across notifications, three-tap smoothing.
- `src/session.rs` — the per-connection state machine: control and audio in,
  actions (TX writes, stream start/stop, PCM, fatal errors) out.
- `src/bridge.rs` — recognising the remote among Bluetooth devices, handing
  session actions out, winding a session down.
- `src/sink.rs` — the PCM outlet trait and its fan-out.
- `src/loopback.rs` — recognising and selecting loopback output devices.
- `src/keymap.rs` — buttons, actions, the key map, per-application layers and
  how they resolve; HID report parsing.
- `src/hidmap.rs` — the HID reader's decisions: press/release edges, synthetic
  event cancellation, modifier flags.
- `src/fnmap.rs` — the device-scoped F5 → Fn remapping tables.
- `src/presence.rs`, `src/watch.rs` — presence debouncing and the
  keep-awake / auto-unlock supervision decisions.
- `src/frontapp.rs` — the frontmost application and the running-apps list.
- `src/config.rs` — building the key mappings from the stored configuration
  and editing it.
- `src/autostart.rs` — the launch agent property list.
- `app/` — the `rctool` command-line program: Bluetooth (bluest), audio
  devices (cpal, ringbuf), WAV files (hound), decibel gain and resampling
  (floating point), and the macOS IOKit calls.
- `tests/` — the test suite.
