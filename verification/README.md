# olea_core

The host side of an LE Audio stack: what it takes to bring a pair of Bluetooth
headphones from advertising to playing LC3, written so that each step can be
proved. The library decides; it touches no radio, no disk and no sound card.

## Layout

- `src/` is the library. The contracts say what the functions return, for every
  input and, where a clock decides, for every reading of it; the laws that span
  several functions are public proof functions beside them.
  - Packets: `hci`, `l2cap`, `att`, `bap` (with `ascs` and `ase`), `link`.
  - The radio: `controller`, `radio`, `iso_flow`, `privacy`.
  - Devices: `bonding`, `pairing`, `reconnect`, `multipoint`, `media`.
  - The stream: `google`, `preflight`, `negotiation`, `playback`, `lc3`, `audio`.
  - The app: `command`, `settings`, `session`, `panel`, `progress`,
    `environment`, `options`, `diagnostics`, `recording`.
  - Shared: `bytes`, `text`, `json`.
- `tests/` runs the library on concrete values.
- `app/` is the program: the agent that speaks JSON lines with the
  configuration app, and the tools that look at one part of the chain each. It
  reads USB pipes, files and Windows audio endpoints, and hands plain values to
  the library. It connects with stored keys; agreeing on new keys, encoding
  frames and carrying them over the isochronous pipe belong to components of
  their own.

## What is trusted

AES-128 (the `aes` crate), JSON parsing (`serde_json`) and a few functions of
the standard library stand behind small wrappers. Their doc comments say what
is claimed of them.
