//! The logic of a user-space Bluetooth LE Audio stack.
//!
//! The goal is full control over the LC3 stream: bitrate, sampling frequency,
//! frame duration, transport latency and CIS topology - all the parameters a
//! system driver usually decides on its own and never exposes.

use vstd::prelude::*;

pub mod att;
pub mod audio;
pub mod bap;
pub mod bonding;
pub mod bytes;
pub mod command;
pub mod controller;
pub mod diagnostics;
pub mod environment;
pub mod google;
pub mod hci;
pub mod iso_flow;
pub mod json;
pub mod l2cap;
pub mod lc3;
pub mod link;
pub mod media;
pub mod multipoint;
pub mod negotiation;
pub mod options;
pub mod pairing;
pub mod panel;
pub mod playback;
pub mod preflight;
pub mod privacy;
pub mod progress;
pub mod radio;
pub mod reconnect;
pub mod recording;
pub mod session;
pub mod settings;
pub mod text;

pub use att::{AclReassembler, AttError, Characteristic, L2capFrame, ServiceRange, Uuid};
pub use bap::{CodecCapabilities, CodecConfiguration, PacRecord, Preset, QosConfiguration};
pub use controller::{Controller, ControllerError, DiscoveredDevice};
pub use hci::{BdAddr, Event, LocalVersion};
pub use link::{AudioCapabilities, Link, LinkError};
pub use preflight::StreamPlan;

verus! {

/// What this build is made of, in one line.
///
/// None of it is visible from the outside. Somebody looking at a log months from
/// now needs to be able to tell which build produced it.
pub const STACK_PROVENANCE: &'static str = "Google LC3 (liblc3) + Android BAP configuration order";

/// The name this build answers to.
pub const BUILD_NAME: &'static str = "OpenLEAudio 2 - Google";

} // verus!
