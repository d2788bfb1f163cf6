//! Event codes.

use vstd::prelude::*;

verus! {

pub const DISCONNECTION_COMPLETE: u8 = 0x05;

pub const COMMAND_COMPLETE: u8 = 0x0E;

pub const COMMAND_STATUS: u8 = 0x0F;

pub const LE_META: u8 = 0x3E;

} // verus!
