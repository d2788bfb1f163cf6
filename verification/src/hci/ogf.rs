//! Opcode Group Fields.

use vstd::prelude::*;

verus! {

pub const LINK_CONTROL: u16 = 0x01;

pub const CONTROLLER: u16 = 0x03;

pub const INFORMATIONAL: u16 = 0x04;

pub const STATUS: u16 = 0x05;

pub const LE_CONTROLLER: u16 = 0x08;

} // verus!
