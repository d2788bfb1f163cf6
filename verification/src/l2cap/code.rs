//! LE signalling opcodes, of which we handle exactly one.

use vstd::prelude::*;

verus! {

pub const CONNECTION_PARAMETER_UPDATE_REQUEST: u8 = 0x12;

pub const CONNECTION_PARAMETER_UPDATE_RESPONSE: u8 = 0x13;

} // verus!
