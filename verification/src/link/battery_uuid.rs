//! Battery Service, as assigned by the Bluetooth SIG.

use vstd::prelude::*;

verus! {

pub const SERVICE: u16 = 0x180F;

pub const LEVEL: u16 = 0x2A19;

} // verus!
