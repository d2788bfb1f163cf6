//! GATT attribute type UUIDs used during discovery.

use vstd::prelude::*;

verus! {

pub const PRIMARY_SERVICE: u16 = 0x2800;

pub const CHARACTERISTIC: u16 = 0x2803;

pub const CLIENT_CHARACTERISTIC_CONFIG: u16 = 0x2902;

} // verus!
