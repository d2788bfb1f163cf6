//! L2CAP channel identifiers used on an LE link.

use vstd::prelude::*;

verus! {

pub const ATT: u16 = 0x0004;

pub const LE_SIGNALING: u16 = 0x0005;

pub const SMP: u16 = 0x0006;

} // verus!
