//! LE meta event subevent codes.

use vstd::prelude::*;

verus! {

pub const CONNECTION_COMPLETE: u8 = 0x01;

pub const ADVERTISING_REPORT: u8 = 0x02;

pub const ENHANCED_CONNECTION_COMPLETE: u8 = 0x0A;

/// Carries devices that advertise using extended advertising, which the
/// legacy report cannot describe - and which LE Audio devices commonly use.
pub const EXTENDED_ADVERTISING_REPORT: u8 = 0x0D;

pub const CIS_ESTABLISHED: u8 = 0x19;

pub const CIS_REQUEST: u8 = 0x1A;

} // verus!
