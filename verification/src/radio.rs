//! Standard, read-only LE power telemetry. There is no portable HCI setter
//! for an active connection's absolute transmit power.

use crate::bytes::{le16, push_u16, read_u16, u16_at};
use crate::hci::{command, command_packet};
use vstd::prelude::*;

verus! {

pub const READ_RANGE: u16 = 0x204b;

pub const READ_CONNECTION: u16 = 0x2076;

/// What is known about the transmit power of a link, in dBm.
#[derive(Debug, Clone, Copy, PartialEq, Eq, Structural)]
pub struct Power {
    pub phy: u8,
    pub min: Option<i8>,
    pub adapter_max: Option<i8>,
    pub current: Option<i8>,
    pub connection_max: Option<i8>,
    pub available: bool,
}

impl Default for Power {
    fn default() -> (power: Self)
        ensures
            power == (Power {
                phy: 0,
                min: None,
                adapter_max: None,
                current: None,
                connection_max: None,
                available: false,
            }),
    {
        Power {
            phy: 0,
            min: None,
            adapter_max: None,
            current: None,
            connection_max: None,
            available: false,
        }
    }
}

pub fn range_command() -> (packet: Vec<u8>)
    ensures
        packet@ == command_packet(READ_RANGE, seq![]),
{
    let none: [u8; 0] = [];
    assert(none@ =~= seq![]);
    command(READ_RANGE, &none)
}

pub fn connection_command(handle: u16, phy: u8) -> (packet: Vec<u8>)
    ensures
        packet@ == command_packet(READ_CONNECTION, le16(handle).push(phy)),
{
    let mut params: Vec<u8> = Vec::new();
    push_u16(&mut params, handle);
    params.push(phy);
    assert(params@ =~= le16(handle).push(phy));
    command(READ_CONNECTION, &params)
}

/// The signed number a byte stands for.
pub open spec fn signed(value: u8) -> int {
    if value < 128 {
        value as int
    } else {
        value - 256
    }
}

/// The power a byte reports; values outside -127 to 20 dBm mean that there is
/// none to report.
pub open spec fn power_of(value: u8) -> Option<i8> {
    if -127 <= signed(value) <= 20 {
        Some(signed(value) as i8)
    } else {
        None
    }
}

/// Reads one power byte.
pub fn dbm(value: u8) -> (power: Option<i8>)
    ensures
        power == power_of(value),
{
    if value <= 20 {
        Some(value as i8)
    } else if value >= 129 {
        Some((value as i16 - 256) as i8)
    } else {
        None
    }
}

/// The least and the greatest power that the adapter reports.
pub open spec fn range_of(p: Seq<u8>) -> Option<(i8, i8)> {
    if p.len() == 3 && p[0] == 0 && power_of(p[1]) is Some && power_of(p[2]) is Some && signed(p[1])
        <= signed(p[2]) {
        Some((signed(p[1]) as i8, signed(p[2]) as i8))
    } else {
        None
    }
}

/// Reads the power range of the adapter: two reported values in order.
pub fn range(p: &[u8]) -> (limits: Option<(i8, i8)>)
    ensures
        limits == range_of(p@),
{
    if p.len() != 3 || p[0] != 0 {
        return None;
    }
    let min = match dbm(p[1]) {
        Some(min) => min,
        None => return None,
    };
    let max = match dbm(p[2]) {
        Some(max) => max,
        None => return None,
    };
    if min <= max {
        Some((min, max))
    } else {
        None
    }
}

/// The current and the greatest power of a connection.
pub open spec fn levels_of(p: Seq<u8>, handle: u16, phy: u8) -> Option<(Option<i8>, Option<i8>)> {
    if p.len() == 6 && p[0] == 0 && u16_at(p, 1) == handle && p[3] == phy {
        Some((power_of(p[4]), power_of(p[5])))
    } else {
        None
    }
}

/// Reads the current and the highest power of one connection on one PHY.
pub fn connection(p: &[u8], handle: u16, phy: u8) -> (levels: Option<(Option<i8>, Option<i8>)>)
    ensures
        levels == levels_of(p@, handle, phy),
{
    if p.len() != 6 || p[0] != 0 || read_u16(p, 1) != handle || p[3] != phy {
        return None;
    }
    Some((dbm(p[4]), dbm(p[5])))
}

/// A power is a signed number of dBm from -127 to 20; anything else is no power.
pub proof fn a_power_is_signed(value: u8)
    ensures
        match power_of(value) {
            Some(dbm) => -127 <= dbm <= 20 && (dbm - value == 0 || dbm - value == -256),
            None => value == 128 || 21 <= value < 128,
        },
        READ_RANGE == 0x204B,
        READ_CONNECTION == 0x2076,
{
}

/// The adapter's range is the lower power and the higher, in this order, and a
/// connection's levels are the current one and the greatest, for the connection and
/// the PHY that were asked about. A failed command reports neither.
pub proof fn powers_are_reported_in_order(
    status: u8,
    first: u8,
    second: u8,
    handle: u16,
    other: u16,
    phy: u8,
    asked: u8,
)
    requires
        power_of(first) is Some,
        power_of(second) is Some,
    ensures
        range_of(seq![status, first, second]) is Some <==> status == 0 && signed(first) <= signed(
            second,
        ),
        range_of(seq![status, first, second]) matches Some(r) ==> Some(r.0) == power_of(first)
            && Some(r.1) == power_of(second),
        levels_of(
            seq![status, (handle % 256) as u8, (handle / 256) as u8, phy, first, second],
            other,
            asked,
        ) == if status == 0 && other == handle && asked == phy {
            Some((power_of(first), power_of(second)))
        } else {
            None
        },
{
    let p = seq![status, (handle % 256) as u8, (handle / 256) as u8, phy, first, second];
    assert(u16_at(p, 1) == handle);
}

} // verus!
