//! Opcodes the stack issues.

use vstd::prelude::*;

verus! {

pub const RESET: u16 = 0x0C03;

pub const SET_EVENT_MASK: u16 = 0x0C01;

pub const WRITE_LE_HOST_SUPPORTED: u16 = 0x0C6D;

pub const READ_LOCAL_VERSION: u16 = 0x1001;

pub const READ_BD_ADDR: u16 = 0x1009;

pub const DISCONNECT: u16 = 0x0406;

pub const READ_RSSI: u16 = 0x1405;

pub const LE_SET_EVENT_MASK: u16 = 0x2001;

pub const LE_SET_HOST_FEATURE: u16 = 0x2074;

pub const LE_READ_BUFFER_SIZE_V2: u16 = 0x2060;

pub const LE_READ_LOCAL_FEATURES: u16 = 0x2003;

pub const LE_SET_SCAN_PARAMETERS: u16 = 0x200B;

pub const LE_SET_SCAN_ENABLE: u16 = 0x200C;

pub const LE_CREATE_CONNECTION: u16 = 0x200D;

pub const LE_CONNECTION_UPDATE: u16 = 0x2013;

pub const LE_SET_PHY: u16 = 0x2032;

pub const LE_READ_PHY: u16 = 0x2030;

pub const LE_CREATE_CONNECTION_CANCEL: u16 = 0x200E;

pub const LE_SET_EXTENDED_SCAN_PARAMETERS: u16 = 0x2041;

pub const LE_SET_EXTENDED_SCAN_ENABLE: u16 = 0x2042;

pub const LE_EXTENDED_CREATE_CONNECTION: u16 = 0x2043;

pub const LE_ENABLE_ENCRYPTION: u16 = 0x2019;

pub const LE_LTK_REQUEST_REPLY: u16 = 0x201A;

// LE Audio: isochronous channels.
pub const LE_SET_CIG_PARAMETERS: u16 = 0x2062;

pub const LE_CREATE_CIS: u16 = 0x2064;

pub const LE_REMOVE_CIG: u16 = 0x2065;

pub const LE_SETUP_ISO_DATA_PATH: u16 = 0x206E;

pub const LE_REMOVE_ISO_DATA_PATH: u16 = 0x206F;

pub const LE_READ_ISO_LINK_QUALITY: u16 = 0x2075;

} // verus!
