//! Byte constants of the Firmata wire protocol.
use vstd::prelude::*;

verus! {

// --- Header message bytes ---
pub const START_SYSEX: u8 = 0xF0;

pub const END_SYSEX: u8 = 0xF7;

// Analog messages carry the pin in the low nibble of the header byte, so the
// header ranges from ANALOG_MESSAGE up to, but not including, ANALOG_MESSAGE_END.
pub const ANALOG_MESSAGE: u8 = 0xE0;

pub const ANALOG_MESSAGE_END: u8 = 0xEF;

// Digital messages carry the port in the low nibble of the header byte, so the
// header ranges from DIGITAL_MESSAGE up to, but not including, DIGITAL_MESSAGE_END.
pub const DIGITAL_MESSAGE: u8 = 0x90;

pub const DIGITAL_MESSAGE_END: u8 = 0x9F;

pub const PROTOCOL_VERSION: u8 = 0xF9;

// --- Sysex aka system messages ---
pub const ANALOG_MAPPING_RESPONSE: u8 = 0x6A;

pub const CAPABILITY_RESPONSE: u8 = 0x6C;

pub const I2C_MODE_READ: u8 = 0x01;

pub const REPORT_FIRMWARE: u8 = 0x79;

// --- Message requests ---
pub const ANALOG_MAPPING_QUERY: u8 = 0x69;

pub const CAPABILITY_QUERY: u8 = 0x6B;

pub const STRING_DATA: u8 = 0x71;

pub const I2C_REQUEST: u8 = 0x76;

pub const I2C_REPLY: u8 = 0x77;

pub const I2C_CONFIG: u8 = 0x78;

pub const I2C_MODE_WRITE: u8 = 0x00;

pub const SAMPLEING_INTERVAL: u8 = 0x7A;

pub const PIN_MODE: u8 = 0xF4;

pub const DIGITAL_PIN_WRITE: u8 = 0xF5;

pub const REPORT_DIGITAL: u8 = 0xD0;

pub const REPORT_ANALOG: u8 = 0xC0;

/// The byte that closes a pin record in a capability response and marks a pin
/// without an analog channel in an analog mapping response.
pub const PIN_SENTINEL: u8 = 0x7F;

/// Whether `i` lies in the half-open range `s`.
///
/// Firmata puts a pin or port number into the low nibble of some header bytes,
/// so a header is recognised by the range it falls into.
pub fn is_id(i: u8, s: std::ops::Range<u8>) -> (found: bool)
    ensures
        found == (s.start <= i && i < s.end),
{
    s.start <= i && i < s.end
}

} // verus!
