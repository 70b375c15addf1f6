//! From one delimited frame to the message that it holds.
use crate::message::{
    capability_parsed, firmware_parsed, get_header_type, header_of, i2c_reply_of,
    analog_indices, slice_between, version_text, octal_pair, Analog, AnalogMappingResponse,
    CapabilityResponse, Digital, Header, I2cReply, MessageIn, MessageInView, ReportFirmware,
    System, SystemView,
};
use crate::protocol_constants::{
    ANALOG_MAPPING_RESPONSE, CAPABILITY_RESPONSE, I2C_MODE_READ, REPORT_FIRMWARE,
};
use crate::wire::{le_u16, read_u16_le};
use crate::{FirmataError, PinId};
use vstd::prelude::*;
use vstd::slice::slice_to_vec;

verus! {

/// What reading the payload of a system frame gives. The payload is the frame
/// without its two sentinels; its first byte says which message it is.
pub open spec fn system_parsed(payload: Seq<u8>, r: Result<System, FirmataError>) -> bool {
    if payload.len() == 0 {
        r matches Err(FirmataError::OutOfRange(_))
    } else if payload[0] == ANALOG_MAPPING_RESPONSE {
        r matches Ok(m) && m@ == SystemView::AnalogMappingResponse(analog_indices(payload.skip(1)))
    } else if payload[0] == CAPABILITY_RESPONSE {
        match r {
            Ok(System::CapabilityResponseMessage(m)) => capability_parsed(payload.skip(1), Ok(m)),
            Ok(_) => false,
            Err(e) => capability_parsed(payload.skip(1), Err(e)),
        }
    } else if payload[0] == I2C_MODE_READ {
        if payload.len() < 5 {
            r matches Err(FirmataError::OutOfRange(_))
        } else {
            r matches Ok(m) && m@ == SystemView::I2cReplyMessage(i2c_reply_of(payload.skip(1)))
        }
    } else if payload[0] == REPORT_FIRMWARE {
        match r {
            Ok(System::ReportFirmwareMessage(m)) => firmware_parsed(payload.skip(1), Ok(m)),
            Ok(_) => false,
            Err(e) => firmware_parsed(payload.skip(1), Err(e)),
        }
    } else {
        r matches Err(FirmataError::ParseError(_, bytes)) && bytes@ == payload
    }
}

/// Reads the payload of a system frame.
///
/// A payload without bytes, or too short for its message, is `OutOfRange`. A
/// first byte that names no message is a `ParseError` that carries the payload.
pub fn parse_system_message(buf: &[u8]) -> (r: Result<System, FirmataError>)
    ensures
        system_parsed(buf@, r),
{
    if buf.len() == 0 {
        return Err(FirmataError::OutOfRange("index out of range"));
    }
    let body = slice_between(buf, 1, buf.len());
    let kind: u8 = buf[0];
    if kind == ANALOG_MAPPING_RESPONSE {
        let message_out = AnalogMappingResponse::deserialize(body);
        Ok(System::AnalogMappingResponse(message_out))
    } else if kind == CAPABILITY_RESPONSE {
        match CapabilityResponse::deserialize(body) {
            Ok(message_out) => Ok(System::CapabilityResponseMessage(message_out)),
            Err(e) => Err(e),
        }
    } else if kind == I2C_MODE_READ {
        if body.len() < 4 {
            return Err(FirmataError::OutOfRange("index out of range"));
        }
        let message_out = I2cReply::deserialize(body);
        Ok(System::I2cReplyMessage(message_out))
    } else if kind == REPORT_FIRMWARE {
        match ReportFirmware::deserialize(body) {
            Ok(message_out) => Ok(System::ReportFirmwareMessage(message_out)),
            Err(e) => Err(e),
        }
    } else {
        Err(FirmataError::ParseError("did not find an expected system message", slice_to_vec(buf)))
    }
}

/// The pin or port number in the low nibble of a header byte.
pub open spec fn low_nibble(byte: u8) -> u8 {
    byte & 0x0F
}

/// What reading one frame gives. A frame begins with its header byte; a
/// system frame ends with its closing byte, and every other frame has three bytes.
pub open spec fn data_parsed(frame: Seq<u8>, r: Result<MessageIn, FirmataError>) -> bool {
    if frame.len() == 0 {
        r matches Err(FirmataError::OutOfRange(_))
    } else {
        match header_of(frame[0]) {
            None => r matches Err(FirmataError::ConversionFailure(_)),
            Some(Header::System) => if frame.len() < 2 {
                r matches Err(FirmataError::OutOfRange(_))
            } else {
                match r {
                    Ok(MessageIn::System(m)) => system_parsed(
                        frame.subrange(1, frame.len() - 1),
                        Ok(m),
                    ),
                    Ok(_) => false,
                    Err(e) => system_parsed(frame.subrange(1, frame.len() - 1), Err(e)),
                }
            },
            Some(kind) => if frame.len() < 3 {
                r matches Err(FirmataError::OutOfRange(_))
            } else {
                r matches Ok(m) && m@ == fixed_message(kind, frame[0], frame[1], frame[2])
            },
        }
    }
}

/// The message of a three-byte frame of the given kind.
pub open spec fn fixed_message(kind: Header, header: u8, first: u8, second: u8) -> MessageInView {
    match kind {
        Header::AnalogMessage => MessageInView::Analog(
            Analog { pin: PinId::Analog(low_nibble(header)), value: le_u16(first, second) },
        ),
        Header::DigitalMessage => MessageInView::Digital(
            Digital { port: low_nibble(header), value: le_u16(first, second) },
        ),
        _ => MessageInView::ProtocolVersion(version_text(first, second)),
    }
}

/// Reads the message that one frame holds.
///
/// A frame that is too short for its kind is `OutOfRange`; one that begins
/// with no header byte is a `ConversionFailure`.
pub fn parse_data(buf: &[u8]) -> (r: Result<MessageIn, FirmataError>)
    ensures
        data_parsed(buf@, r),
{
    if buf.len() == 0 {
        return Err(FirmataError::OutOfRange("index out of range"));
    }
    let header = match get_header_type(buf[0]) {
        Ok(header) => header,
        Err(e) => { return Err(e); },
    };
    match header {
        // Prune the sentinels off and pass the payload in for deserialization
        Header::System => {
            if buf.len() < 2 {
                return Err(FirmataError::OutOfRange("index out of range"));
            }
            match parse_system_message(slice_between(buf, 1, buf.len() - 1)) {
                Ok(message) => Ok(MessageIn::System(message)),
                Err(e) => Err(e),
            }
        },
        Header::AnalogMessage => {
            if buf.len() < 3 {
                return Err(FirmataError::OutOfRange("index out of range"));
            }
            let value: u16 = read_u16_le(slice_between(buf, 1, 3));
            // An analog message can only address the pins 0 to 15.
            let pin = buf[0] & 0x0F;
            Ok(MessageIn::Analog(Analog { pin: PinId::Analog(pin), value }))
        },
        Header::DigitalMessage => {
            if buf.len() < 3 {
                return Err(FirmataError::OutOfRange("index out of range"));
            }
            let port = buf[0] & 0x0F;
            let value: u16 = read_u16_le(slice_between(buf, 1, 3));
            Ok(MessageIn::Digital(Digital { port, value }))
        },
        Header::ProtocolVersion => {
            if buf.len() < 3 {
                return Err(FirmataError::OutOfRange("index out of range"));
            }
            let protocol_version = octal_pair(buf[1], buf[2]);
            Ok(MessageIn::ProtocolVersion(protocol_version))
        },
    }
}

} // verus!
