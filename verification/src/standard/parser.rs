//! From the bytes of a connection, read one after another, to a message.
use crate::asynchronous::network::{is_frame_start, start_position, find_start};
use crate::asynchronous::parser::{fixed_message, parse_system_message, system_parsed};
use crate::message::{
    get_header_type, header_of, message_id_of, octal_pair, Analog, AnalogMappingResponse,
    CapabilityResponse, Digital, Header, I2cReply, Message, MessageId, MessageIn, MessageView,
    ReportFirmware, System,
};
use crate::protocol_constants::END_SYSEX;
use crate::wire::read_u16_le;
use crate::{FirmataError, PinId};
use vstd::prelude::*;

verus! {

/// The message of an analog frame, from its header byte and the two bytes
/// that follow it. The header carries the pin in its low nibble.
pub fn read_and_parse_analog(buf: &[u8; 2], first_byte: u8) -> (r: Message)
    ensures
        r@ == (MessageView {
            message_id: MessageId::Analog,
            message: fixed_message(Header::AnalogMessage, first_byte, buf@[0], buf@[1]),
        }),
{
    let value: u16 = read_u16_le(buf.as_slice());
    // An analog message can only address the pins 0 to 15.
    let pin = first_byte & 0x0F;
    let analog_message = Analog { pin: PinId::Analog(pin), value };
    Message { message_id: MessageId::Analog, message: MessageIn::Analog(analog_message) }
}

/// The message of a digital frame, from its header byte and the two bytes
/// that follow it. The header carries the port in its low nibble.
pub fn read_and_parse_digital(buf: &[u8; 2], first_byte: u8) -> (r: Message)
    ensures
        r@ == (MessageView {
            message_id: MessageId::Digital,
            message: fixed_message(Header::DigitalMessage, first_byte, buf@[0], buf@[1]),
        }),
{
    let port = first_byte & 0x0F;
    let value: u16 = read_u16_le(buf.as_slice());
    let digital_message = Digital { port, value };
    Message { message_id: MessageId::Digital, message: MessageIn::Digital(digital_message) }
}

/// The message of a protocol version frame, from the two bytes that follow
/// its header: the major and the minor number.
pub fn read_and_parse_protocol_version(buf: &[u8; 2]) -> (r: Message)
    ensures
        r@ == (MessageView {
            message_id: MessageId::ProtocolVersion,
            message: fixed_message(Header::ProtocolVersion, 0, buf@[0], buf@[1]),
        }),
{
    let protocol_version = octal_pair(buf[0], buf[1]);
    Message {
        message_id: MessageId::ProtocolVersion,
        message: MessageIn::ProtocolVersion(protocol_version),
    }
}

/// Whether a byte ends the payload of a system frame: the closing byte does,
/// and so does a header byte, which should not be there.
pub open spec fn ends_payload(byte: u8) -> bool {
    byte == END_SYSEX || is_frame_start(byte)
}

/// The first place at or after `from` where the payload of a system frame
/// ends, or the length of `stream` if it does not end.
pub open spec fn payload_end(stream: Seq<u8>, from: int) -> int
    decreases stream.len() - from,
{
    if from < 0 || from >= stream.len() {
        stream.len() as int
    } else if ends_payload(stream[from]) {
        from
    } else {
        payload_end(stream, from + 1)
    }
}

/// A place that ends the payload with none between `from` and it that does
/// is the place that `payload_end` finds.
pub proof fn lemma_payload_end_is(stream: Seq<u8>, from: int, at: int)
    requires
        0 <= from <= at <= stream.len(),
        forall|j: int| from <= j < at ==> !ends_payload(stream[j]),
        at < stream.len() ==> ends_payload(stream[at]),
    ensures
        payload_end(stream, from) == at,
    decreases at - from,
{
    if from < at {
        lemma_payload_end_is(stream, from + 1, at);
    }
}

/// What reading a system frame gives, from the bytes that follow its opening
/// byte. Bytes that end before the frame does are an `IoError`; a header
/// byte inside the frame is a `ParseError` that carries the payload so far.
pub open spec fn system_stream_parsed(stream: Seq<u8>, r: Result<Message, FirmataError>) -> bool {
    let end = payload_end(stream, 0);
    if end >= stream.len() {
        r matches Err(FirmataError::IoError(_))
    } else if stream[end] != END_SYSEX {
        r matches Err(FirmataError::ParseError(_, bytes)) && bytes@ == stream.take(end)
    } else {
        match r {
            Ok(m) => m.message matches MessageIn::System(system) && system_parsed(
                stream.take(end),
                Ok(system),
            ) && m.message_id == message_id_of(m.message@),
            Err(e) => system_parsed(stream.take(end), Err(e)),
        }
    }
}

/// The error of a read that met the end of its input: `std::io::Error` made
/// from `ErrorKind::UnexpectedEof`.
#[verifier::external_body]
pub(crate) fn unexpected_eof() -> std::io::Error {
    std::io::Error::from(std::io::ErrorKind::UnexpectedEof)
}

/// Whether a byte ends the payload of a system frame.
pub fn ends_system_message(byte: u8) -> (r: bool)
    ensures
        r == ends_payload(byte),
{
    byte == END_SYSEX || get_header_type(byte).is_ok()
}

/// Reads a system frame from the bytes that follow its opening byte.
pub fn read_and_parse_system(stream: &[u8]) -> (r: Result<Message, FirmataError>)
    ensures
        system_stream_parsed(stream@, r),
{
    let mut payload: Vec<u8> = Vec::new();
    let mut i: usize = 0;
    // Read until we find the end of the system message, or a header that
    // should not have been there.
    loop
        invariant
            i <= stream@.len(),
            payload@ == stream@.take(i as int),
            forall|j: int| 0 <= j < i ==> !ends_payload(stream@[j]),
        ensures
            i < stream@.len(),
            stream@[i as int] == END_SYSEX,
            payload@ == stream@.take(i as int),
            payload_end(stream@, 0) == i,
        decreases stream@.len() - i,
    {
        if i >= stream.len() {
            proof {
                lemma_payload_end_is(stream@, 0, i as int);
            }
            return Err(FirmataError::IoError(unexpected_eof()));
        }
        let byte_in: u8 = stream[i];
        if byte_in == END_SYSEX {
            proof {
                lemma_payload_end_is(stream@, 0, i as int);
            }
            break ;
        } else if get_header_type(byte_in).is_ok() {
            proof {
                lemma_payload_end_is(stream@, 0, i as int);
            }
            return Err(
                FirmataError::ParseError(
                    "found an unexpected message header when parsing a system message",
                    payload,
                ),
            );
        }
        payload.push(byte_in);
        i += 1;
    }
    // The first byte in the payload says which message we expect.
    match parse_system_message(payload.as_slice()) {
        Ok(System::AnalogMappingResponse(message_out)) => Ok(
            AnalogMappingResponse::into_message(message_out),
        ),
        Ok(System::CapabilityResponseMessage(message_out)) => Ok(
            CapabilityResponse::into_message(message_out),
        ),
        Ok(System::I2cReplyMessage(message_out)) => Ok(I2cReply::into_message(message_out)),
        Ok(System::ReportFirmwareMessage(message_out)) => Ok(
            ReportFirmware::into_message(message_out),
        ),
        Err(e) => Err(e),
    }
}

/// What reading the next frame from `bytes` gives. What stands before the
/// first header byte is passed over. Bytes without a header byte are a
/// `Timeout`; bytes that end before the frame does are an `IoError`.
pub open spec fn stream_parsed(bytes: Seq<u8>, r: Result<Message, FirmataError>) -> bool {
    let start = start_position(bytes, 0);
    if start >= bytes.len() {
        r matches Err(FirmataError::Timeout(_))
    } else {
        match header_of(bytes[start]) {
            Some(Header::System) => system_stream_parsed(bytes.skip(start + 1), r),
            Some(kind) => if start + 2 >= bytes.len() {
                r matches Err(FirmataError::IoError(_))
            } else {
                r matches Ok(m) && m.message@ == fixed_message(
                    kind,
                    bytes[start],
                    bytes[start + 1],
                    bytes[start + 2],
                ) && m.message_id == message_id_of(m.message@)
            },
            None => false,
        }
    }
}

/// Reads the next frame from the bytes that a connection delivered, and
/// returns its message.
pub fn read_and_parse(bytes: &[u8]) -> (r: Result<Message, FirmataError>)
    ensures
        stream_parsed(bytes@, r),
{
    let start: usize = find_start(bytes, 0);
    if start >= bytes.len() {
        return Err(FirmataError::Timeout("no header byte arrived".to_owned()));
    }
    proof {
        crate::asynchronous::network::lemma_start_position(bytes@, 0);
    }
    let first_byte: u8 = bytes[start];
    let header_enum = match get_header_type(first_byte) {
        Ok(header) => header,
        Err(e) => { return Err(e); },
    };
    match header_enum {
        Header::System => {
            let rest = crate::message::slice_between(bytes, start + 1, bytes.len());
            read_and_parse_system(rest)
        },
        _ => {
            if bytes.len() - start <= 2 {
                return Err(FirmataError::IoError(unexpected_eof()));
            }
            let buf: [u8; 2] = [bytes[start + 1], bytes[start + 2]];
            match header_enum {
                Header::AnalogMessage => Ok(read_and_parse_analog(&buf, first_byte)),
                Header::DigitalMessage => Ok(read_and_parse_digital(&buf, first_byte)),
                _ => Ok(read_and_parse_protocol_version(&buf)),
            }
        },
    }
}

} // verus!
