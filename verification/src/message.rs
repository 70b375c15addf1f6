//! The messages that a board sends, and the parsers of their payloads.
use crate::protocol_constants::{
    is_id, ANALOG_MESSAGE, ANALOG_MESSAGE_END, DIGITAL_MESSAGE, DIGITAL_MESSAGE_END, END_SYSEX,
    PIN_SENTINEL, PROTOCOL_VERSION, START_SYSEX,
};
use crate::{FirmataError, I2CReply, I2CReplyView, Pin, PinId, PinView};
use vstd::prelude::*;
use vstd::slice::slice_to_vec;
use vstd::utf8::{decode_utf8, valid_utf8};

verus! {

/// The four kinds of frame, told apart by a frame's first byte.
#[derive(Debug, Clone, Copy, PartialEq, Eq, Structural)]
pub enum Header {
    System,
    AnalogMessage,
    DigitalMessage,
    ProtocolVersion,
}

/// The kind of frame that `byte` opens, if it opens one.
///
/// An analog or digital header carries a pin or port number in its low
/// nibble; the number 15 is not recognised.
pub open spec fn header_of(byte: u8) -> Option<Header> {
    if byte == PROTOCOL_VERSION {
        Some(Header::ProtocolVersion)
    } else if byte == START_SYSEX {
        Some(Header::System)
    } else if ANALOG_MESSAGE <= byte < ANALOG_MESSAGE_END {
        Some(Header::AnalogMessage)
    } else if DIGITAL_MESSAGE <= byte < DIGITAL_MESSAGE_END {
        Some(Header::DigitalMessage)
    } else {
        None
    }
}

/// Checks a byte to see if it is a valid header byte.
///
/// Returns a `ConversionFailure` if it is none.
pub fn get_header_type(byte: u8) -> (r: Result<Header, FirmataError>)
    ensures
        match r {
            Ok(header) => header_of(byte) == Some(header),
            Err(FirmataError::ConversionFailure(_)) => header_of(byte) is None,
            Err(_) => false,
        },
{
    if byte == PROTOCOL_VERSION {
        return Ok(Header::ProtocolVersion);
    } else if byte == START_SYSEX {
        return Ok(Header::System);
    } else if is_id(byte, ANALOG_MESSAGE..ANALOG_MESSAGE_END) {
        return Ok(Header::AnalogMessage);
    } else if is_id(byte, DIGITAL_MESSAGE..DIGITAL_MESSAGE_END) {
        return Ok(Header::DigitalMessage);
    }
    Err(FirmataError::ConversionFailure("failed to convert u8 into message header"))
}

#[derive(Debug, Clone, Copy, PartialEq, Eq, Structural)]
pub enum MessageId {
    Analog,
    Digital,
    ProtocolVersion,
    AnalogMapping,
    Capability,
    I2cReply,
    ReportFirmware,
}

#[derive(Debug, Clone)]
pub enum MessageIn {
    Analog(Analog),
    Digital(Digital),
    System(System),
    ProtocolVersion(String),
}

#[derive(Debug, Clone)]
pub struct Message {
    pub message_id: MessageId,
    pub message: MessageIn,
}

/// A new reading of an analog channel.
#[derive(Debug, Clone, Copy)]
pub struct Analog {
    pub pin: PinId,
    pub value: u16,
}

/// A new reading of the eight pins of a port, one bit for each.
#[derive(Debug, Clone, Copy)]
pub struct Digital {
    pub port: u8,
    pub value: u16,
}

#[derive(Debug, Clone)]
pub enum System {
    AnalogMappingResponse(AnalogMappingResponse),
    CapabilityResponseMessage(CapabilityResponse),
    ReportFirmwareMessage(ReportFirmware),
    I2cReplyMessage(I2cReply),
}

/// The physical pin numbers of the pins that have an analog channel, ascending.
#[derive(Debug, Clone)]
pub struct AnalogMappingResponse {
    pub supported_analog_pins: Vec<usize>,
}

/// The pins of the board, in the order of their physical pin numbers.
#[derive(Debug, Clone)]
pub struct CapabilityResponse {
    pub pins: Vec<Pin>,
}

#[derive(Debug, Clone)]
pub struct ReportFirmware {
    pub version: String,
    pub name: String,
}

#[derive(Debug, Clone)]
pub struct I2cReply {
    pub reply: I2CReply,
}

/// What a `ReportFirmware` holds.
pub struct ReportFirmwareView {
    pub version: Seq<char>,
    pub name: Seq<char>,
}

/// What a `System` message holds.
pub enum SystemView {
    AnalogMappingResponse(Seq<usize>),
    CapabilityResponseMessage(Seq<PinView>),
    ReportFirmwareMessage(ReportFirmwareView),
    I2cReplyMessage(I2CReplyView),
}

/// What a `MessageIn` holds.
pub enum MessageInView {
    Analog(Analog),
    Digital(Digital),
    System(SystemView),
    ProtocolVersion(Seq<char>),
}

/// What a `Message` holds.
pub struct MessageView {
    pub message_id: MessageId,
    pub message: MessageInView,
}

impl View for AnalogMappingResponse {
    type V = Seq<usize>;

    open spec fn view(&self) -> Seq<usize> {
        self.supported_analog_pins@
    }
}

impl View for CapabilityResponse {
    type V = Seq<PinView>;

    open spec fn view(&self) -> Seq<PinView> {
        crate::pins_view(self.pins@)
    }
}

impl View for ReportFirmware {
    type V = ReportFirmwareView;

    open spec fn view(&self) -> ReportFirmwareView {
        ReportFirmwareView { version: self.version@, name: self.name@ }
    }
}

impl View for I2cReply {
    type V = I2CReplyView;

    open spec fn view(&self) -> I2CReplyView {
        self.reply@
    }
}

impl View for System {
    type V = SystemView;

    open spec fn view(&self) -> SystemView {
        match self {
            System::AnalogMappingResponse(m) => SystemView::AnalogMappingResponse(m@),
            System::CapabilityResponseMessage(m) => SystemView::CapabilityResponseMessage(m@),
            System::ReportFirmwareMessage(m) => SystemView::ReportFirmwareMessage(m@),
            System::I2cReplyMessage(m) => SystemView::I2cReplyMessage(m@),
        }
    }
}

impl View for MessageIn {
    type V = MessageInView;

    open spec fn view(&self) -> MessageInView {
        match self {
            MessageIn::Analog(m) => MessageInView::Analog(*m),
            MessageIn::Digital(m) => MessageInView::Digital(*m),
            MessageIn::System(m) => MessageInView::System(m@),
            MessageIn::ProtocolVersion(text) => MessageInView::ProtocolVersion(text@),
        }
    }
}

impl View for Message {
    type V = MessageView;

    open spec fn view(&self) -> MessageView {
        MessageView { message_id: self.message_id, message: self.message@ }
    }
}

/// The kind of a message.
pub open spec fn message_id_of(message: MessageInView) -> MessageId {
    match message {
        MessageInView::Analog(_) => MessageId::Analog,
        MessageInView::Digital(_) => MessageId::Digital,
        MessageInView::ProtocolVersion(_) => MessageId::ProtocolVersion,
        MessageInView::System(SystemView::AnalogMappingResponse(_)) => MessageId::AnalogMapping,
        MessageInView::System(SystemView::CapabilityResponseMessage(_)) => MessageId::Capability,
        MessageInView::System(SystemView::ReportFirmwareMessage(_)) => MessageId::ReportFirmware,
        MessageInView::System(SystemView::I2cReplyMessage(_)) => MessageId::I2cReply,
    }
}

/// The places in an analog mapping payload that hold a channel number, in
/// ascending order. The place of a byte is the physical pin number it speaks of.
pub open spec fn analog_indices(payload: Seq<u8>) -> Seq<usize>
    decreases payload.len(),
{
    if payload.len() == 0 {
        Seq::empty()
    } else if payload.last() != PIN_SENTINEL {
        analog_indices(payload.drop_last()).push((payload.len() - 1) as usize)
    } else {
        analog_indices(payload.drop_last())
    }
}

impl AnalogMappingResponse {
    #[must_use]
    pub fn into_message(message: Self) -> (r: Message)
        ensures
            r.message_id == MessageId::AnalogMapping,
            r.message == MessageIn::System(System::AnalogMappingResponse(message)),
    {
        Message {
            message_id: MessageId::AnalogMapping,
            message: MessageIn::System(System::AnalogMappingResponse(message)),
        }
    }

    /// Reads the payload of an analog mapping response: one byte for each
    /// pin, which is the sentinel 0x7F where the pin has no analog channel.
    #[must_use]
    pub fn deserialize(byte_stream: &[u8]) -> (r: Self)
        ensures
            r@ == analog_indices(byte_stream@),
            names_analog_places(byte_stream@, r@),
    {
        let mut supported_analog_pins: Vec<usize> = Vec::new();
        let mut index: usize = 0;
        while index < byte_stream.len()
            invariant
                index <= byte_stream@.len(),
                supported_analog_pins@ == analog_indices(byte_stream@.take(index as int)),
            decreases byte_stream@.len() - index,
        {
            proof {
                let next = byte_stream@.take(index + 1);
                assert(next.drop_last() =~= byte_stream@.take(index as int));
            }
            if byte_stream[index] != PIN_SENTINEL {
                supported_analog_pins.push(index);
            }
            index += 1;
        }
        proof {
            assert(byte_stream@.take(index as int) =~= byte_stream@);
            lemma_analog_indices(byte_stream@);
        }
        Self { supported_analog_pins }
    }
}

/// Whether `indices` names exactly the places of the payload that do not
/// hold the sentinel, each once, in ascending order.
pub open spec fn names_analog_places(payload: Seq<u8>, indices: Seq<usize>) -> bool {
    &&& forall|k: int|
        0 <= k < indices.len() ==> {
            let i = #[trigger] indices[k];
            i < payload.len() && payload[i as int] != PIN_SENTINEL
        }
    &&& forall|j: int, k: int| 0 <= j < k < indices.len() ==> indices[j] < indices[k]
    &&& forall|i: int|
        0 <= i < payload.len() && #[trigger] payload[i] != PIN_SENTINEL ==> exists|k: int|
            0 <= k < indices.len() && #[trigger] indices[k] == i
}

/// What `analog_indices` lists: exactly the places of the payload that do not
/// hold the sentinel, each once, in ascending order.
pub proof fn lemma_analog_indices(payload: Seq<u8>)
    requires
        payload.len() <= usize::MAX,
    ensures
        names_analog_places(payload, analog_indices(payload)),
    decreases payload.len(),
{
    if payload.len() > 0 {
        let rest = payload.drop_last();
        lemma_analog_indices(rest);
        let here = analog_indices(payload);
        let before = analog_indices(rest);
        assert forall|i: int|
            0 <= i < payload.len() && #[trigger] payload[i] != PIN_SENTINEL implies exists|k: int|
            0 <= k < here.len() && #[trigger] here[k] == i by {
            if i < rest.len() {
                assert(rest[i] == payload[i]);
                let k = choose|k: int| 0 <= k < before.len() && #[trigger] before[k] == i;
                assert(here[k] == i);
            } else {
                assert(here[here.len() - 1] == i);
            }
        }
        assert forall|k: int| 0 <= k < here.len() implies {
            let i = #[trigger] here[k];
            i < payload.len() && payload[i as int] != PIN_SENTINEL
        } by {}
        assert forall|j: int, k: int| 0 <= j < k < here.len() implies here[j] < here[k] by {}
    }
}

/// Two bytes of seven bits each as one number: the low byte, and the high
/// byte seven places up.
pub open spec fn fourteen_bits(low: u8, high: u8) -> i32 {
    (low as i32) | ((high as i32) << 7)
}

/// A data byte of an I2C reply, sent as two bytes: the low seven bits, then
/// the bit above them.
pub open spec fn seven_bit_pair(low: u8, high: u8) -> u8 {
    low | (high << 7)
}

/// The data bytes of an I2C reply whose pairs begin at `from`. The pairs end
/// at the end sentinel, or where fewer than two bytes are left.
pub open spec fn i2c_data(payload: Seq<u8>, from: int) -> Seq<u8>
    decreases payload.len() - from,
{
    if from < 0 || from + 2 > payload.len() || payload[from] == END_SYSEX {
        Seq::empty()
    } else {
        seq![seven_bit_pair(payload[from], payload[from + 1])] + i2c_data(payload, from + 2)
    }
}

/// The reply that the payload of an I2C reply frame holds.
pub open spec fn i2c_reply_of(payload: Seq<u8>) -> I2CReplyView {
    I2CReplyView {
        address: fourteen_bits(payload[0], payload[1]),
        register: fourteen_bits(payload[2], payload[3]),
        data: i2c_data(payload, 4),
    }
}

impl I2cReply {
    #[must_use]
    pub fn into_message(message: Self) -> (r: Message)
        ensures
            r.message_id == MessageId::I2cReply,
            r.message == MessageIn::System(System::I2cReplyMessage(message)),
    {
        Message {
            message_id: MessageId::I2cReply,
            message: MessageIn::System(System::I2cReplyMessage(message)),
        }
    }

    /// Reads the payload of an I2C reply: the address and the register, two
    /// bytes each, then the data.
    #[must_use]
    pub fn deserialize(byte_stream: &[u8]) -> (r: Self)
        requires
            byte_stream@.len() >= 4,
        ensures
            r@ == i2c_reply_of(byte_stream@),
    {
        let len: usize = byte_stream.len();
        let address: i32 = (byte_stream[0] as i32) | ((byte_stream[1] as i32) << 7);
        let register: i32 = (byte_stream[2] as i32) | ((byte_stream[3] as i32) << 7);
        let mut data: Vec<u8> = Vec::new();
        let mut i: usize = 4;
        while i < len
            invariant
                len == byte_stream@.len(),
                4 <= i,
                data@ + i2c_data(byte_stream@, i as int) == i2c_data(byte_stream@, 4),
            ensures
                data@ == i2c_data(byte_stream@, 4),
            decreases len - i,
        {
            if byte_stream[i] == END_SYSEX {
                break ;
            }
            if len - i < 2 {
                break ;
            }
            data.push(byte_stream[i] | (byte_stream[i + 1] << 7));
            i += 2;
        }
        Self { reply: I2CReply { address, register, data } }
    }
}

/// The first place at or after `from` where `bytes` holds `byte`, or the
/// length of `bytes` if there is none.
pub open spec fn position_of(bytes: Seq<u8>, byte: u8, from: int) -> int
    decreases bytes.len() - from,
{
    if from < 0 || from >= bytes.len() {
        bytes.len() as int
    } else if bytes[from] == byte {
        from
    } else {
        position_of(bytes, byte, from + 1)
    }
}

/// A place that holds `byte` with no `byte` between `from` and it is the
/// place that `position_of` finds.
pub proof fn lemma_position_of_is(bytes: Seq<u8>, byte: u8, from: int, at: int)
    requires
        0 <= from <= at <= bytes.len(),
        forall|j: int| from <= j < at ==> bytes[j] != byte,
        at < bytes.len() ==> bytes[at] == byte,
    ensures
        position_of(bytes, byte, from) == at,
    decreases at - from,
{
    if from < at {
        lemma_position_of_is(bytes, byte, from + 1, at);
    }
}

/// The pin records of a capability payload from `from` on. Each record ends
/// at a sentinel 0x7F, which is no part of it; what follows the last sentinel
/// is no record.
pub open spec fn pin_records(payload: Seq<u8>, from: int) -> Seq<Seq<u8>>
    decreases payload.len() - from,
{
    let end = position_of(payload, PIN_SENTINEL, from);
    if from < 0 || end < from || end >= payload.len() {
        Seq::empty()
    } else {
        seq![payload.subrange(from, end)] + pin_records(payload, end + 1)
    }
}

/// Whether a pin record is well formed: pairs of a known mode byte and a resolution.
pub open spec fn record_well_formed(record: Seq<u8>) -> bool {
    record.len() % 2 == 0 && crate::record_modes_known(record)
}

/// Whether `k` is the first record that is not well formed.
pub open spec fn first_bad_record(records: Seq<Seq<u8>>, k: int) -> bool {
    &&& 0 <= k < records.len()
    &&& !record_well_formed(records[k])
    &&& forall|j: int| 0 <= j < k ==> record_well_formed(#[trigger] records[j])
}

/// The pins that well-formed records describe, record by record.
pub open spec fn record_pins(records: Seq<Seq<u8>>) -> Seq<PinView> {
    Seq::new(records.len(), |k: int| crate::record_pin(records[k]))
}

/// What reading a capability payload gives: the pins of its records, or the
/// error of the first record that is not well formed.
pub open spec fn capability_parsed(
    payload: Seq<u8>,
    r: Result<CapabilityResponse, FirmataError>,
) -> bool {
    let records = pin_records(payload, 0);
    match r {
        Ok(response) => {
            &&& forall|k: int| 0 <= k < records.len() ==> record_well_formed(#[trigger] records[k])
            &&& response@ == record_pins(records)
        },
        Err(FirmataError::ConversionFailure(_)) => exists|k: int|
            first_bad_record(records, k) && records[k].len() % 2 != 0,
        Err(FirmataError::ParseError(_, bytes)) => exists|k: int, m: int|
            first_bad_record(records, k) && records[k].len() % 2 == 0 && crate::first_unknown_mode(
                records[k],
                m,
            ) && bytes@ == seq![records[k][2 * m]],
        Err(_) => false,
    }
}

impl CapabilityResponse {
    #[must_use]
    pub fn into_message(message: Self) -> (r: Message)
        ensures
            r.message_id == MessageId::Capability,
            r.message == MessageIn::System(System::CapabilityResponseMessage(message)),
    {
        Message {
            message_id: MessageId::Capability,
            message: MessageIn::System(System::CapabilityResponseMessage(message)),
        }
    }

    /// Reads the payload of a capability response: one record for each pin,
    /// each closed by the sentinel 0x7F. A record without bytes is a pin
    /// without modes.
    pub fn deserialize(byte_stream: &[u8]) -> (r: Result<Self, FirmataError>)
        ensures
            capability_parsed(byte_stream@, r),
    {
        let mut pins: Vec<Pin> = Vec::new();
        let mut last: usize = 0;
        let mut i: usize = 0;
        let ghost records = pin_records(byte_stream@, 0);
        let ghost mut done: Seq<Seq<u8>> = Seq::empty();
        while i < byte_stream.len()
            invariant
                last <= i <= byte_stream@.len(),
                records == pin_records(byte_stream@, 0),
                records == done + pin_records(byte_stream@, last as int),
                forall|j: int| last <= j < i ==> byte_stream@[j] != PIN_SENTINEL,
                forall|k: int| 0 <= k < done.len() ==> record_well_formed(#[trigger] done[k]),
                pins@.len() == done.len(),
                crate::pins_view(pins@) == record_pins(done),
            decreases byte_stream@.len() - i,
        {
            if byte_stream[i] == PIN_SENTINEL {
                let record = slice_between(byte_stream, last, i);
                proof {
                    lemma_position_of_is(byte_stream@, PIN_SENTINEL, last as int, i as int);
                }
                match Pin::deserialize(record) {
                    Ok(pin) => {
                        let ghost before = pins@;
                        let ghost earlier = done;
                        pins.push(pin);
                        proof {
                            done = earlier.push(record@);
                            assert forall|k: int| 0 <= k < pins@.len() implies crate::pins_view(
                                pins@,
                            )[k] == record_pins(done)[k] by {
                                if k < before.len() {
                                    assert(crate::pins_view(before)[k] == record_pins(earlier)[k]);
                                }
                            }
                        }
                    },
                    Err(e) => {
                        proof {
                            let k = done.len() as int;
                            assert forall|j: int| 0 <= j < k implies record_well_formed(
                                #[trigger] records[j],
                            ) by {
                            }
                            assert(first_bad_record(records, k));
                            if record@.len() % 2 == 0 {
                                let bytes = e->ParseError_1;
                                let m = choose|m: int|
                                    crate::first_unknown_mode(record@, m) && bytes@[0] == record@[2
                                        * m];
                                assert(bytes@ =~= seq![records[k][2 * m]]);
                            }
                        }
                        return Err(e);
                    },
                }
                last = i + 1;
            }
            i += 1;
        }
        proof {
            lemma_position_of_is(
                byte_stream@,
                PIN_SENTINEL,
                last as int,
                byte_stream@.len() as int,
            );
        }
        Ok(Self { pins })
    }
}

/// The part of `bytes` from `from` up to, but not including, `to`.
pub fn slice_between(bytes: &[u8], from: usize, to: usize) -> (part: &[u8])
    requires
        from <= to <= bytes@.len(),
    ensures
        part@ == bytes@.subrange(from as int, to as int),
{
    &bytes[from..to]
}

/// The digit that stands for `d` in base 8.
pub open spec fn octal_digit(d: u8) -> char {
    match d {
        0 => '0',
        1 => '1',
        2 => '2',
        3 => '3',
        4 => '4',
        5 => '5',
        6 => '6',
        _ => '7',
    }
}

/// A byte written in base 8, without leading zeros.
pub open spec fn octal_digits(n: u8) -> Seq<char> {
    if n < 8 {
        seq![octal_digit(n)]
    } else if n < 64 {
        seq![octal_digit(n / 8), octal_digit(n % 8)]
    } else {
        seq![octal_digit(n / 64), octal_digit((n / 8) % 8), octal_digit(n % 8)]
    }
}

/// A version as the board reports it, for display: the major and the minor
/// number, each in base 8, with a dot between them.
pub open spec fn version_text(major: u8, minor: u8) -> Seq<char> {
    octal_digits(major) + seq!['.'] + octal_digits(minor)
}

/// `text` with `to` in the place of each `from`.
pub open spec fn replace_char(text: Seq<char>, from: char, to: Seq<char>) -> Seq<char>
    decreases text.len(),
{
    if text.len() == 0 {
        Seq::empty()
    } else {
        replace_char(text.drop_last(), from, to) + (if text.last() == from {
            to
        } else {
            seq![text.last()]
        })
    }
}

/// The name of a firmware as its bytes spell it in UTF-8, without the NUL
/// characters among them.
pub open spec fn firmware_name(bytes: Seq<u8>) -> Seq<char> {
    replace_char(decode_utf8(bytes), '\0', Seq::empty())
}

/// What reading the payload of a firmware report gives.
pub open spec fn firmware_parsed(payload: Seq<u8>, r: Result<ReportFirmware, FirmataError>) -> bool {
    if payload.len() < 2 {
        r matches Err(FirmataError::OutOfRange(_))
    } else if !valid_utf8(payload.skip(2)) {
        r matches Err(FirmataError::ParseError(_, bytes)) && bytes@ == payload
    } else {
        r matches Ok(report) && report@ == (ReportFirmwareView {
            version: version_text(payload[0], payload[1]),
            name: firmware_name(payload.skip(2)),
        })
    }
}

/// `std::string::FromUtf8Error`, the error that `String::from_utf8` returns.
/// Nothing is known of what it holds.
#[verifier::external_type_specification]
#[verifier::external_body]
pub struct ExFromUtf8Error(std::string::FromUtf8Error);

/// `format!` with two `{:o}` around a dot: std writes each number in base 8,
/// without leading zeros or a prefix.
#[verifier::external_body]
pub(crate) fn octal_pair(major: u8, minor: u8) -> (text: String)
    ensures
        text@ == version_text(major, minor),
{
    format!("{:o}.{:o}", major, minor)
}

/// `String::from_utf8`: std accepts the bytes if and only if they are valid
/// UTF-8, and the string then holds the characters that they spell.
#[verifier::external_body]
fn string_from_utf8(bytes: Vec<u8>) -> (r: Result<String, std::string::FromUtf8Error>)
    ensures
        r is Ok <==> valid_utf8(bytes@),
        r matches Ok(text) ==> text@ == decode_utf8(bytes@),
{
    String::from_utf8(bytes)
}

/// `str::replace` with a character as the pattern: std puts `to` in the
/// place of each `from` and keeps every other character.
#[verifier::external_body]
fn str_replace(text: &str, from: char, to: &str) -> (r: String)
    ensures
        r@ == replace_char(text@, from, to@),
{
    text.replace(from, to)
}

impl ReportFirmware {
    #[must_use]
    pub fn into_message(message: Self) -> (r: Message)
        ensures
            r.message_id == MessageId::ReportFirmware,
            r.message == MessageIn::System(System::ReportFirmwareMessage(message)),
    {
        Message {
            message_id: MessageId::ReportFirmware,
            message: MessageIn::System(System::ReportFirmwareMessage(message)),
        }
    }

    /// Reads the payload of a firmware report: the major and the minor version
    /// number, then the name.
    ///
    /// A payload of fewer than two bytes is `OutOfRange`; a name that is not
    /// UTF-8 is a `ParseError` that carries the payload.
    pub fn deserialize(byte_stream: &[u8]) -> (r: Result<Self, FirmataError>)
        ensures
            firmware_parsed(byte_stream@, r),
    {
        if byte_stream.len() < 2 {
            return Err(FirmataError::OutOfRange("index out of range"));
        }
        let version = octal_pair(byte_stream[0], byte_stream[1]);
        let name_bytes = slice_to_vec(slice_between(byte_stream, 2, byte_stream.len()));
        let name = match string_from_utf8(name_bytes) {
            Ok(v) => {
                proof {
                    reveal_strlit("");
                    assert(""@ =~= Seq::<char>::empty());
                }
                str_replace(v.as_str(), '\0', "")
            },
            Err(_) => {
                return Err(FirmataError::ParseError("failed to parse", slice_to_vec(byte_stream)));
            },
        };
        Ok(Self { version, name })
    }
}

} // verus!
