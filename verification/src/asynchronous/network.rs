//! The codec between a stream of bytes and the messages of the protocol.
use crate::asynchronous::boardio::MessageOut;
use crate::asynchronous::parser::{data_parsed, parse_data};
use crate::message::{header_of, position_of, MessageIn};
use crate::protocol_constants::{
    ANALOG_MAPPING_QUERY, ANALOG_MESSAGE, CAPABILITY_QUERY, DIGITAL_MESSAGE, END_SYSEX,
    I2C_CONFIG, I2C_MODE_READ, I2C_MODE_WRITE, I2C_REQUEST, PIN_MODE, REPORT_ANALOG,
    REPORT_DIGITAL, REPORT_FIRMWARE, SAMPLEING_INTERVAL, START_SYSEX, STRING_DATA,
};
use crate::wire::{le_bytes, u16_le_bytes, write_u16_le};
use crate::{pin_mode_code, FirmataError};
use bytes::BytesMut;
use vstd::prelude::*;
use vstd::utf8::encode_utf8;

verus! {

/// The most bytes that the decoder means to hold.
pub const BUFFER_SIZE: usize = 1000;

/// The length above which the decoder looks for noise to drop: seven tenths
/// of `BUFFER_SIZE`.
pub const HIGH_WATER: usize = BUFFER_SIZE / 10 * 7;

/// The offset beyond which a frame's start has only noise before it: three
/// tenths of `BUFFER_SIZE`.
pub const NOISE_LIMIT: usize = BUFFER_SIZE / 10 * 3;

/// `bytes::BytesMut`, the buffer of bytes that the codec reads from and
/// writes to. Nothing is known of what it holds but through `buffered`.
#[verifier::external_type_specification]
#[verifier::external_body]
pub struct ExBytesMut(BytesMut);

/// The bytes that a `BytesMut` holds, from its first to its last: what it
/// shows as a slice.
pub uninterp spec fn buffered(buf: BytesMut) -> Seq<u8>;

/// `BytesMut::len`: the number of bytes that the buffer holds.
pub assume_specification[ BytesMut::len ](buf: &BytesMut) -> (len: usize)
    ensures
        len == buffered(*buf).len(),
;

/// `BytesMut::split_off`: the buffer keeps its first `at` bytes and the rest
/// is returned. It panics where `at` is beyond the buffer's capacity, which is
/// never less than its length.
pub assume_specification[ BytesMut::split_off ](buf: &mut BytesMut, at: usize) -> (rest: BytesMut)
    requires
        at <= buffered(*old(buf)).len(),
    ensures
        buffered(*final(buf)) == buffered(*old(buf)).take(at as int),
        buffered(rest) == buffered(*old(buf)).skip(at as int),
;

/// `BytesMut::split_to`: the first `at` bytes are returned and the buffer
/// keeps the rest. It panics where `at` is beyond the buffer's length.
pub assume_specification[ BytesMut::split_to ](buf: &mut BytesMut, at: usize) -> (head: BytesMut)
    requires
        at <= buffered(*old(buf)).len(),
    ensures
        buffered(*final(buf)) == buffered(*old(buf)).skip(at as int),
        buffered(head) == buffered(*old(buf)).take(at as int),
;

/// `BytesMut::unsplit`: the bytes of `other` follow those of the buffer,
/// whether or not the two were one buffer before.
pub assume_specification[ BytesMut::unsplit ](buf: &mut BytesMut, other: BytesMut)
    ensures
        buffered(*final(buf)) == buffered(*old(buf)) + buffered(other),
;

/// `BytesMut::extend_from_slice`: the given bytes follow those of the buffer.
pub assume_specification[ BytesMut::extend_from_slice ](buf: &mut BytesMut, extend: &[u8])
    ensures
        buffered(*final(buf)) == buffered(*old(buf)) + extend@,
;

/// `BytesMut` as a slice, through its `AsRef`: the bytes that the buffer holds.
#[verifier::external_body]
pub(crate) fn bytes_of(buf: &BytesMut) -> (bytes: &[u8])
    ensures
        bytes@ == buffered(*buf),
{
    buf.as_ref()
}

#[derive(Copy, Clone, Debug, Eq, PartialEq, Ord, PartialOrd, Hash, Default)]
pub struct FirmataCodec(());

/// The levels of the pins of a port with only the bit of `pin` set, and that
/// only if `on` holds.
pub open spec fn single_pin_mask(pin: u8, on: bool) -> u16 {
    if on {
        1u16 << ((pin % 8) as u16)
    } else {
        0
    }
}

/// Each byte of a text as a sixteen-bit number on the wire.
pub open spec fn string_payload(text: Seq<u8>) -> Seq<u8>
    decreases text.len(),
{
    if text.len() == 0 {
        Seq::empty()
    } else {
        string_payload(text.drop_last()) + le_bytes(text.last() as u16)
    }
}

/// The frame that carries a text to the board.
pub open spec fn string_frame(text: Seq<char>) -> Seq<u8> {
    seq![START_SYSEX, STRING_DATA] + string_payload(encode_utf8(text)) + seq![END_SYSEX]
}

/// 1 for `true` and 0 for `false`.
pub open spec fn flag_byte(flag: bool) -> u8 {
    if flag {
        1
    } else {
        0
    }
}

/// Whether the wire format has a place for the command's pin. An analog write
/// carries its pin in a nibble, so the pin is at most 15; a report of analog
/// pin 255 would need the number 256.
pub open spec fn encodable(item: MessageOut) -> bool {
    match item {
        MessageOut::AnalogWrite(pin, _) => pin <= 15,
        MessageOut::ReportAnalog(pin, _) => pin < 255,
        _ => true,
    }
}

/// The bytes that stand for a command on the wire.
pub open spec fn encoding(item: MessageOut) -> Seq<u8> {
    match item {
        MessageOut::AnalogMappingQuery => seq![START_SYSEX, ANALOG_MAPPING_QUERY, END_SYSEX],
        MessageOut::CapabilityQuery => seq![START_SYSEX, CAPABILITY_QUERY, END_SYSEX],
        MessageOut::ReportFirmware => seq![START_SYSEX, REPORT_FIRMWARE, END_SYSEX],
        MessageOut::I2cConfig(delay) => seq![START_SYSEX, I2C_CONFIG] + le_bytes(delay)
            + seq![END_SYSEX],
        MessageOut::I2cRead(addr, size) => seq![
            START_SYSEX,
            I2C_REQUEST,
            addr,
            I2C_MODE_READ << 3,
        ] + le_bytes(size) + seq![END_SYSEX],
        MessageOut::I2cWrite(addr, _) => seq![
            START_SYSEX,
            I2C_REQUEST,
            addr,
            I2C_MODE_WRITE << 3,
            END_SYSEX,
        ],
        MessageOut::ReportDigital(pin, enable) => seq![REPORT_DIGITAL | pin, flag_byte(enable)],
        MessageOut::ReportAnalog(pin, enable) => seq![
            REPORT_ANALOG | ((pin + 1) as u8),
            flag_byte(enable),
        ],
        MessageOut::AnalogWrite(pin, output) => seq![ANALOG_MESSAGE | pin] + le_bytes(output),
        MessageOut::DigitalWrite(pin, on) => seq![DIGITAL_MESSAGE | (pin / 8)] + le_bytes(
            single_pin_mask(pin, on),
        ),
        MessageOut::DigitalMessage(port, output) => seq![DIGITAL_MESSAGE | port] + le_bytes(
            output,
        ),
        MessageOut::StringWrite(text) => string_frame(text@),
        MessageOut::PinMode(pin, mode) => seq![PIN_MODE, pin, pin_mode_code(mode)],
        MessageOut::SampleingInterval(millis) => seq![START_SYSEX, SAMPLEING_INTERVAL] + le_bytes(
            millis,
        ) + seq![END_SYSEX],
    }
}

/// The bytes of a command, or `OutOfRange` where the wire format has no
/// place for its pin.
pub fn encode_message(item: MessageOut) -> (r: Result<Vec<u8>, FirmataError>)
    ensures
        match r {
            Ok(bytes) => encodable(item) && bytes@ == encoding(item),
            Err(FirmataError::OutOfRange(_)) => !encodable(item),
            Err(_) => false,
        },
{
    let mut buf: Vec<u8> = Vec::new();
    match item {
        MessageOut::AnalogMappingQuery => {
            buf.push(START_SYSEX);
            buf.push(ANALOG_MAPPING_QUERY);
            buf.push(END_SYSEX);
        },
        MessageOut::CapabilityQuery => {
            buf.push(START_SYSEX);
            buf.push(CAPABILITY_QUERY);
            buf.push(END_SYSEX);
        },
        MessageOut::ReportFirmware => {
            buf.push(START_SYSEX);
            buf.push(REPORT_FIRMWARE);
            buf.push(END_SYSEX);
        },
        MessageOut::I2cConfig(delay) => {
            let bytes_out = u16_le_bytes(delay);
            buf.push(START_SYSEX);
            buf.push(I2C_CONFIG);
            buf.push(bytes_out[0]);
            buf.push(bytes_out[1]);
            buf.push(END_SYSEX);
        },
        MessageOut::I2cRead(addr, size) => {
            let bytes_out = u16_le_bytes(size);
            buf.push(START_SYSEX);
            buf.push(I2C_REQUEST);
            buf.push(addr);
            buf.push(I2C_MODE_READ << 3);
            buf.push(bytes_out[0]);
            buf.push(bytes_out[1]);
            buf.push(END_SYSEX);
        },
        // The data of the write is not sent: the frame only opens the write.
        MessageOut::I2cWrite(addr, _data) => {
            buf.push(START_SYSEX);
            buf.push(I2C_REQUEST);
            buf.push(addr);
            buf.push(I2C_MODE_WRITE << 3);
            buf.push(END_SYSEX);
        },
        MessageOut::ReportDigital(pin, enable) => {
            buf.push(REPORT_DIGITAL | pin);
            buf.push(if enable { 1 } else { 0 });
        },
        MessageOut::ReportAnalog(pin, enable) => {
            if pin == 255 {
                return Err(FirmataError::OutOfRange("analog channel has no report number"));
            }
            buf.push(REPORT_ANALOG | (pin + 1));
            buf.push(if enable { 1 } else { 0 });
        },
        MessageOut::AnalogWrite(pin, output) => {
            if pin > 15 {
                return Err(FirmataError::OutOfRange("an analog message addresses the pins 0 to 15"));
            }
            let bytes_out = u16_le_bytes(output);
            buf.push(ANALOG_MESSAGE | pin);
            buf.push(bytes_out[0]);
            buf.push(bytes_out[1]);
        },
        MessageOut::DigitalWrite(pin, on) => {
            let mask: u16 = if on { 1u16 << ((pin % 8) as u16) } else { 0 };
            let bytes_out = u16_le_bytes(mask);
            buf.push(DIGITAL_MESSAGE | (pin / 8));
            buf.push(bytes_out[0]);
            buf.push(bytes_out[1]);
        },
        MessageOut::DigitalMessage(port, output) => {
            let bytes_out = u16_le_bytes(output);
            buf.push(DIGITAL_MESSAGE | port);
            buf.push(bytes_out[0]);
            buf.push(bytes_out[1]);
        },
        MessageOut::StringWrite(string_out) => {
            buf.push(START_SYSEX);
            buf.push(STRING_DATA);
            let text = string_out.as_str().as_bytes();
            let mut i: usize = 0;
            while i < text.len()
                invariant
                    i <= text@.len(),
                    text@ == encode_utf8(string_out@),
                    buf@ == seq![START_SYSEX, STRING_DATA] + string_payload(text@.take(i as int)),
                decreases text@.len() - i,
            {
                let double_byte: u16 = text[i] as u16;
                let pair = write_u16_le(double_byte);
                buf.push(pair[0]);
                buf.push(pair[1]);
                proof {
                    let next = text@.take(i + 1);
                    assert(next.drop_last() =~= text@.take(i as int));
                }
                i += 1;
            }
            proof {
                assert(text@.take(i as int) =~= text@);
            }
            buf.push(END_SYSEX);
        },
        MessageOut::PinMode(pin, mode) => {
            buf.push(PIN_MODE);
            buf.push(pin);
            buf.push(mode.to_u8());
        },
        MessageOut::SampleingInterval(millis) => {
            let bytes = u16_le_bytes(millis);
            buf.push(START_SYSEX);
            buf.push(SAMPLEING_INTERVAL);
            buf.push(bytes[0]);
            buf.push(bytes[1]);
            buf.push(END_SYSEX);
        },
    }
    Ok(buf)
}

/// Whether a byte opens a frame.
pub open spec fn is_frame_start(byte: u8) -> bool {
    header_of(byte) is Some
}

/// The first place at or after `from` where a frame starts, or the length of
/// `bytes` if none does.
pub open spec fn start_position(bytes: Seq<u8>, from: int) -> int
    decreases bytes.len() - from,
{
    if from < 0 || from >= bytes.len() {
        bytes.len() as int
    } else if is_frame_start(bytes[from]) {
        from
    } else {
        start_position(bytes, from + 1)
    }
}

/// What `start_position` finds: no frame starts between `from` and the place
/// found, and one starts at the place found if it is within `bytes`.
pub proof fn lemma_start_position(bytes: Seq<u8>, from: int)
    requires
        0 <= from <= bytes.len(),
    ensures
        from <= start_position(bytes, from) <= bytes.len(),
        forall|j: int| from <= j < start_position(bytes, from) ==> !is_frame_start(bytes[j]),
        start_position(bytes, from) < bytes.len() ==> is_frame_start(
            bytes[start_position(bytes, from)],
        ),
    decreases bytes.len() - from,
{
    if from < bytes.len() && !is_frame_start(bytes[from]) {
        lemma_start_position(bytes, from + 1);
    }
}

/// A place where a frame starts with none starting between `from` and it is
/// the place that `start_position` finds.
pub proof fn lemma_start_position_is(bytes: Seq<u8>, from: int, at: int)
    requires
        0 <= from <= at <= bytes.len(),
        forall|j: int| from <= j < at ==> !is_frame_start(bytes[j]),
        at < bytes.len() ==> is_frame_start(bytes[at]),
    ensures
        start_position(bytes, from) == at,
    decreases at - from,
{
    if from < at {
        lemma_start_position_is(bytes, from + 1, at);
    }
}

/// The place of the last byte of the frame that starts at `start`, if the
/// whole frame is there. A system frame runs to the next closing byte; every
/// other frame has three bytes.
pub open spec fn frame_end(bytes: Seq<u8>, start: int) -> Option<int> {
    if start < 0 || start >= bytes.len() {
        None
    } else if bytes[start] == START_SYSEX {
        let end = position_of(bytes, END_SYSEX, start);
        if end < bytes.len() {
            Some(end)
        } else {
            None
        }
    } else if start + 2 < bytes.len() {
        Some(start + 2)
    } else {
        None
    }
}

/// The earliest frame in the buffer, if the whole of it is there.
pub open spec fn next_frame(bytes: Seq<u8>) -> Option<Seq<u8>> {
    let start = start_position(bytes, 0);
    match frame_end(bytes, start) {
        Some(end) => Some(bytes.subrange(start, end + 1)),
        None => None,
    }
}

/// The buffer without its earliest frame, if the whole of it is there: what
/// stood before the frame and what stands after it stay.
pub open spec fn without_next_frame(bytes: Seq<u8>) -> Seq<u8> {
    let start = start_position(bytes, 0);
    match frame_end(bytes, start) {
        Some(end) => bytes.take(start) + bytes.skip(end + 1),
        None => bytes,
    }
}

/// The buffer after the guard against noise: where it holds more than
/// `HIGH_WATER` bytes and its first frame starts beyond `NOISE_LIMIT`, what
/// stands before that start is dropped.
pub open spec fn without_noise(bytes: Seq<u8>) -> Seq<u8> {
    let start = start_position(bytes, 0);
    if bytes.len() > HIGH_WATER && start < bytes.len() && start > NOISE_LIMIT {
        bytes.skip(start)
    } else {
        bytes
    }
}

/// The buffer after one step of the decoder.
pub open spec fn after_decode(bytes: Seq<u8>) -> Seq<u8> {
    without_noise(without_next_frame(bytes))
}

/// What one step of the decoder returns for the frame that it took, if it took one.
pub open spec fn decoded(
    frame: Option<Seq<u8>>,
    r: Result<Option<MessageIn>, FirmataError>,
) -> bool {
    match frame {
        None => r matches Ok(None),
        Some(bytes) => match r {
            Ok(Some(message)) => data_parsed(bytes, Ok(message)),
            Ok(None) => false,
            Err(e) => data_parsed(bytes, Err(e)),
        },
    }
}

/// The first place at or after `from` where a frame starts, or the length of
/// `bytes` if none does.
pub fn find_start(bytes: &[u8], from: usize) -> (at: usize)
    requires
        from <= bytes@.len(),
    ensures
        at == start_position(bytes@, from as int),
        from <= at <= bytes@.len(),
{
    let mut i: usize = from;
    while i < bytes.len()
        invariant
            from <= i <= bytes@.len(),
            forall|j: int| from <= j < i ==> !is_frame_start(bytes@[j]),
        decreases bytes@.len() - i,
    {
        if crate::message::get_header_type(bytes[i]).is_ok() {
            proof {
                lemma_start_position_is(bytes@, from as int, i as int);
            }
            return i;
        }
        i += 1;
    }
    proof {
        lemma_start_position_is(bytes@, from as int, i as int);
    }
    i
}

/// The first place at or after `from` that holds `byte`, or the length of
/// `bytes` if none does.
pub fn find_byte(bytes: &[u8], byte: u8, from: usize) -> (at: usize)
    requires
        from <= bytes@.len(),
    ensures
        at == position_of(bytes@, byte, from as int),
        from <= at <= bytes@.len(),
{
    let mut i: usize = from;
    while i < bytes.len()
        invariant
            from <= i <= bytes@.len(),
            forall|j: int| from <= j < i ==> bytes@[j] != byte,
        decreases bytes@.len() - i,
    {
        if bytes[i] == byte {
            proof {
                crate::message::lemma_position_of_is(bytes@, byte, from as int, i as int);
            }
            return i;
        }
        i += 1;
    }
    proof {
        crate::message::lemma_position_of_is(bytes@, byte, from as int, i as int);
    }
    i
}

/// Takes the bytes from `start_index` to `end_index`, both included, out of
/// the buffer and returns them. What stood before and after them stays.
pub fn remove_section(buffer: &mut BytesMut, start_index: usize, end_index: usize) -> (section:
    BytesMut)
    requires
        start_index <= end_index < buffered(*old(buffer)).len(),
    ensures
        buffered(section) == buffered(*old(buffer)).subrange(
            start_index as int,
            end_index + 1,
        ),
        buffered(*final(buffer)) == buffered(*old(buffer)).take(start_index as int) + buffered(
            *old(buffer),
        ).skip(end_index + 1),
{
    let len: usize = buffer.len();
    let mut new_buffer = buffer.split_off(start_index);
    // The section ends within the buffer, so its length is at most `len`.
    let tail = new_buffer.split_off(end_index - start_index + 1);
    buffer.unsplit(tail);
    new_buffer
}

impl FirmataCodec {
    /// A codec. It holds nothing: all that it works on is in the buffers.
    #[must_use]
    pub fn new() -> Self {
        Self(())
    }

    /// Appends the bytes of a command to `dst`.
    ///
    /// Where the wire format has no place for the command's pin, the result
    /// is `OutOfRange` and `dst` is left as it was.
    pub fn encode(&mut self, item: MessageOut, dst: &mut BytesMut) -> (r: Result<
        (),
        FirmataError,
    >)
        ensures
            match r {
                Ok(()) => encodable(item) && buffered(*final(dst)) == buffered(*old(dst))
                    + encoding(item),
                Err(FirmataError::OutOfRange(_)) => !encodable(item) && buffered(*final(dst))
                    == buffered(*old(dst)),
                Err(_) => false,
            },
    {
        match encode_message(item) {
            Ok(bytes) => {
                dst.extend_from_slice(bytes.as_slice());
                Ok(())
            },
            Err(e) => Err(e),
        }
    }

    /// Takes the earliest frame out of `src`, if the whole of it is there, and
    /// reads it.
    ///
    /// Without a whole frame the result is `Ok(None)`. Either way the guard
    /// against noise then looks at what is left in `src`. A frame that cannot
    /// be read is an error, and its bytes are gone from `src` all the same.
    pub fn decode(&mut self, src: &mut BytesMut) -> (r: Result<Option<MessageIn>, FirmataError>)
        ensures
            buffered(*final(src)) == after_decode(buffered(*old(src))),
            decoded(next_frame(buffered(*old(src))), r),
    {
        let len: usize = src.len();
        let start: usize = find_start(bytes_of(src), 0);
        // Tries to get an entire message from the buffer
        let mut bytes: Option<BytesMut> = None;
        if start < len {
            if bytes_of(src)[start] == START_SYSEX {
                let end: usize = find_byte(bytes_of(src), END_SYSEX, start);
                if end < len {
                    bytes = Some(remove_section(src, start, end));
                }
            } else if len - start > 2 {
                bytes = Some(remove_section(src, start, start + 2));
            }
        }
        if src.len() > HIGH_WATER {
            let value: usize = find_start(bytes_of(src), 0);
            if value < src.len() && value > NOISE_LIMIT {
                let _noise = src.split_to(value);
            }
        }
        match bytes {
            Some(data) => match parse_data(bytes_of(&data)) {
                Ok(message) => Ok(Some(message)),
                Err(e) => Err(e),
            },
            None => Ok(None),
        }
    }
}

/// A system frame that has been opened and not yet closed waits in the
/// buffer: a step of the decoder takes no frame and leaves every byte where
/// it is. Once the closing byte has arrived, the next step takes the whole
/// buffer as one frame and leaves none behind.
pub proof fn lemma_open_frame_waits(bytes: Seq<u8>)
    requires
        bytes.len() > 0,
        bytes[0] == START_SYSEX,
        forall|i: int| 0 <= i < bytes.len() ==> bytes[i] != END_SYSEX,
    ensures
        next_frame(bytes) is None,
        after_decode(bytes) == bytes,
        next_frame(bytes.push(END_SYSEX)) == Some(bytes.push(END_SYSEX)),
        after_decode(bytes.push(END_SYSEX)) == Seq::<u8>::empty(),
{
    let closed = bytes.push(END_SYSEX);
    crate::message::lemma_position_of_is(bytes, END_SYSEX, 0, bytes.len() as int);
    crate::message::lemma_position_of_is(closed, END_SYSEX, 0, bytes.len() as int);
    lemma_start_position(Seq::<u8>::empty(), 0);
}

/// The guard against noise: where the buffer holds more than `HIGH_WATER`
/// bytes, its first frame starts beyond `NOISE_LIMIT` and is not yet whole, a
/// step of the decoder takes no frame and drops exactly what stands before
/// that start.
pub proof fn lemma_noise_is_dropped(bytes: Seq<u8>)
    requires
        bytes.len() > HIGH_WATER,
        NOISE_LIMIT < start_position(bytes, 0) < bytes.len(),
        frame_end(bytes, start_position(bytes, 0)) is None,
    ensures
        next_frame(bytes) is None,
        after_decode(bytes) == bytes.skip(start_position(bytes, 0)),
{
}

/// No step of the decoder drops a byte of a frame that is still arriving:
/// what is left in the buffer ends with everything from the first start of a
/// frame on, where that frame is not yet whole.
pub proof fn lemma_forming_frame_is_kept(bytes: Seq<u8>)
    requires
        start_position(bytes, 0) < bytes.len(),
        frame_end(bytes, start_position(bytes, 0)) is None,
    ensures
        after_decode(bytes) == bytes || after_decode(bytes) == bytes.skip(
            start_position(bytes, 0),
        ),
{
}

} // verus!
