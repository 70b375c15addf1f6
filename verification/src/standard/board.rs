//! A board as its one owner sees it: what is known of it, and the bytes of
//! each command for it.
use crate::asynchronous::boardio::{
    after_message, contradicts, copy_pin, copy_pins, empty_state, refuses, uninitialized_for,
    with_mode, with_value, MessageOut, State, StateView,
};
use crate::asynchronous::network::{encode_message, encoding, string_frame};
use crate::message::{Message, MessageId, MessageIn, MessageInView, System, SystemView};
use crate::standard::parser::{read_and_parse, stream_parsed};
use crate::protocol_constants::{END_SYSEX, I2C_MODE_WRITE, I2C_REQUEST, START_SYSEX};
use crate::{
    pins_view, resolve_pin, FirmataError, I2CReply, I2CReplyView, Pin, PinId, PinMode, PinView,
};
use vstd::prelude::*;

verus! {

/// A structure representing a firmata board.
#[derive(Debug, Clone)]
pub struct Board {
    state: State,
    i2c_data: Vec<I2CReply>,
}

/// What a `Board` holds.
pub struct BoardView {
    pub state: StateView,
    /// The I2C replies that have arrived, the oldest first.
    pub i2c_data: Seq<I2CReplyView>,
}

/// What a list of I2C replies holds, reply by reply.
pub open spec fn replies_view(replies: Seq<I2CReply>) -> Seq<I2CReplyView> {
    Seq::new(replies.len(), |i: int| replies[i]@)
}

impl View for Board {
    type V = BoardView;

    closed spec fn view(&self) -> BoardView {
        BoardView { state: self.state@, i2c_data: replies_view(self.i2c_data@) }
    }
}

/// Whether a board refuses a message. It never refuses an I2C reply.
pub open spec fn board_refuses(board: BoardView, message: MessageInView) -> bool {
    refuses(board.state, message)
}

/// The board after a message has come in: an I2C reply joins the replies
/// that have arrived, and every other message goes into the state, unless
/// the state refuses it.
pub open spec fn board_after_message(board: BoardView, message: MessageInView) -> BoardView {
    match message {
        MessageInView::System(SystemView::I2cReplyMessage(reply)) => BoardView {
            i2c_data: board.i2c_data.push(reply),
            ..board
        },
        _ => BoardView { state: after_message(board.state, message), ..board },
    }
}

/// A data byte of an I2C write as it goes out: its low seven bits, then the
/// bit above them.
pub open spec fn seven_bit_halves(byte: u8) -> Seq<u8> {
    seq![byte & 0x7F, (byte >> 7) & 0x7F]
}

/// The data of an I2C write as it goes out, byte by byte.
pub open spec fn i2c_write_payload(data: Seq<u8>) -> Seq<u8>
    decreases data.len(),
{
    if data.len() == 0 {
        Seq::empty()
    } else {
        i2c_write_payload(data.drop_last()) + seven_bit_halves(data.last())
    }
}

/// The frame that writes `data` to the I2C device at `addr`.
pub open spec fn i2c_write_frame(addr: u8, data: Seq<u8>) -> Seq<u8> {
    seq![START_SYSEX, I2C_REQUEST, addr, I2C_MODE_WRITE << 3] + i2c_write_payload(data)
        + seq![END_SYSEX]
}

/// The interval that goes out for a time of `millis` milliseconds: what of
/// it fits into sixteen bits.
pub open spec fn interval_millis(millis: u128) -> u16 {
    (millis % 0x10000) as u16
}

impl Board {
    /// A board of which nothing is known yet.
    pub fn new() -> (r: Self)
        ensures
            r@ == (BoardView { state: empty_state(), i2c_data: Seq::empty() }),
    {
        let r = Self { state: State::default(), i2c_data: Vec::new() };
        proof {
            assert(r@.i2c_data =~= Seq::<I2CReplyView>::empty());
        }
        r
    }

    /// The three queries that make a board known, each with the kind of
    /// answer to wait for before the next goes out.
    pub fn populate_board_info() -> (r: [(MessageOut, MessageId); 3])
        ensures
            r@ == seq![
                (MessageOut::ReportFirmware, MessageId::ReportFirmware),
                (MessageOut::CapabilityQuery, MessageId::Capability),
                (MessageOut::AnalogMappingQuery, MessageId::AnalogMapping),
            ],
    {
        let r = [
            (MessageOut::ReportFirmware, MessageId::ReportFirmware),
            (MessageOut::CapabilityQuery, MessageId::Capability),
            (MessageOut::AnalogMappingQuery, MessageId::AnalogMapping),
        ];
        r
    }

    /// The physical pin number of analog channel 0.
    pub fn analog_pin_start(&self) -> (r: u8)
        ensures
            r == self@.state.pin_state.analog_pin_start,
    {
        self.state.pin_state.analog_pin_start
    }

    /// The physical pin number that `pin_in` stands for.
    pub fn pin_id_to_pin(&self, pin_in: PinId) -> (pin: u8)
        requires
            resolve_pin(pin_in, self@.state.pin_state.analog_pin_start) <= u8::MAX,
        ensures
            pin == resolve_pin(pin_in, self@.state.pin_state.analog_pin_start),
    {
        self.state.pin_state.pin_id_to_u8(pin_in)
    }

    /// A copy of the pin that `pin_in` stands for.
    pub fn get_physical_pin(&self, pin_in: PinId) -> (pin: Pin)
        requires
            resolve_pin(pin_in, self@.state.pin_state.analog_pin_start)
                < self@.state.pin_state.pins.len(),
            resolve_pin(pin_in, self@.state.pin_state.analog_pin_start) <= u8::MAX,
        ensures
            pin@ == self@.state.pin_state.pins[resolve_pin(
                pin_in,
                self@.state.pin_state.analog_pin_start,
            )],
    {
        let pin: usize = self.pin_id_to_pin(pin_in) as usize;
        copy_pin(&self.state.pin_state.pins[pin])
    }

    /// Takes what a message of the board says into what is known of it.
    ///
    /// A message about pins that are not yet known is an `UninitializedError`,
    /// an analog mapping that names a pin which is not there a `StateError`.
    /// Either leaves the board as it was.
    pub fn handle_message(&mut self, message: MessageIn) -> (r: Result<(), FirmataError>)
        ensures
            final(self)@ == board_after_message(old(self)@, message@),
            uninitialized_for(old(self)@.state, message@) ==> r matches Err(
                FirmataError::UninitializedError(_),
            ),
            !uninitialized_for(old(self)@.state, message@) && contradicts(
                old(self)@.state,
                message@,
            ) ==> r matches Err(FirmataError::StateError(_)),
            !board_refuses(old(self)@, message@) ==> r is Ok,
    {
        match message {
            MessageIn::System(System::I2cReplyMessage(v)) => {
                let ghost before = self.i2c_data@;
                self.i2c_data.push(v.reply);
                proof {
                    assert(replies_view(self.i2c_data@) =~= replies_view(before).push(v.reply@));
                }
                Ok(())
            },
            other => self.state.apply(other),
        }
    }

    /// What to do after a read while waiting for a message of the kind
    /// `message_id`: `Some(Ok(()))` where it has arrived, `None` where the
    /// wait goes on, and `Some` of the error where the read failed. A message
    /// of another kind, and one that the board refused as too early, do not
    /// end the wait.
    pub fn read_until_message_found(
        outcome: Result<MessageId, FirmataError>,
        message_id: MessageId,
    ) -> (r: Option<Result<(), FirmataError>>)
        ensures
            match outcome {
                Ok(v) => if v == message_id {
                    r == Some(Ok::<(), FirmataError>(()))
                } else {
                    r is None
                },
                Err(FirmataError::UninitializedError(_)) | Err(FirmataError::NotFoundError(_)) => r
                    is None,
                Err(e) => r == Some(Err::<(), FirmataError>(e)),
            },
    {
        match outcome {
            Ok(v) => {
                if v == message_id {
                    Some(Ok(()))
                } else {
                    None
                }
            },
            Err(FirmataError::UninitializedError(_)) => None,
            Err(FirmataError::NotFoundError(_)) => None,
            Err(v) => Some(Err(v)),
        }
    }

    /// What a read counts for while polling: a read that timed out is
    /// passed over, and every other error ends the polling.
    pub fn poll(outcome: Result<MessageId, FirmataError>) -> (r: Result<(), FirmataError>)
        ensures
            match outcome {
                Ok(_) | Err(FirmataError::Timeout(_)) => r is Ok,
                Err(e) => r == Err::<(), FirmataError>(e),
            },
    {
        match outcome {
            Ok(_) => Ok(()),
            Err(FirmataError::Timeout(_)) => Ok(()),
            Err(e) => Err(e),
        }
    }

    /// The I2C replies that have arrived, the oldest first, for the caller
    /// to read and to take away.
    pub fn i2c_data(&mut self) -> (r: &mut Vec<I2CReply>)
        ensures
            replies_view(r@) == old(self)@.i2c_data,
            final(self)@ == (BoardView { i2c_data: replies_view(final(r)@), ..old(self)@ }),
    {
        &mut self.i2c_data
    }

    /// A copy of the pins of the board.
    pub fn pins(&self) -> (r: Vec<Pin>)
        ensures
            pins_view(r@) == self@.state.pin_state.pins,
    {
        copy_pins(&self.state.pin_state.pins)
    }

    pub fn protocol_version(&self) -> (r: &str)
        ensures
            r@ == self@.state.protocol_version,
    {
        self.state.protocol_version.as_str()
    }

    pub fn firmware_name(&self) -> (r: &str)
        ensures
            r@ == self@.state.firmware_name,
    {
        self.state.firmware_name.as_str()
    }

    pub fn firmware_version(&self) -> (r: &str)
        ensures
            r@ == self@.state.firmware_version,
    {
        self.state.firmware_version.as_str()
    }

    /// The bytes that ask the board which pins have an analog channel.
    pub fn query_analog_mapping(&self) -> (r: Result<Vec<u8>, FirmataError>)
        ensures
            r matches Ok(bytes) && bytes@ == encoding(MessageOut::AnalogMappingQuery),
    {
        encode_message(MessageOut::AnalogMappingQuery)
    }

    /// The bytes that ask the board what its pins can do.
    pub fn query_capabilities(&self) -> (r: Result<Vec<u8>, FirmataError>)
        ensures
            r matches Ok(bytes) && bytes@ == encoding(MessageOut::CapabilityQuery),
    {
        encode_message(MessageOut::CapabilityQuery)
    }

    /// The bytes that ask the board for its firmware's name and version.
    pub fn query_firmware(&self) -> (r: Result<Vec<u8>, FirmataError>)
        ensures
            r matches Ok(bytes) && bytes@ == encoding(MessageOut::ReportFirmware),
    {
        encode_message(MessageOut::ReportFirmware)
    }

    pub fn i2c_config(&self, delay: u16) -> (r: Result<Vec<u8>, FirmataError>)
        ensures
            r matches Ok(bytes) && bytes@ == encoding(MessageOut::I2cConfig(delay)),
    {
        encode_message(MessageOut::I2cConfig(delay))
    }

    pub fn i2c_read(&self, addr: u8, size: u16) -> (r: Result<Vec<u8>, FirmataError>)
        ensures
            r matches Ok(bytes) && bytes@ == encoding(MessageOut::I2cRead(addr, size)),
    {
        encode_message(MessageOut::I2cRead(addr, size))
    }

    /// The bytes that write `data` to the I2C device at `addr`.
    pub fn i2c_write(&self, addr: u8, data: &[u8]) -> (r: Result<Vec<u8>, FirmataError>)
        ensures
            r matches Ok(bytes) && bytes@ == i2c_write_frame(addr, data@),
    {
        let mut buf: Vec<u8> = Vec::new();
        buf.push(START_SYSEX);
        buf.push(I2C_REQUEST);
        buf.push(addr);
        buf.push(I2C_MODE_WRITE << 3);
        let mut i: usize = 0;
        while i < data.len()
            invariant
                i <= data@.len(),
                buf@ == seq![START_SYSEX, I2C_REQUEST, addr, I2C_MODE_WRITE << 3]
                    + i2c_write_payload(data@.take(i as int)),
            decreases data@.len() - i,
        {
            let byte: u8 = data[i];
            buf.push(byte & 0x7F);
            buf.push((byte >> 7) & 0x7F);
            proof {
                let next = data@.take(i + 1);
                assert(next.drop_last() =~= data@.take(i as int));
            }
            i += 1;
        }
        proof {
            assert(data@.take(i as int) =~= data@);
        }
        buf.push(END_SYSEX);
        Ok(buf)
    }

    /// The bytes that send a text to the board.
    pub fn string_write(&self, string: &str) -> (r: Result<Vec<u8>, FirmataError>)
        ensures
            r matches Ok(bytes) && bytes@ == string_frame(string@),
    {
        encode_message(MessageOut::StringWrite(string.to_owned()))
    }

    /// The bytes that set the time between two reports of the board, given
    /// in milliseconds.
    pub fn sampling_interval(&self, millis: u128) -> (r: Result<Vec<u8>, FirmataError>)
        ensures
            r matches Ok(bytes) && bytes@ == encoding(
                MessageOut::SampleingInterval(interval_millis(millis)),
            ),
    {
        let dur_in_ms: u16 = (millis % 0x10000) as u16;
        encode_message(MessageOut::SampleingInterval(dur_in_ms))
    }
}

/// The levels of the first `upto` pins of a port, one bit for each: the bit
/// of a pin is set where the pin is there and its value is not 0.
pub open spec fn port_mask(pins: Seq<PinView>, port: int, upto: int) -> u16
    decreases upto,
{
    if upto <= 0 {
        0
    } else {
        let rest = port_mask(pins, port, upto - 1);
        let at = 8 * port + upto - 1;
        if at < pins.len() && pins[at].value != 0 {
            rest | (1u16 << ((upto - 1) as u16))
        } else {
            rest
        }
    }
}

/// What `port_mask` holds: below bit `upto` each bit stands for its pin, set
/// where the pin is there and its value is not 0, and no higher bit is set.
pub proof fn lemma_port_mask(pins: Seq<PinView>, port: int, upto: int)
    requires
        0 <= upto <= 8,
    ensures
        port_mask(pins, port, upto) < (1u16 << (upto as u16)),
        forall|i: u16|
            i < upto ==> (((#[trigger] (port_mask(pins, port, upto) >> i)) & 1 == 1) <==> (8 * port
                + i < pins.len() && pins[8 * port + i].value != 0)),
    decreases upto,
{
    if upto == 0 {
        assert(0u16 < (1u16 << 0u16)) by (bit_vector);
    } else {
        lemma_port_mask(pins, port, upto - 1);
        let rest = port_mask(pins, port, upto - 1);
        let k = (upto - 1) as u16;
        let here = port_mask(pins, port, upto);
        assert(rest < (1u16 << k) && k < 8 ==> (rest | (1u16 << k)) < (1u16 << ((k + 1) as u16))
            && rest < (1u16 << ((k + 1) as u16))) by (bit_vector);
        assert forall|i: u16| i < upto implies (((#[trigger] (here >> i)) & 1 == 1) <==> (8 * port
            + i < pins.len() && pins[8 * port + i].value != 0)) by {
            assert(rest < (1u16 << k) && k < 8 && i <= k ==> (((rest | (1u16 << k)) >> i) & 1 == 1
                <==> (i == k || (rest >> i) & 1 == 1)) && (i == k ==> (rest >> i) & 1 == 0))
                by (bit_vector);
        }
    }
}

/// The board with other pins.
pub open spec fn with_pins(board: BoardView, pins: Seq<PinView>) -> BoardView {
    BoardView {
        state: StateView {
            pin_state: crate::PinStatesView { pins, ..board.state.pin_state },
            ..board.state
        },
        ..board
    }
}

/// The physical pin number that a pin id stands for on this board.
pub open spec fn board_pin(board: BoardView, pin: PinId) -> int {
    resolve_pin(pin, board.state.pin_state.analog_pin_start)
}

impl Board {
    /// The bytes that tell the board whether to report the changes of a
    /// digital pin. An analog pin is a `WrongType`.
    pub fn report_digital(&self, pin: PinId, state: bool) -> (r: Result<Vec<u8>, FirmataError>)
        ensures
            match pin {
                PinId::Analog(_) => r matches Err(FirmataError::WrongType(_)),
                PinId::Digital(v) | PinId::Pin(v) => r matches Ok(bytes) && bytes@ == encoding(
                    MessageOut::ReportDigital(v, state),
                ),
            },
    {
        let pin_out = match pin {
            PinId::Analog(_) => {
                return Err(FirmataError::WrongType("found analog pin expected digital pin"))
            },
            PinId::Digital(v) => v,
            PinId::Pin(v) => v,
        };
        encode_message(MessageOut::ReportDigital(pin_out, state))
    }

    /// The bytes that tell the board whether to report the readings of an
    /// analog pin. A digital pin is a `WrongType`; a pin number beyond 254
    /// has no report number and is `OutOfRange`.
    pub fn report_analog(&self, pin: PinId, state: bool) -> (r: Result<Vec<u8>, FirmataError>)
        ensures
            match pin {
                PinId::Digital(_) => r matches Err(FirmataError::WrongType(_)),
                _ => if board_pin(self@, pin) >= 255 {
                    r matches Err(FirmataError::OutOfRange(_))
                } else {
                    r matches Ok(bytes) && bytes@ == encoding(
                        MessageOut::ReportAnalog(board_pin(self@, pin) as u8, state),
                    )
                },
            },
    {
        let pin_out: u8 = match pin {
            PinId::Digital(_) => {
                return Err(FirmataError::WrongType("found digital pin expected analog pin"))
            },
            _ => match self.state.pin_state.resolve(pin) {
                Ok(v) => v,
                Err(e) => { return Err(e); },
            },
        };
        if pin_out == 255 {
            return Err(FirmataError::OutOfRange("analog channel has no report number"));
        }
        encode_message(MessageOut::ReportAnalog(pin_out, state))
    }

    /// Sets the value of a pin, and returns the bytes that tell the board.
    ///
    /// An analog message addresses the pins 0 to 15: a pin beyond them, and a
    /// pin that the board does not have, is `OutOfRange` and changes nothing.
    pub fn analog_write(&mut self, pin: PinId, output: u16) -> (r: Result<Vec<u8>, FirmataError>)
        ensures
            ({
                let at = board_pin(old(self)@, pin);
                if at > 15 || at >= old(self)@.state.pin_state.pins.len() {
                    (r matches Err(FirmataError::OutOfRange(_))) && final(self)@ == old(self)@
                } else {
                    (r matches Ok(bytes) && bytes@ == encoding(
                        MessageOut::AnalogWrite(at as u8, output),
                    )) && final(self)@ == with_pins(
                        old(self)@,
                        with_value(old(self)@.state.pin_state.pins, at, output),
                    )
                }
            }),
    {
        let pin_out: u8 = match self.state.pin_state.resolve(pin) {
            Ok(v) => v,
            Err(e) => { return Err(e); },
        };
        if pin_out > 15 {
            return Err(FirmataError::OutOfRange("an analog message addresses the pins 0 to 15"));
        }
        if pin_out as usize >= self.state.pin_state.pins.len() {
            return Err(FirmataError::OutOfRange("pin is not a pin of the board"));
        }
        self.state.pin_state.pins[pin_out as usize].value = output;
        proof {
            assert(self@.state.pin_state.pins =~= with_value(
                old(self)@.state.pin_state.pins,
                pin_out as int,
                output,
            ));
        }
        encode_message(MessageOut::AnalogWrite(pin_out, output))
    }

    /// Sets the value of a digital pin, and returns the bytes that tell the
    /// board the levels of the pin's whole port.
    ///
    /// The levels are those of `port_mask`: one bit for each of the eight
    /// pins of the port, so that they fit into the low byte. An analog pin is
    /// a `WrongType`, and a pin that the board does not have is `OutOfRange`.
    /// Either changes nothing.
    pub fn digital_write(&mut self, pin: PinId, output: u16) -> (r: Result<Vec<u8>, FirmataError>)
        ensures
            match pin {
                PinId::Analog(_) => (r matches Err(FirmataError::WrongType(_))) && final(self)@
                    == old(self)@,
                PinId::Digital(v) | PinId::Pin(v) => if v >= old(self)@.state.pin_state.pins.len() {
                    (r matches Err(FirmataError::OutOfRange(_))) && final(self)@ == old(self)@
                } else {
                    (r matches Ok(bytes) && bytes@ == encoding(
                        MessageOut::DigitalMessage(
                            v / 8,
                            port_mask(final(self)@.state.pin_state.pins, v as int / 8, 8),
                        ),
                    )) && final(self)@ == with_pins(
                        old(self)@,
                        with_value(old(self)@.state.pin_state.pins, v as int, output),
                    ) && port_mask(final(self)@.state.pin_state.pins, v as int / 8, 8) < 256
                },
            },
    {
        let pin_out: u8 = match pin {
            PinId::Analog(_) => {
                return Err(FirmataError::WrongType("found analog pin expected digital pin"))
            },
            PinId::Digital(v) => v,
            PinId::Pin(v) => v,
        };
        if pin_out as usize >= self.state.pin_state.pins.len() {
            return Err(FirmataError::OutOfRange("pin is not a pin of the board"));
        }
        let port: usize = (pin_out / 8) as usize;
        self.state.pin_state.pins[pin_out as usize].value = output;
        proof {
            assert(self@.state.pin_state.pins =~= with_value(
                old(self)@.state.pin_state.pins,
                pin_out as int,
                output,
            ));
        }
        let mut value: u16 = 0;
        let mut i: usize = 0;
        while i < 8
            invariant
                i <= 8,
                port < 32,
                value == port_mask(self@.state.pin_state.pins, port as int, i as int),
            decreases 8 - i,
        {
            if 8 * port + i < self.state.pin_state.pins.len() && self.state.pin_state.pins[8 * port
                + i].value != 0 {
                value |= 1u16 << (i as u16);
            }
            i += 1;
        }
        proof {
            lemma_port_mask(self@.state.pin_state.pins, port as int, 8);
            assert((1u16 << 8u16) == 256) by (bit_vector);
        }
        encode_message(MessageOut::DigitalMessage(pin_out / 8, value))
    }

    /// Sets the mode of a pin, and returns the bytes that tell the board.
    ///
    /// A pin that the board does not have is `OutOfRange` and changes nothing.
    pub fn set_pin_mode(&mut self, pin: PinId, mode: PinMode) -> (r: Result<Vec<u8>, FirmataError>)
        ensures
            ({
                let at = board_pin(old(self)@, pin);
                if at >= old(self)@.state.pin_state.pins.len() || at > u8::MAX {
                    (r matches Err(FirmataError::OutOfRange(_))) && final(self)@ == old(self)@
                } else {
                    (r matches Ok(bytes) && bytes@ == encoding(
                        MessageOut::PinMode(at as u8, mode),
                    )) && final(self)@ == with_pins(
                        old(self)@,
                        with_mode(old(self)@.state.pin_state.pins, at, mode),
                    )
                }
            }),
    {
        let pin_out: u8 = match self.state.pin_state.resolve(pin) {
            Ok(v) => v,
            Err(e) => { return Err(e); },
        };
        if pin_out as usize >= self.state.pin_state.pins.len() {
            return Err(FirmataError::OutOfRange("pin is not a pin of the board"));
        }
        self.state.pin_state.pins[pin_out as usize].mode = mode;
        proof {
            assert(self@.state.pin_state.pins =~= with_mode(
                old(self)@.state.pin_state.pins,
                pin_out as int,
                mode,
            ));
        }
        encode_message(MessageOut::PinMode(pin_out, mode))
    }

    /// Reads the next frame from the bytes that the connection delivered,
    /// takes its message into what is known of the board, and returns the
    /// kind of the message.
    ///
    /// Where no frame can be read, or the board refuses the message, the
    /// board stays as it was.
    pub fn read(&mut self, bytes: &[u8]) -> (r: Result<MessageId, FirmataError>)
        ensures
            match r {
                Ok(id) => exists|m: Message|
                    stream_parsed(bytes@, Ok(m)) && id == m.message_id && !board_refuses(
                        old(self)@,
                        m.message@,
                    ) && final(self)@ == board_after_message(old(self)@, m.message@),
                Err(e) => final(self)@ == old(self)@ && (stream_parsed(bytes@, Err(e))
                    || exists|m: Message|
                    stream_parsed(bytes@, Ok(m)) && board_refuses(old(self)@, m.message@)),
            },
    {
        let message = match read_and_parse(bytes) {
            Ok(message) => message,
            Err(e) => { return Err(e); },
        };
        let ghost m = message;
        let Message { message_id, message } = message;
        match self.handle_message(message) {
            Ok(()) => Ok(message_id),
            Err(e) => Err(e),
        }
    }
}

} // verus!
