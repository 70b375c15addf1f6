//! A client for the [Firmata protocol](https://github.com/firmata/protocol):
//! the wire codec, the frame decoder and the model of a board's pins.
use vstd::prelude::*;

pub mod asynchronous;
pub mod message;
pub mod protocol_constants;
pub mod standard;
pub mod wire;

verus! {

pub type AnalogPin = u8;

pub type DigitalPin = u8;

/// How a caller names a pin.
#[derive(Clone, Copy, Debug)]
pub enum PinId {
    /// An analog channel, counted from the board's first analog pin.
    Analog(AnalogPin),
    Digital(DigitalPin),
    /// A physical pin number.
    Pin(u8),
}

/// What a pin can be used for.
#[derive(Copy, Clone, Debug, PartialEq, Eq, Structural)]
pub enum PinMode {
    Input,
    Output,
    Analog,
    Pwm,
    Servo,
    I2c,
    Onewire,
    Stepper,
    Encoder,
    Serial,
    Pullup,
}

/// The byte that stands for a mode on the wire.
pub open spec fn pin_mode_code(mode: PinMode) -> u8 {
    match mode {
        PinMode::Input => 0,
        PinMode::Output => 1,
        PinMode::Analog => 2,
        PinMode::Pwm => 3,
        PinMode::Servo => 4,
        PinMode::I2c => 6,
        PinMode::Onewire => 7,
        PinMode::Stepper => 8,
        PinMode::Encoder => 9,
        PinMode::Serial => 10,
        PinMode::Pullup => 11,
    }
}

/// The mode that a wire byte stands for, if it stands for one.
pub open spec fn pin_mode_of(code: u8) -> Option<PinMode> {
    match code {
        0 => Some(PinMode::Input),
        1 => Some(PinMode::Output),
        2 => Some(PinMode::Analog),
        3 => Some(PinMode::Pwm),
        4 => Some(PinMode::Servo),
        6 => Some(PinMode::I2c),
        7 => Some(PinMode::Onewire),
        8 => Some(PinMode::Stepper),
        9 => Some(PinMode::Encoder),
        10 => Some(PinMode::Serial),
        11 => Some(PinMode::Pullup),
        _ => None,
    }
}

/// `std::io::Error`, the transport's own error. It is only carried along:
/// nothing is known of what it holds.
#[verifier::external_type_specification]
#[verifier::external_body]
pub struct ExIoError(std::io::Error);

/// Every error of the library.
#[derive(Debug)]
pub enum FirmataError {
    /// The transport failed.
    IoError(std::io::Error),
    /// No frame arrived within the time allowed.
    Timeout(String),
    /// A frame's payload was malformed; the bytes are those that gave offence.
    ParseError(&'static str, Vec<u8>),
    /// A message spoke of pins before the board's pins were known.
    UninitializedError(&'static str),
    NotFoundError(&'static str),
    /// A payload of fixed shape had the wrong shape.
    ConversionFailure(&'static str),
    /// A command was given a pin of the wrong class.
    WrongType(&'static str),
    /// The board's answers contradict one another.
    StateError(&'static str),
    /// An index left the range that the wire format can carry.
    OutOfRange(&'static str),
}

impl PinMode {
    pub fn to_u8(self) -> (code: u8)
        ensures
            code == pin_mode_code(self),
    {
        match self {
            PinMode::Input => 0,
            PinMode::Output => 1,
            PinMode::Analog => 2,
            PinMode::Pwm => 3,
            PinMode::Servo => 4,
            PinMode::I2c => 6,
            PinMode::Onewire => 7,
            PinMode::Stepper => 8,
            PinMode::Encoder => 9,
            PinMode::Serial => 10,
            PinMode::Pullup => 11,
        }
    }

    /// Reads a mode from its wire byte. A byte that stands for no mode is
    /// handed back inside a `ParseError`.
    pub fn from_u8(value: u8) -> (r: Result<PinMode, FirmataError>)
        ensures
            match r {
                Ok(mode) => pin_mode_of(value) == Some(mode),
                Err(FirmataError::ParseError(_, bytes)) => pin_mode_of(value) is None && bytes@
                    == seq![value],
                Err(_) => false,
            },
    {
        match value {
            0 => Ok(PinMode::Input),
            1 => Ok(PinMode::Output),
            2 => Ok(PinMode::Analog),
            3 => Ok(PinMode::Pwm),
            4 => Ok(PinMode::Servo),
            6 => Ok(PinMode::I2c),
            7 => Ok(PinMode::Onewire),
            8 => Ok(PinMode::Stepper),
            9 => Ok(PinMode::Encoder),
            10 => Ok(PinMode::Serial),
            11 => Ok(PinMode::Pullup),
            _ => {
                let mut bytes: Vec<u8> = Vec::new();
                bytes.push(value);
                Err(FirmataError::ParseError("failed to convert u8 to pinmode", bytes))
            },
        }
    }
}

/// A structure representing an I2C reply.
#[derive(Debug, Clone)]
pub struct I2CReply {
    pub address: i32,
    pub register: i32,
    pub data: Vec<u8>,
}

/// A structure representing an available pin mode.
#[derive(Debug, Clone, Copy)]
pub struct Mode {
    pub mode: PinMode,
    pub resolution: u8,
}

/// A structure representing the current state and configuration of a pin.
#[derive(Debug, Clone)]
pub struct Pin {
    /// The modes that the pin supports, in the order in which the board named them.
    pub modes: Vec<Mode>,
    pub analog: bool,
    pub value: u16,
    pub mode: PinMode,
}

/// What an `I2CReply` holds.
pub struct I2CReplyView {
    pub address: i32,
    pub register: i32,
    pub data: Seq<u8>,
}

impl View for I2CReply {
    type V = I2CReplyView;

    open spec fn view(&self) -> I2CReplyView {
        I2CReplyView { address: self.address, register: self.register, data: self.data@ }
    }
}

/// What a `Pin` holds.
pub struct PinView {
    pub modes: Seq<Mode>,
    pub analog: bool,
    pub value: u16,
    pub mode: PinMode,
}

impl View for Pin {
    type V = PinView;

    open spec fn view(&self) -> PinView {
        PinView { modes: self.modes@, analog: self.analog, value: self.value, mode: self.mode }
    }
}

/// What a list of pins holds, pin by pin.
pub open spec fn pins_view(pins: Seq<Pin>) -> Seq<PinView> {
    Seq::new(pins.len(), |i: int| pins[i]@)
}

/// Whether every mode byte of a pin record stands for a mode. A record is a
/// run of pairs: a mode byte, then that mode's resolution.
pub open spec fn record_modes_known(record: Seq<u8>) -> bool {
    forall|k: int| 0 <= k < record.len() / 2 ==> pin_mode_of(#[trigger] record[2 * k]) is Some
}

/// The modes that a pin record of known mode bytes lists, in its order.
pub open spec fn record_modes(record: Seq<u8>) -> Seq<Mode> {
    Seq::new(
        (record.len() / 2) as nat,
        |k: int| Mode { mode: pin_mode_of(record[2 * k]).unwrap(), resolution: record[2 * k + 1] },
    )
}

/// The pin that a well-formed record describes: not yet analog, at value 0, an input.
pub open spec fn record_pin(record: Seq<u8>) -> PinView {
    PinView { modes: record_modes(record), analog: false, value: 0, mode: PinMode::Input }
}

/// Whether `k` is the first pair of the record whose mode byte stands for no mode.
pub open spec fn first_unknown_mode(record: Seq<u8>, k: int) -> bool {
    &&& 0 <= k < record.len() / 2
    &&& pin_mode_of(record[2 * k]) is None
    &&& forall|j: int| 0 <= j < k ==> pin_mode_of(#[trigger] record[2 * j]) is Some
}

impl Pin {
    /// Reads one pin from its record in a capability response.
    ///
    /// A record of odd length is a `ConversionFailure`. Otherwise the first
    /// mode byte that stands for no mode is a `ParseError` that carries it.
    pub fn deserialize(byte_stream: &[u8]) -> (r: Result<Pin, FirmataError>)
        ensures
            byte_stream@.len() % 2 != 0 ==> r matches Err(FirmataError::ConversionFailure(_)),
            byte_stream@.len() % 2 == 0 && record_modes_known(byte_stream@) ==> (r matches Ok(pin)
                && pin@ == record_pin(byte_stream@)),
            byte_stream@.len() % 2 == 0 && !record_modes_known(byte_stream@) ==> (r matches Err(
                FirmataError::ParseError(_, bytes),
            ) && bytes@.len() == 1 && exists|k: int|
                first_unknown_mode(byte_stream@, k) && bytes@[0] == byte_stream@[2 * k]),
    {
        let mut modes: Vec<Mode> = Vec::new();
        if byte_stream.len() % 2 != 0 {
            return Err(
                FirmataError::ConversionFailure("odd amount of bytes found when parsing pin"),
            );
        }
        let mut i: usize = 0;
        while i < byte_stream.len()
            invariant
                i % 2 == 0,
                i <= byte_stream@.len(),
                byte_stream@.len() % 2 == 0,
                modes@.len() == i / 2,
                forall|k: int| 0 <= k < i / 2 ==> pin_mode_of(#[trigger] byte_stream@[2 * k]) is Some,
                forall|k: int|
                    0 <= k < i / 2 ==> modes@[k] == record_modes(byte_stream@)[k],
            decreases byte_stream@.len() - i,
        {
            match PinMode::from_u8(byte_stream[i]) {
                Ok(mode) => {
                    modes.push(Mode { mode, resolution: byte_stream[i + 1] });
                },
                Err(e) => {
                    proof {
                        let k = (i / 2) as int;
                        assert(first_unknown_mode(byte_stream@, k));
                    }
                    return Err(e);
                },
            }
            i += 2;
        }
        proof {
            assert(modes@ =~= record_modes(byte_stream@));
        }
        Ok(Pin { modes, analog: false, value: 0, mode: PinMode::Input })
    }
}

/// A structure representing all available pins on a given board.
///
/// A pin's place in `pins` is its physical pin number.
#[derive(Debug, Clone)]
pub struct PinStates {
    pub pins: Vec<Pin>,
    /// The physical pin number of analog channel 0.
    pub analog_pin_start: u8,
}

/// What a `PinStates` holds.
pub struct PinStatesView {
    pub pins: Seq<PinView>,
    pub analog_pin_start: u8,
}

impl View for PinStates {
    type V = PinStatesView;

    open spec fn view(&self) -> PinStatesView {
        PinStatesView { pins: pins_view(self.pins@), analog_pin_start: self.analog_pin_start }
    }
}

impl Default for PinStates {
    fn default() -> (r: PinStates)
        ensures
            r@.pins.len() == 0,
            r@.analog_pin_start == 0,
    {
        PinStates { pins: Vec::new(), analog_pin_start: 0 }
    }
}

/// The physical pin number that a pin id stands for, given the physical pin
/// number of analog channel 0.
pub open spec fn resolve_pin(pin_id: PinId, analog_pin_start: u8) -> int {
    match pin_id {
        PinId::Analog(v) => v + analog_pin_start,
        PinId::Digital(v) => v as int,
        PinId::Pin(v) => v as int,
    }
}

/// Whether every index of the list names a pin among `len` pins.
pub open spec fn indices_in_range(indices: Seq<usize>, len: int) -> bool {
    forall|k: int| 0 <= k < indices.len() ==> #[trigger] indices[k] < len
}

/// Whether a list of analog pins can be applied to `len` pins: it is no longer
/// than the list of pins and names none that is not there.
pub open spec fn analog_list_fits(indices: Seq<usize>, len: int) -> bool {
    indices.len() <= len && indices_in_range(indices, len)
}

/// The pins after each pin that the list names has been marked analog.
/// Nothing else about a pin changes, and no pin is ever unmarked.
pub open spec fn with_analog_flags(pins: Seq<PinView>, indices: Seq<usize>) -> Seq<PinView> {
    Seq::new(
        pins.len(),
        |i: int|
            PinView {
                analog: pins[i].analog || exists|k: int|
                    0 <= k < indices.len() && #[trigger] indices[k] == i,
                ..pins[i]
            },
    )
}

impl PinStates {
    #[must_use]
    pub fn create(pins: Vec<Pin>) -> (r: PinStates)
        ensures
            r.pins == pins,
            r.analog_pin_start == 0,
    {
        PinStates { pins, analog_pin_start: 0 }
    }

    /// Marks as analog each pin whose number the list holds.
    ///
    /// Fails with a `StateError`, and changes nothing, if the list names a pin
    /// that is not there or is longer than the list of pins.
    pub fn map_analog_pins(&mut self, analog_pins: Vec<usize>) -> (r: Result<(), FirmataError>)
        ensures
            final(self).analog_pin_start == old(self).analog_pin_start,
            analog_list_fits(analog_pins@, old(self).pins@.len() as int) ==> r is Ok
                && final(self)@.pins == with_analog_flags(old(self)@.pins, analog_pins@),
            !analog_list_fits(analog_pins@, old(self).pins@.len() as int) ==> (r matches Err(
                FirmataError::StateError(_),
            )) && final(self)@ == old(self)@,
    {
        if self.pins.len() < analog_pins.len() {
            return Err(FirmataError::StateError("more analog pins then pins inside of pinstate"));
        }
        if !all_below(&analog_pins, self.pins.len()) {
            return Err(FirmataError::StateError("analog pin is not a pin of the board"));
        }
        flag_analog_pins(&mut self.pins, &analog_pins);
        Ok(())
    }

    /// The physical pin number that `pin_id` stands for, or `OutOfRange`
    /// where that number is beyond 255.
    pub fn resolve(&self, pin_id: PinId) -> (r: Result<u8, FirmataError>)
        ensures
            match r {
                Ok(pin) => pin == resolve_pin(pin_id, self.analog_pin_start),
                Err(FirmataError::OutOfRange(_)) => resolve_pin(pin_id, self.analog_pin_start)
                    > u8::MAX,
                Err(_) => false,
            },
    {
        match pin_id {
            PinId::Analog(v) => {
                if v > u8::MAX - self.analog_pin_start {
                    Err(FirmataError::OutOfRange("analog pin is beyond the last pin number"))
                } else {
                    Ok(self.pin_id_to_u8(pin_id))
                }
            },
            _ => Ok(self.pin_id_to_u8(pin_id)),
        }
    }

    /// The physical pin number that `pin_id` stands for.
    pub fn pin_id_to_u8(&self, pin_id: PinId) -> (pin: u8)
        requires
            resolve_pin(pin_id, self.analog_pin_start) <= u8::MAX,
        ensures
            pin == resolve_pin(pin_id, self.analog_pin_start),
    {
        match pin_id {
            PinId::Analog(v) => v + self.analog_pin_start,
            PinId::Digital(v) => v,
            PinId::Pin(v) => v,
        }
    }
}

/// Whether every index of the list is below `len`.
pub fn all_below(indices: &Vec<usize>, len: usize) -> (ok: bool)
    ensures
        ok == indices_in_range(indices@, len as int),
{
    let mut k: usize = 0;
    while k < indices.len()
        invariant
            k <= indices@.len(),
            forall|j: int| 0 <= j < k ==> #[trigger] indices@[j] < len,
        decreases indices@.len() - k,
    {
        if indices[k] >= len {
            return false;
        }
        k += 1;
    }
    true
}

/// Marks as analog each pin whose number the list holds.
pub fn flag_analog_pins(pins: &mut Vec<Pin>, indices: &Vec<usize>)
    requires
        indices_in_range(indices@, old(pins)@.len() as int),
    ensures
        pins_view(final(pins)@) == with_analog_flags(pins_view(old(pins)@), indices@),
{
    let mut k: usize = 0;
    while k < indices.len()
        invariant
            k <= indices@.len(),
            pins@.len() == old(pins)@.len(),
            indices_in_range(indices@, pins@.len() as int),
            pins_view(pins@) == with_analog_flags(pins_view(old(pins)@), indices@.take(k as int)),
        decreases indices@.len() - k,
    {
        let id: usize = indices[k];
        let ghost before = pins_view(pins@);
        pins[id].analog = true;
        proof {
            let t0 = indices@.take(k as int);
            let t1 = indices@.take(k + 1);
            assert(t1[k as int] == id);
            assert forall|i: int| 0 <= i < pins@.len() implies pins_view(pins@)[i]
                == with_analog_flags(pins_view(old(pins)@), t1)[i] by {
                assert(before[i] == with_analog_flags(pins_view(old(pins)@), t0)[i]);
            }
        }
        k += 1;
    }
    proof {
        assert(indices@.take(indices@.len() as int) =~= indices@);
    }
}

} // verus!
