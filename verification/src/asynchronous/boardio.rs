//! The commands that go to a board, and the state that its answers build.
use crate::message::{
    MessageIn, MessageInView, ReportFirmware, ReportFirmwareView, System, SystemView,
};
use crate::{
    all_below, analog_list_fits, flag_analog_pins, indices_in_range, pins_view, resolve_pin,
    with_analog_flags,
    FirmataError, Mode, Pin, PinMode, PinStates, PinStatesView, PinView,
};
use vstd::prelude::*;

verus! {

/// A command for the board.
#[derive(Debug, Clone)]
pub enum MessageOut {
    AnalogMappingQuery,
    CapabilityQuery,
    ReportFirmware,
    /// The delay between a write to a register and the read that follows it.
    I2cConfig(u16),
    /// An address, and the number of bytes to read from it.
    I2cRead(u8, u16),
    I2cWrite(u8, Vec<u8>),
    /// A pin, and whether the board is to report its changes.
    ReportDigital(u8, bool),
    ReportAnalog(u8, bool),
    AnalogWrite(u8, u16),
    /// A pin, and the level to set it to.
    DigitalWrite(u8, bool),
    /// A port, and the levels of its eight pins, one bit for each.
    DigitalMessage(u8, u16),
    StringWrite(String),
    PinMode(u8, PinMode),
    /// The time between two reports of the board, in milliseconds.
    SampleingInterval(u16),
}

/// What is known of a board: its pins, and the names it gave of itself.
#[derive(Debug, Clone)]
pub struct State {
    pub pin_state: PinStates,
    pub firmware_name: String,
    pub firmware_version: String,
    pub protocol_version: String,
}

/// What a `State` holds.
pub struct StateView {
    pub pin_state: PinStatesView,
    pub firmware_name: Seq<char>,
    pub firmware_version: Seq<char>,
    pub protocol_version: Seq<char>,
}

impl View for State {
    type V = StateView;

    open spec fn view(&self) -> StateView {
        StateView {
            pin_state: self.pin_state@,
            firmware_name: self.firmware_name@,
            firmware_version: self.firmware_version@,
            protocol_version: self.protocol_version@,
        }
    }
}

/// The state of a board of which nothing is known yet.
pub open spec fn empty_state() -> StateView {
    StateView {
        pin_state: PinStatesView { pins: Seq::empty(), analog_pin_start: 0 },
        firmware_name: Seq::empty(),
        firmware_version: Seq::empty(),
        protocol_version: Seq::empty(),
    }
}

impl Default for State {
    fn default() -> (r: State)
        ensures
            r@ == empty_state(),
    {
        let r = State {
            pin_state: PinStates::create(Vec::new()),
            firmware_name: String::new(),
            firmware_version: String::new(),
            protocol_version: String::new(),
        };
        proof {
            assert(r@.pin_state.pins =~= Seq::<PinView>::empty());
        }
        r
    }
}

/// The level of pin `i` of a port, from the levels of its eight pins.
pub open spec fn level_bit(levels: u16, i: u8) -> u16 {
    (levels >> (i as u16)) & 0x01
}

/// The pins after the first `upto` pins of a port have taken their levels.
/// Only a pin that is there and is an input takes one.
pub open spec fn with_port_levels(pins: Seq<PinView>, port: u8, levels: u16, upto: int) -> Seq<
    PinView,
> {
    Seq::new(
        pins.len(),
        |i: int|
            if 8 * port <= i < 8 * port + upto && pins[i].mode == PinMode::Input {
                PinView { value: level_bit(levels, (i - 8 * port) as u8), ..pins[i] }
            } else {
                pins[i]
            },
    )
}

/// The pins after pin `at` has taken a value.
pub open spec fn with_value(pins: Seq<PinView>, at: int, value: u16) -> Seq<PinView> {
    pins.update(at, PinView { value, ..pins[at] })
}

/// The pins after pin `at` has taken a mode.
pub open spec fn with_mode(pins: Seq<PinView>, at: int, mode: PinMode) -> Seq<PinView> {
    pins.update(at, PinView { mode, ..pins[at] })
}

/// Whether a message speaks of pins that the state does not know yet: any
/// message about pins while there are none, and an analog reading for a pin
/// that is not there or not analog.
pub open spec fn uninitialized_for(state: StateView, message: MessageInView) -> bool {
    match message {
        MessageInView::Analog(m) => {
            let at = resolve_pin(m.pin, state.pin_state.analog_pin_start);
            state.pin_state.pins.len() == 0 || at >= state.pin_state.pins.len()
                || !state.pin_state.pins[at].analog
        },
        MessageInView::Digital(_) => state.pin_state.pins.len() == 0,
        MessageInView::System(SystemView::AnalogMappingResponse(_)) => state.pin_state.pins.len()
            == 0,
        _ => false,
    }
}

/// Whether a message contradicts the state: an analog mapping that names a
/// pin which is not there.
pub open spec fn contradicts(state: StateView, message: MessageInView) -> bool {
    match message {
        MessageInView::System(SystemView::AnalogMappingResponse(indices)) => !indices_in_range(
            indices,
            state.pin_state.pins.len() as int,
        ),
        _ => false,
    }
}

/// The state after a message that it accepts.
pub open spec fn applied(state: StateView, message: MessageInView) -> StateView {
    let pins = state.pin_state.pins;
    match message {
        MessageInView::Analog(m) => StateView {
            pin_state: PinStatesView {
                pins: with_value(
                    pins,
                    resolve_pin(m.pin, state.pin_state.analog_pin_start),
                    m.value,
                ),
                ..state.pin_state
            },
            ..state
        },
        MessageInView::Digital(m) => StateView {
            pin_state: PinStatesView {
                pins: with_port_levels(pins, m.port, m.value, 8),
                ..state.pin_state
            },
            ..state
        },
        MessageInView::System(SystemView::AnalogMappingResponse(indices)) => StateView {
            pin_state: PinStatesView { pins: with_analog_flags(pins, indices), ..state.pin_state },
            ..state
        },
        MessageInView::System(SystemView::CapabilityResponseMessage(new_pins)) => StateView {
            pin_state: PinStatesView { pins: new_pins, ..state.pin_state },
            ..state
        },
        MessageInView::System(SystemView::ReportFirmwareMessage(report)) => StateView {
            firmware_name: report.name,
            firmware_version: report.version,
            ..state
        },
        MessageInView::System(SystemView::I2cReplyMessage(_)) => state,
        MessageInView::ProtocolVersion(text) => StateView { protocol_version: text, ..state },
    }
}

/// Whether the state refuses a message.
pub open spec fn refuses(state: StateView, message: MessageInView) -> bool {
    uninitialized_for(state, message) || contradicts(state, message)
}

/// The state after a message has come in: the state as the message leaves
/// it, or the state as it was where the message is refused.
pub open spec fn after_message(state: StateView, message: MessageInView) -> StateView {
    if refuses(state, message) {
        state
    } else {
        applied(state, message)
    }
}

/// Gives the eight pins of a port their levels. Only a pin that is there and
/// is an input takes one.
pub fn set_port_levels(pins: &mut Vec<Pin>, port: u8, levels: u16)
    ensures
        pins_view(final(pins)@) == with_port_levels(pins_view(old(pins)@), port, levels, 8),
{
    let mut i: u8 = 0;
    while i < 8
        invariant
            i <= 8,
            pins@.len() == old(pins)@.len(),
            pins_view(pins@) == with_port_levels(pins_view(old(pins)@), port, levels, i as int),
        decreases 8 - i,
    {
        let pin: usize = 8 * (port as usize) + (i as usize);
        let ghost before = pins_view(pins@);
        if pins.len() > pin && pins[pin].mode == PinMode::Input {
            pins[pin].value = (levels >> (i as u16)) & 0x01;
        }
        proof {
            assert forall|j: int| 0 <= j < pins@.len() implies pins_view(pins@)[j]
                == with_port_levels(pins_view(old(pins)@), port, levels, i + 1)[j] by {
                assert(before[j] == with_port_levels(
                    pins_view(old(pins)@),
                    port,
                    levels,
                    i as int,
                )[j]);
            }
        }
        i += 1;
    }
}

/// A copy of a pin.
pub fn copy_pin(pin: &Pin) -> (copy: Pin)
    ensures
        copy@ == pin@,
{
    let mut modes: Vec<Mode> = Vec::new();
    let mut j: usize = 0;
    while j < pin.modes.len()
        invariant
            j <= pin.modes@.len(),
            modes@ == pin.modes@.take(j as int),
        decreases pin.modes@.len() - j,
    {
        modes.push(pin.modes[j]);
        j += 1;
    }
    proof {
        assert(modes@ =~= pin.modes@);
    }
    Pin { modes, analog: pin.analog, value: pin.value, mode: pin.mode }
}

/// A copy of a list of pins.
pub fn copy_pins(pins: &Vec<Pin>) -> (copy: Vec<Pin>)
    ensures
        pins_view(copy@) == pins_view(pins@),
{
    let mut copy: Vec<Pin> = Vec::new();
    let mut i: usize = 0;
    while i < pins.len()
        invariant
            i <= pins@.len(),
            copy@.len() == i,
            forall|k: int| 0 <= k < i ==> (#[trigger] copy@[k])@ == pins@[k]@,
        decreases pins@.len() - i,
    {
        copy.push(copy_pin(&pins[i]));
        i += 1;
    }
    copy
}

impl State {
    /// A copy of the state, for those who only read it.
    pub fn snapshot(&self) -> (copy: State)
        ensures
            copy@ == self@,
    {
        State {
            pin_state: PinStates {
                pins: copy_pins(&self.pin_state.pins),
                analog_pin_start: self.pin_state.analog_pin_start,
            },
            firmware_name: self.firmware_name.clone(),
            firmware_version: self.firmware_version.clone(),
            protocol_version: self.protocol_version.clone(),
        }
    }

    /// Takes what a message of the board says into the state.
    ///
    /// A message about pins that are not yet known is an `UninitializedError`,
    /// an analog mapping that names a pin which is not there a `StateError`.
    /// Either leaves the state as it was.
    pub fn apply(&mut self, message: MessageIn) -> (r: Result<(), FirmataError>)
        ensures
            final(self)@ == after_message(old(self)@, message@),
            uninitialized_for(old(self)@, message@) ==> r matches Err(
                FirmataError::UninitializedError(_),
            ),
            !uninitialized_for(old(self)@, message@) && contradicts(old(self)@, message@) ==> r
                matches Err(FirmataError::StateError(_)),
            !refuses(old(self)@, message@) ==> r is Ok,
    {
        match message {
            MessageIn::Analog(v) => {
                let pin: usize = match v.pin {
                    crate::PinId::Analog(a) => (a as usize) + (
                    self.pin_state.analog_pin_start as usize),
                    crate::PinId::Digital(d) => d as usize,
                    crate::PinId::Pin(p) => p as usize,
                };
                if pin < self.pin_state.pins.len() && self.pin_state.pins[pin].analog {
                    self.pin_state.pins[pin].value = v.value;
                    proof {
                        assert(self@.pin_state.pins =~= with_value(
                            old(self)@.pin_state.pins,
                            pin as int,
                            v.value,
                        ));
                    }
                } else {
                    return Err(
                        FirmataError::UninitializedError(
                            "analog message arrived but the pins were not initialised",
                        ),
                    );
                }
            },
            MessageIn::Digital(v) => {
                if self.pin_state.pins.len() == 0 {
                    return Err(
                        FirmataError::UninitializedError(
                            "digital message arrived but the pins were not initialised",
                        ),
                    );
                }
                set_port_levels(&mut self.pin_state.pins, v.port, v.value);
            },
            MessageIn::System(System::AnalogMappingResponse(v)) => {
                if self.pin_state.pins.len() == 0 {
                    return Err(
                        FirmataError::UninitializedError(
                            "pins had not been initialised prior to mapping analog pins",
                        ),
                    );
                }
                if !all_below(&v.supported_analog_pins, self.pin_state.pins.len()) {
                    return Err(FirmataError::StateError("analog pin is not a pin of the board"));
                }
                flag_analog_pins(&mut self.pin_state.pins, &v.supported_analog_pins);
            },
            MessageIn::System(System::CapabilityResponseMessage(v)) => {
                self.pin_state.pins = v.pins;
            },
            MessageIn::System(System::ReportFirmwareMessage(v)) => {
                self.firmware_name = v.name;
                self.firmware_version = v.version;
            },
            MessageIn::System(System::I2cReplyMessage(_v)) => {},
            MessageIn::ProtocolVersion(v) => {
                self.protocol_version = v;
            },
        }
        Ok(())
    }

    /// Takes what a message of the board says into the state, and returns a
    /// copy of the state as it then is, for those who only read it.
    ///
    /// Where the message is refused, as `apply` says, the state stays as it was.
    pub fn handle_message(&mut self, message: MessageIn) -> (r: Result<State, FirmataError>)
        ensures
            final(self)@ == after_message(old(self)@, message@),
            uninitialized_for(old(self)@, message@) ==> r matches Err(
                FirmataError::UninitializedError(_),
            ),
            !uninitialized_for(old(self)@, message@) && contradicts(old(self)@, message@) ==> r
                matches Err(FirmataError::StateError(_)),
            !refuses(old(self)@, message@) ==> (r matches Ok(copy) && copy@ == final(self)@),
    {
        match self.apply(message) {
            Ok(()) => Ok(self.snapshot()),
            Err(e) => Err(e),
        }
    }
}

/// The state after a command has been mirrored into it, before the board
/// confirms it: a write sets the pin's value, a change of mode the pin's
/// mode. A pin that is not there, and every other command, changes nothing.
pub open spec fn mirrored(state: StateView, message: MessageOut) -> StateView {
    let pins = state.pin_state.pins;
    match message {
        MessageOut::AnalogWrite(pin, value) if pin < pins.len() => StateView {
            pin_state: PinStatesView { pins: with_value(pins, pin as int, value), ..state.pin_state },
            ..state
        },
        MessageOut::DigitalWrite(pin, on) if pin < pins.len() => StateView {
            pin_state: PinStatesView {
                pins: with_value(pins, pin as int, if on { 1u16 } else { 0u16 }),
                ..state.pin_state
            },
            ..state
        },
        MessageOut::PinMode(pin, mode) if pin < pins.len() => StateView {
            pin_state: PinStatesView { pins: with_mode(pins, pin as int, mode), ..state.pin_state },
            ..state
        },
        _ => state,
    }
}

impl State {
    /// Mirrors a command into the state before it goes to the board.
    pub fn update_local(&mut self, message: &MessageOut)
        ensures
            final(self)@ == mirrored(old(self)@, *message),
    {
        match message {
            MessageOut::AnalogWrite(pin, value) => {
                let index: usize = *pin as usize;
                if self.pin_state.pins.len() > index {
                    self.pin_state.pins[index].value = *value;
                    proof {
                        assert(self@.pin_state.pins =~= with_value(
                            old(self)@.pin_state.pins,
                            index as int,
                            *value,
                        ));
                    }
                }
            },
            MessageOut::DigitalWrite(pin, value) => {
                let index: usize = *pin as usize;
                if self.pin_state.pins.len() > index {
                    let level: u16 = if *value { 1 } else { 0 };
                    self.pin_state.pins[index].value = level;
                    proof {
                        assert(self@.pin_state.pins =~= with_value(
                            old(self)@.pin_state.pins,
                            index as int,
                            level,
                        ));
                    }
                }
            },
            MessageOut::PinMode(pin, mode) => {
                let index: usize = *pin as usize;
                if self.pin_state.pins.len() > index {
                    self.pin_state.pins[index].mode = *mode;
                    proof {
                        assert(self@.pin_state.pins =~= with_mode(
                            old(self)@.pin_state.pins,
                            index as int,
                            *mode,
                        ));
                    }
                }
            },
            _ => {},
        }
    }
}

/// What the board has answered so far to the three queries that open a
/// connection. Of each kind of answer the latest counts.
#[derive(Debug, Clone)]
pub struct Handshake {
    pub analog_pins: Option<Vec<usize>>,
    pub firmware: Option<ReportFirmware>,
    pub pins: Option<PinStates>,
}

/// What a `Handshake` holds.
pub struct HandshakeView {
    pub analog_pins: Option<Seq<usize>>,
    pub firmware: Option<ReportFirmwareView>,
    pub pins: Option<PinStatesView>,
}

impl View for Handshake {
    type V = HandshakeView;

    open spec fn view(&self) -> HandshakeView {
        HandshakeView {
            analog_pins: match self.analog_pins {
                Some(v) => Some(v@),
                None => None,
            },
            firmware: match self.firmware {
                Some(v) => Some(v@),
                None => None,
            },
            pins: match self.pins {
                Some(v) => Some(v@),
                None => None,
            },
        }
    }
}

/// Whether all three answers have arrived.
pub open spec fn handshake_complete(heard: HandshakeView) -> bool {
    heard.analog_pins is Some && heard.firmware is Some && heard.pins is Some
}

/// What has been heard after one more message. Only the three answers to the
/// queries count; every other message is passed over.
pub open spec fn heard_after(heard: HandshakeView, message: MessageInView) -> HandshakeView {
    match message {
        MessageInView::System(SystemView::AnalogMappingResponse(indices)) => HandshakeView {
            analog_pins: Some(indices),
            ..heard
        },
        MessageInView::System(SystemView::CapabilityResponseMessage(pins)) => HandshakeView {
            pins: Some(PinStatesView { pins, analog_pin_start: 0 }),
            ..heard
        },
        MessageInView::System(SystemView::ReportFirmwareMessage(report)) => HandshakeView {
            firmware: Some(report),
            ..heard
        },
        _ => heard,
    }
}

/// Whether the answers agree with one another: the analog mapping fits the pins.
pub open spec fn handshake_consistent(heard: HandshakeView) -> bool {
    analog_list_fits(heard.analog_pins.unwrap(), heard.pins.unwrap().pins.len() as int)
}

/// The state that a complete and consistent handshake describes: the pins of
/// the capability response, those of the analog mapping marked analog, and
/// the firmware's name and version. No protocol version is known yet.
pub open spec fn handshake_state(heard: HandshakeView) -> StateView {
    StateView {
        pin_state: PinStatesView {
            pins: with_analog_flags(heard.pins.unwrap().pins, heard.analog_pins.unwrap()),
            ..heard.pins.unwrap()
        },
        firmware_name: heard.firmware.unwrap().name,
        firmware_version: heard.firmware.unwrap().version,
        protocol_version: Seq::empty(),
    }
}

impl Handshake {
    /// A handshake in which nothing has been heard.
    pub fn new() -> (r: Handshake)
        ensures
            r@ == (HandshakeView { analog_pins: None, firmware: None, pins: None }),
    {
        Handshake { analog_pins: None, firmware: None, pins: None }
    }

    /// The three queries that open a connection, in the order in which they
    /// go out: for the firmware, the capabilities and the analog mapping.
    pub fn queries() -> (r: Vec<MessageOut>)
        ensures
            r@ == seq![
                MessageOut::ReportFirmware,
                MessageOut::CapabilityQuery,
                MessageOut::AnalogMappingQuery,
            ],
    {
        let mut r: Vec<MessageOut> = Vec::new();
        r.push(MessageOut::ReportFirmware);
        r.push(MessageOut::CapabilityQuery);
        r.push(MessageOut::AnalogMappingQuery);
        r
    }

    /// Whether all three answers have arrived.
    pub fn is_complete(&self) -> (r: bool)
        ensures
            r == handshake_complete(self@),
    {
        self.analog_pins.is_some() && self.firmware.is_some() && self.pins.is_some()
    }

    /// Takes note of a message of the board.
    pub fn observe(&mut self, message: MessageIn)
        ensures
            final(self)@ == heard_after(old(self)@, message@),
    {
        match message {
            MessageIn::System(System::AnalogMappingResponse(analog_msg)) => {
                self.analog_pins = Some(analog_msg.supported_analog_pins);
            },
            MessageIn::System(System::CapabilityResponseMessage(cap_msg)) => {
                self.pins = Some(PinStates::create(cap_msg.pins));
            },
            MessageIn::System(System::ReportFirmwareMessage(firm_msg)) => {
                self.firmware = Some(firm_msg);
            },
            _ => {},
        }
    }
}

impl State {
    /// Replaces the state by the one that a handshake describes, all at once.
    ///
    /// A handshake that lacks an answer is a `WrongType`; one whose analog
    /// mapping names a pin that the capabilities do not list, or more pins
    /// than they list, is a `StateError`. Either leaves the state as it was.
    pub fn generate_board_state(&mut self, heard: Handshake) -> (r: Result<(), FirmataError>)
        ensures
            !handshake_complete(heard@) ==> (r matches Err(FirmataError::WrongType(_)))
                && final(self)@ == old(self)@,
            handshake_complete(heard@) && !handshake_consistent(heard@) ==> (r matches Err(
                FirmataError::StateError(_),
            )) && final(self)@ == old(self)@,
            handshake_complete(heard@) && handshake_consistent(heard@) ==> r is Ok && final(self)@
                == handshake_state(heard@),
    {
        let Handshake { analog_pins, firmware, pins } = heard;
        let mut pin_state = match pins {
            Some(v) => v,
            None => { return Err(FirmataError::WrongType("expected pinstates found none")); },
        };
        let analog_pins = match analog_pins {
            Some(v) => v,
            None => { return Err(FirmataError::WrongType("expected analog pins found none")); },
        };
        let firmware = match firmware {
            Some(v) => v,
            None => { return Err(FirmataError::WrongType("expected firmware found none")); },
        };
        match pin_state.map_analog_pins(analog_pins) {
            Ok(()) => {},
            Err(e) => { return Err(e); },
        }
        self.pin_state = pin_state;
        self.firmware_name = firmware.name;
        self.firmware_version = firmware.version;
        self.protocol_version = String::new();
        Ok(())
    }
}

/// Applying the same analog mapping a second time changes nothing: the state
/// after two applications is the state after one, and with it the pins that
/// are marked analog. This holds of every list of pins and every state, also
/// where the mapping is refused.
pub proof fn lemma_analog_mapping_idempotent(state: StateView, indices: Seq<usize>)
    ensures
        ({
            let message = MessageInView::System(SystemView::AnalogMappingResponse(indices));
            after_message(after_message(state, message), message) == after_message(state, message)
        }),
{
    let message = MessageInView::System(SystemView::AnalogMappingResponse(indices));
    let once = after_message(state, message);
    if !refuses(state, message) {
        assert(applied(once, message).pin_state.pins =~= once.pin_state.pins);
    }
}

/// What the task that owns the connection has to deal with next.
#[derive(Debug, Clone)]
pub enum Event {
    /// A message of the board has been decoded.
    Inbound(MessageIn),
    /// A task has sent a command for the board.
    Command(MessageOut),
}

/// What the task that owns the connection has to do after an event.
#[derive(Debug, Clone)]
pub enum Action {
    /// Publish this copy of the state to all who read it.
    Publish(State),
    /// Write this command to the connection.
    Write(MessageOut),
}

impl State {
    /// One step of the task that owns the connection.
    ///
    /// A message of the board goes into the state, and a copy of the state
    /// is to be published; where the state refuses the message, the error
    /// is returned and the state stays as it was. A command is mirrored into
    /// the state and is to be written as it is.
    pub fn poll(&mut self, event: Event) -> (r: Result<Action, FirmataError>)
        ensures
            match event {
                Event::Inbound(message) => {
                    &&& final(self)@ == after_message(old(self)@, message@)
                    &&& uninitialized_for(old(self)@, message@) ==> (r matches Err(
                        FirmataError::UninitializedError(_),
                    ))
                    &&& !uninitialized_for(old(self)@, message@) && contradicts(
                        old(self)@,
                        message@,
                    ) ==> (r matches Err(FirmataError::StateError(_)))
                    &&& !refuses(old(self)@, message@) ==> (r matches Ok(Action::Publish(copy))
                        && copy@ == final(self)@)
                },
                Event::Command(command) => {
                    &&& final(self)@ == mirrored(old(self)@, command)
                    &&& r == Ok::<Action, FirmataError>(Action::Write(command))
                },
            },
    {
        match event {
            Event::Inbound(message) => match self.handle_message(message) {
                Ok(new_state) => Ok(Action::Publish(new_state)),
                Err(e) => Err(e),
            },
            Event::Command(command) => {
                self.update_local(&command);
                Ok(Action::Write(command))
            },
        }
    }
}

} // verus!
