//! A board as one of many tasks sees it: the state that was last published,
//! and the command that each request becomes.
use crate::asynchronous::boardio::{copy_pins, MessageOut, State, StateView};
use crate::standard::board::interval_millis;
use crate::{pins_view, resolve_pin, FirmataError, Pin, PinId, PinMode};
use vstd::prelude::*;

verus! {

/// A task's view of a board. It holds the state that was last published and
/// never the connection: what it is asked to do becomes a command for the
/// task that owns the connection.
#[derive(Debug, Clone)]
pub struct Board {
    state: State,
}

impl View for Board {
    type V = StateView;

    closed spec fn view(&self) -> StateView {
        self.state@
    }
}

/// The command that a request about a pin becomes, given the physical pin number.
pub open spec fn pin_command(
    state: StateView,
    pin: PinId,
    command: spec_fn(u8) -> MessageOut,
    r: Result<MessageOut, FirmataError>,
) -> bool {
    let at = resolve_pin(pin, state.pin_state.analog_pin_start);
    if at > u8::MAX {
        r matches Err(FirmataError::OutOfRange(_))
    } else {
        r == Ok::<MessageOut, FirmataError>(command(at as u8))
    }
}

impl Board {
    /// A view of the board as the given state describes it.
    pub fn create(state: State) -> (r: Self)
        ensures
            r@ == state@,
    {
        Self { state }
    }

    /// A copy of the state that was last published.
    pub fn get_state(&self) -> (r: State)
        ensures
            r@ == self@,
    {
        self.state.snapshot()
    }

    /// The physical pin number that `pin` stands for by the analog offset
    /// that was last published, or `OutOfRange` where it is beyond 255.
    pub fn convert_pin_id_to_u8(&self, pin: PinId) -> (r: Result<u8, FirmataError>)
        ensures
            match r {
                Ok(at) => at == resolve_pin(pin, self@.pin_state.analog_pin_start),
                Err(FirmataError::OutOfRange(_)) => resolve_pin(
                    pin,
                    self@.pin_state.analog_pin_start,
                ) > u8::MAX,
                Err(_) => false,
            },
    {
        self.state.pin_state.resolve(pin)
    }

    /// A copy of the pins of the board.
    pub fn pins(&self) -> (r: Vec<Pin>)
        ensures
            pins_view(r@) == self@.pin_state.pins,
    {
        copy_pins(&self.state.pin_state.pins)
    }

    pub fn protocol_version(&self) -> (r: String)
        ensures
            r@ == self@.protocol_version,
    {
        self.state.protocol_version.clone()
    }

    pub fn firmware_name(&self) -> (r: String)
        ensures
            r@ == self@.firmware_name,
    {
        self.state.firmware_name.clone()
    }

    pub fn firmware_version(&self) -> (r: String)
        ensures
            r@ == self@.firmware_version,
    {
        self.state.firmware_version.clone()
    }

    pub fn query_analog_mapping(&self) -> (r: MessageOut)
        ensures
            r == MessageOut::AnalogMappingQuery,
    {
        MessageOut::AnalogMappingQuery
    }

    pub fn query_capabilities(&self) -> (r: MessageOut)
        ensures
            r == MessageOut::CapabilityQuery,
    {
        MessageOut::CapabilityQuery
    }

    pub fn query_firmware(&self) -> (r: MessageOut)
        ensures
            r == MessageOut::ReportFirmware,
    {
        MessageOut::ReportFirmware
    }

    pub fn report_digital(&self, pin: PinId, state: bool) -> (r: Result<MessageOut, FirmataError>)
        ensures
            pin_command(self@, pin, |at: u8| MessageOut::ReportDigital(at, state), r),
    {
        match self.convert_pin_id_to_u8(pin) {
            Ok(pin_out) => Ok(MessageOut::ReportDigital(pin_out, state)),
            Err(e) => Err(e),
        }
    }

    pub fn report_analog(&self, pin: PinId, state: bool) -> (r: Result<MessageOut, FirmataError>)
        ensures
            pin_command(self@, pin, |at: u8| MessageOut::ReportAnalog(at, state), r),
    {
        match self.convert_pin_id_to_u8(pin) {
            Ok(pin_out) => Ok(MessageOut::ReportAnalog(pin_out, state)),
            Err(e) => Err(e),
        }
    }

    pub fn analog_write(&self, pin: PinId, output: u16) -> (r: Result<MessageOut, FirmataError>)
        ensures
            pin_command(self@, pin, |at: u8| MessageOut::AnalogWrite(at, output), r),
    {
        match self.convert_pin_id_to_u8(pin) {
            Ok(pin_out) => Ok(MessageOut::AnalogWrite(pin_out, output)),
            Err(e) => Err(e),
        }
    }

    pub fn digital_write(&self, pin: PinId, output: bool) -> (r: Result<MessageOut, FirmataError>)
        ensures
            pin_command(self@, pin, |at: u8| MessageOut::DigitalWrite(at, output), r),
    {
        match self.convert_pin_id_to_u8(pin) {
            Ok(pin_out) => Ok(MessageOut::DigitalWrite(pin_out, output)),
            Err(e) => Err(e),
        }
    }

    pub fn string_write(&self, string: &str) -> (r: MessageOut)
        ensures
            r matches MessageOut::StringWrite(text) && text@ == string@,
    {
        MessageOut::StringWrite(string.to_owned())
    }

    pub fn set_pin_mode(&self, pin: PinId, mode: PinMode) -> (r: Result<MessageOut, FirmataError>)
        ensures
            pin_command(self@, pin, |at: u8| MessageOut::PinMode(at, mode), r),
    {
        match self.convert_pin_id_to_u8(pin) {
            Ok(pin_out) => Ok(MessageOut::PinMode(pin_out, mode)),
            Err(e) => Err(e),
        }
    }

    /// The command that sets the time between two reports of the board,
    /// given in milliseconds.
    pub fn sampling_interval(&self, millis: u128) -> (r: MessageOut)
        ensures
            r == MessageOut::SampleingInterval(interval_millis(millis)),
    {
        MessageOut::SampleingInterval((millis % 0x10000) as u16)
    }
}

} // verus!
