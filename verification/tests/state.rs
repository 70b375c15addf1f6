use firmata::asynchronous::board::Board;
use firmata::asynchronous::boardio::{Action, Event, Handshake, MessageOut, State};
use firmata::message::{
    Analog, AnalogMappingResponse, CapabilityResponse, Digital, I2cReply, MessageIn,
    ReportFirmware, System,
};
use firmata::{FirmataError, Mode, Pin, PinId, PinMode};

fn pin(mode: PinMode, value: u16) -> Pin {
    Pin { modes: vec![Mode { mode, resolution: 1 }], analog: false, value, mode }
}

fn state_with(pins: Vec<Pin>) -> State {
    let mut state = State::default();
    state.pin_state.pins = pins;
    state
}

fn capability(pins: Vec<Pin>) -> MessageIn {
    MessageIn::System(System::CapabilityResponseMessage(CapabilityResponse { pins }))
}

fn mapping(indices: Vec<usize>) -> MessageIn {
    MessageIn::System(System::AnalogMappingResponse(AnalogMappingResponse {
        supported_analog_pins: indices,
    }))
}

fn values(state: &State) -> Vec<u16> {
    state.pin_state.pins.iter().map(|p| p.value).collect()
}

fn flags(state: &State) -> Vec<bool> {
    state.pin_state.pins.iter().map(|p| p.analog).collect()
}

#[test]
fn state_starts_empty() {
    let state = State::default();
    assert!(state.pin_state.pins.is_empty());
    assert_eq!(state.pin_state.analog_pin_start, 0);
    assert_eq!(state.firmware_name, "");
    assert_eq!(state.firmware_version, "");
    assert_eq!(state.protocol_version, "");
}

#[test]
fn digital_message_sets_the_inputs_of_its_port() {
    let mut pins = vec![];
    for i in 0..8 {
        if i == 0 || i == 2 {
            pins.push(pin(PinMode::Input, 0));
        } else {
            pins.push(pin(PinMode::Output, 7));
        }
    }
    let mut state = state_with(pins);
    let copy = state
        .handle_message(MessageIn::Digital(Digital { port: 0, value: 0b0000_0101 }))
        .unwrap();
    assert_eq!(values(&state), vec![1, 7, 1, 7, 7, 7, 7, 7]);
    assert_eq!(values(&copy), vec![1, 7, 1, 7, 7, 7, 7, 7]);
}

#[test]
fn digital_message_takes_each_bit_for_its_pin() {
    let mut state = state_with((0..20).map(|_| pin(PinMode::Input, 9)).collect());
    state.apply(MessageIn::Digital(Digital { port: 1, value: 0b1010_0110 })).unwrap();
    let mut expected = vec![9u16; 20];
    expected[8..16].copy_from_slice(&[0, 1, 1, 0, 0, 1, 0, 1]);
    assert_eq!(values(&state), expected);
    // The last port of the board has only four pins.
    state.apply(MessageIn::Digital(Digital { port: 2, value: 0xFFFF })).unwrap();
    expected[16..20].copy_from_slice(&[1, 1, 1, 1]);
    assert_eq!(values(&state), expected);
    // A port beyond the pins changes nothing.
    state.apply(MessageIn::Digital(Digital { port: 255, value: 0 })).unwrap();
    assert_eq!(values(&state), expected);
}

#[test]
fn digital_message_before_the_pins_are_known() {
    let mut state = State::default();
    let r = state.handle_message(MessageIn::Digital(Digital { port: 0, value: 1 }));
    assert!(matches!(r, Err(FirmataError::UninitializedError(_))));
}

#[test]
fn analog_message_sets_the_value_of_an_analog_pin() {
    let mut state = state_with((0..4).map(|_| pin(PinMode::Analog, 0)).collect());
    state.pin_state.analog_pin_start = 2;
    state.apply(mapping(vec![2, 3])).unwrap();
    state.apply(MessageIn::Analog(Analog { pin: PinId::Analog(1), value: 700 })).unwrap();
    assert_eq!(values(&state), vec![0, 0, 0, 700]);
    state.apply(MessageIn::Analog(Analog { pin: PinId::Pin(2), value: 5 })).unwrap();
    assert_eq!(values(&state), vec![0, 0, 5, 700]);
}

#[test]
fn analog_message_for_a_pin_that_is_not_analog() {
    let mut state = state_with((0..4).map(|_| pin(PinMode::Analog, 3)).collect());
    state.apply(mapping(vec![1])).unwrap();
    let r = state.apply(MessageIn::Analog(Analog { pin: PinId::Analog(0), value: 700 }));
    assert!(matches!(r, Err(FirmataError::UninitializedError(_))));
    let r = state.apply(MessageIn::Analog(Analog { pin: PinId::Analog(4), value: 700 }));
    assert!(matches!(r, Err(FirmataError::UninitializedError(_))));
    state.pin_state.analog_pin_start = 255;
    let r = state.apply(MessageIn::Analog(Analog { pin: PinId::Analog(255), value: 700 }));
    assert!(matches!(r, Err(FirmataError::UninitializedError(_))));
    assert_eq!(values(&state), vec![3, 3, 3, 3]);
    let mut empty = State::default();
    let r = empty.apply(MessageIn::Analog(Analog { pin: PinId::Analog(0), value: 1 }));
    assert!(matches!(r, Err(FirmataError::UninitializedError(_))));
}

#[test]
fn analog_mapping_twice_is_analog_mapping_once() {
    let mut state = state_with((0..5).map(|_| pin(PinMode::Input, 0)).collect());
    state.apply(mapping(vec![1, 4])).unwrap();
    let once = flags(&state);
    assert_eq!(once, vec![false, true, false, false, true]);
    state.apply(mapping(vec![1, 4])).unwrap();
    assert_eq!(flags(&state), once);
}

#[test]
fn analog_mapping_before_the_pins_are_known() {
    let mut state = State::default();
    let r = state.apply(mapping(vec![]));
    assert!(matches!(r, Err(FirmataError::UninitializedError(_))));
}

#[test]
fn analog_mapping_that_names_a_missing_pin_changes_nothing() {
    let mut state = state_with((0..3).map(|_| pin(PinMode::Input, 0)).collect());
    let r = state.apply(mapping(vec![0, 3]));
    assert!(matches!(r, Err(FirmataError::StateError(_))));
    assert_eq!(flags(&state), vec![false, false, false]);
}

#[test]
fn capability_response_replaces_the_pins() {
    let mut state = state_with((0..3).map(|_| pin(PinMode::Input, 4)).collect());
    state.apply(mapping(vec![0, 1, 2])).unwrap();
    state.apply(capability(vec![pin(PinMode::Output, 0), pin(PinMode::Pwm, 0)])).unwrap();
    assert_eq!(flags(&state), vec![false, false]);
    assert_eq!(state.pin_state.pins[1].mode, PinMode::Pwm);
    state.apply(capability(vec![])).unwrap();
    assert!(state.pin_state.pins.is_empty());
}

#[test]
fn firmware_and_protocol_version_are_stored() {
    let mut state = State::default();
    let report = ReportFirmware { version: "2.5".to_string(), name: "Std".to_string() };
    state.apply(MessageIn::System(System::ReportFirmwareMessage(report))).unwrap();
    let copy = state.handle_message(MessageIn::ProtocolVersion("2.6".to_string())).unwrap();
    assert_eq!(copy.firmware_name, "Std");
    assert_eq!(copy.firmware_version, "2.5");
    assert_eq!(copy.protocol_version, "2.6");
}

#[test]
fn i2c_reply_leaves_the_state_alone() {
    let mut state = state_with(vec![pin(PinMode::I2c, 3)]);
    let reply = I2cReply::deserialize(&[1, 0, 2, 0, 3, 0]);
    let copy = state.handle_message(MessageIn::System(System::I2cReplyMessage(reply))).unwrap();
    assert_eq!(values(&copy), vec![3]);
}

#[test]
fn snapshot_is_a_copy() {
    let mut state = state_with(vec![pin(PinMode::Input, 3), pin(PinMode::Output, 4)]);
    state.firmware_name = "n".to_string();
    let copy = state.snapshot();
    state.pin_state.pins[0].value = 99;
    assert_eq!(values(&copy), vec![3, 4]);
    assert_eq!(copy.pin_state.pins[1].modes.len(), 1);
    assert_eq!(copy.firmware_name, "n");
}

#[test]
fn commands_are_mirrored_into_the_state() {
    let mut state = state_with((0..3).map(|_| pin(PinMode::Input, 0)).collect());
    state.update_local(&MessageOut::AnalogWrite(1, 300));
    assert_eq!(values(&state), vec![0, 300, 0]);
    state.update_local(&MessageOut::DigitalWrite(2, true));
    assert_eq!(values(&state), vec![0, 300, 1]);
    state.update_local(&MessageOut::DigitalWrite(1, false));
    assert_eq!(values(&state), vec![0, 0, 1]);
    state.update_local(&MessageOut::PinMode(0, PinMode::Servo));
    assert_eq!(state.pin_state.pins[0].mode, PinMode::Servo);
    // A pin that is not there, and every other command, changes nothing.
    state.update_local(&MessageOut::AnalogWrite(3, 300));
    state.update_local(&MessageOut::PinMode(200, PinMode::Output));
    state.update_local(&MessageOut::DigitalMessage(0, 0xFF));
    state.update_local(&MessageOut::CapabilityQuery);
    assert_eq!(values(&state), vec![0, 0, 1]);
}

#[test]
fn driver_step() {
    let mut state = state_with(vec![pin(PinMode::Input, 0)]);
    match state.poll(Event::Inbound(MessageIn::Digital(Digital { port: 0, value: 1 }))).unwrap() {
        Action::Publish(copy) => assert_eq!(values(&copy), vec![1]),
        other => panic!("unexpected {:?}", other),
    }
    match state.poll(Event::Command(MessageOut::AnalogWrite(0, 77))).unwrap() {
        Action::Write(MessageOut::AnalogWrite(0, 77)) => {}
        other => panic!("unexpected {:?}", other),
    }
    assert_eq!(values(&state), vec![77]);
    let r = state.poll(Event::Inbound(mapping(vec![5])));
    assert!(matches!(r, Err(FirmataError::StateError(_))));
    assert_eq!(values(&state), vec![77]);
}

fn heard(pins: usize, analog: Vec<usize>) -> Handshake {
    let mut handshake = Handshake::new();
    assert!(!handshake.is_complete());
    handshake.observe(MessageIn::ProtocolVersion("2.5".to_string()));
    handshake.observe(mapping(analog));
    assert!(!handshake.is_complete());
    handshake.observe(MessageIn::Digital(Digital { port: 0, value: 1 }));
    let report = ReportFirmware { version: "2.5".to_string(), name: "Std".to_string() };
    handshake.observe(MessageIn::System(System::ReportFirmwareMessage(report)));
    assert!(!handshake.is_complete());
    handshake.observe(capability((0..pins).map(|_| pin(PinMode::Input, 0)).collect()));
    assert!(handshake.is_complete());
    handshake
}

#[test]
fn handshake_sends_its_queries_in_order() {
    let queries = Handshake::queries();
    assert_eq!(queries.len(), 3);
    assert!(matches!(queries[0], MessageOut::ReportFirmware));
    assert!(matches!(queries[1], MessageOut::CapabilityQuery));
    assert!(matches!(queries[2], MessageOut::AnalogMappingQuery));
}

#[test]
fn handshake_commits_the_state_at_once() {
    let mut state = State::default();
    state.protocol_version = "old".to_string();
    state.generate_board_state(heard(4, vec![2, 3])).unwrap();
    assert_eq!(flags(&state), vec![false, false, true, true]);
    assert_eq!(state.firmware_name, "Std");
    assert_eq!(state.firmware_version, "2.5");
    assert_eq!(state.protocol_version, "");
    assert_eq!(state.pin_state.analog_pin_start, 0);
}

#[test]
fn handshake_with_an_analog_pin_beyond_the_pins_fails_and_commits_nothing() {
    let mut state = state_with(vec![pin(PinMode::Output, 5)]);
    state.firmware_name = "before".to_string();
    let r = state.generate_board_state(heard(4, vec![1, 4]));
    assert!(matches!(r, Err(FirmataError::StateError(_))));
    assert_eq!(values(&state), vec![5]);
    assert_eq!(state.pin_state.pins[0].mode, PinMode::Output);
    assert_eq!(state.firmware_name, "before");
    assert_eq!(state.firmware_version, "");
}

#[test]
fn handshake_that_lacks_an_answer() {
    let mut state = state_with(vec![pin(PinMode::Output, 5)]);
    let mut handshake = Handshake::new();
    handshake.observe(mapping(vec![0]));
    handshake.observe(capability(vec![pin(PinMode::Input, 0)]));
    let r = state.generate_board_state(handshake);
    assert!(matches!(r, Err(FirmataError::WrongType(_))));
    assert_eq!(values(&state), vec![5]);
    let r = state.generate_board_state(Handshake::new());
    assert!(matches!(r, Err(FirmataError::WrongType(_))));
}

#[test]
fn handshake_keeps_the_latest_answer_of_a_kind() {
    let mut handshake = heard(2, vec![0]);
    handshake.observe(mapping(vec![1]));
    let mut state = State::default();
    state.generate_board_state(handshake).unwrap();
    assert_eq!(flags(&state), vec![false, true]);
}

#[test]
fn handle_turns_requests_into_commands() {
    let mut state = state_with(vec![pin(PinMode::Input, 3), pin(PinMode::Output, 4)]);
    state.pin_state.analog_pin_start = 14;
    state.firmware_name = "Std".to_string();
    state.firmware_version = "2.5".to_string();
    state.protocol_version = "2.6".to_string();
    let board = Board::create(state);
    assert_eq!(board.pins().len(), 2);
    assert_eq!(board.pins()[1].value, 4);
    assert_eq!(board.firmware_name(), "Std");
    assert_eq!(board.firmware_version(), "2.5");
    assert_eq!(board.protocol_version(), "2.6");
    assert_eq!(board.get_state().pin_state.analog_pin_start, 14);
    assert!(matches!(board.query_analog_mapping(), MessageOut::AnalogMappingQuery));
    assert!(matches!(board.query_capabilities(), MessageOut::CapabilityQuery));
    assert!(matches!(board.query_firmware(), MessageOut::ReportFirmware));
    assert_eq!(board.convert_pin_id_to_u8(PinId::Analog(2)).unwrap(), 16);
    assert_eq!(board.convert_pin_id_to_u8(PinId::Digital(2)).unwrap(), 2);
    assert!(matches!(
        board.report_digital(PinId::Digital(5), true).unwrap(),
        MessageOut::ReportDigital(5, true)
    ));
    assert!(matches!(
        board.report_analog(PinId::Analog(1), false).unwrap(),
        MessageOut::ReportAnalog(15, false)
    ));
    assert!(matches!(
        board.analog_write(PinId::Analog(0), 1023).unwrap(),
        MessageOut::AnalogWrite(14, 1023)
    ));
    assert!(matches!(
        board.digital_write(PinId::Pin(13), true).unwrap(),
        MessageOut::DigitalWrite(13, true)
    ));
    assert!(matches!(
        board.set_pin_mode(PinId::Digital(9), PinMode::Pwm).unwrap(),
        MessageOut::PinMode(9, PinMode::Pwm)
    ));
    match board.string_write("hello") {
        MessageOut::StringWrite(text) => assert_eq!(text, "hello"),
        other => panic!("unexpected {:?}", other),
    }
    assert!(matches!(board.sampling_interval(1000), MessageOut::SampleingInterval(1000)));
    assert!(matches!(board.sampling_interval(65_536 + 19), MessageOut::SampleingInterval(19)));
    assert!(matches!(
        board.analog_write(PinId::Analog(242), 1),
        Err(FirmataError::OutOfRange(_))
    ));
    assert!(matches!(
        board.set_pin_mode(PinId::Analog(255), PinMode::Input),
        Err(FirmataError::OutOfRange(_))
    ));
}
