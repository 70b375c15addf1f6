use firmata::asynchronous::boardio::MessageOut;
use firmata::message::{
    CapabilityResponse, I2cReply, MessageId, MessageIn, System,
};
use firmata::standard::board::Board;
use firmata::standard::parser::{
    ends_system_message, read_and_parse, read_and_parse_analog, read_and_parse_digital,
    read_and_parse_protocol_version, read_and_parse_system,
};
use firmata::{FirmataError, PinId, PinMode};

/// A board of `n` pins that can each be an input or an output, of which the
/// listed ones are analog.
fn board(n: usize, analog: &[u8]) -> Board {
    let mut board = Board::new();
    let mut frame = vec![0xF0u8, 0x6C];
    for _ in 0..n {
        frame.extend([0, 1, 1, 1, 0x7F]);
    }
    frame.push(0xF7);
    assert_eq!(board.read(&frame).unwrap(), MessageId::Capability);
    let mut frame = vec![0xF0u8, 0x6A];
    for i in 0..n {
        frame.push(if analog.contains(&(i as u8)) { 0 } else { 0x7F });
    }
    frame.push(0xF7);
    assert_eq!(board.read(&frame).unwrap(), MessageId::AnalogMapping);
    board
}

fn values(board: &Board) -> Vec<u16> {
    board.pins().iter().map(|p| p.value).collect()
}

#[test]
fn fixed_frames_from_their_bytes() {
    let m = read_and_parse_analog(&[0x00, 0x02], 0xE3);
    assert_eq!(m.message_id, MessageId::Analog);
    match m.message {
        MessageIn::Analog(a) => {
            assert!(matches!(a.pin, PinId::Analog(3)));
            assert_eq!(a.value, 512);
        }
        other => panic!("unexpected {:?}", other),
    }
    let m = read_and_parse_digital(&[0x05, 0x01], 0x9A);
    assert_eq!(m.message_id, MessageId::Digital);
    match m.message {
        MessageIn::Digital(d) => {
            assert_eq!(d.port, 10);
            assert_eq!(d.value, 0x0105);
        }
        other => panic!("unexpected {:?}", other),
    }
    let m = read_and_parse_protocol_version(&[2, 9]);
    assert_eq!(m.message_id, MessageId::ProtocolVersion);
    match m.message {
        MessageIn::ProtocolVersion(text) => assert_eq!(text, "2.11"),
        other => panic!("unexpected {:?}", other),
    }
}

#[test]
fn system_frame_from_the_bytes_after_its_start() {
    let m = read_and_parse_system(&[0x79, 2, 5, b'S', 0, 0xF7, 0xFF]).unwrap();
    assert_eq!(m.message_id, MessageId::ReportFirmware);
    match m.message {
        MessageIn::System(System::ReportFirmwareMessage(r)) => {
            assert_eq!(r.version, "2.5");
            assert_eq!(r.name, "S");
        }
        other => panic!("unexpected {:?}", other),
    }
    let m = read_and_parse_system(&[0x6A, 0x7F, 1, 0xF7]).unwrap();
    assert_eq!(m.message_id, MessageId::AnalogMapping);
    let m = read_and_parse_system(&[0x6C, 0x7F, 0xF7]).unwrap();
    assert_eq!(m.message_id, MessageId::Capability);
    let m = read_and_parse_system(&[0x01, 1, 0, 2, 0, 0xF7]).unwrap();
    assert_eq!(m.message_id, MessageId::I2cReply);
}

#[test]
fn system_frame_errors() {
    assert!(matches!(read_and_parse_system(&[0xF7]), Err(FirmataError::OutOfRange(_))));
    assert!(matches!(read_and_parse_system(&[]), Err(FirmataError::IoError(_))));
    assert!(matches!(read_and_parse_system(&[0x6A, 1, 2]), Err(FirmataError::IoError(_))));
    match read_and_parse_system(&[0x6A, 1, 0xE0, 2, 0xF7]) {
        Err(FirmataError::ParseError(_, bytes)) => assert_eq!(bytes, vec![0x6A, 1]),
        other => panic!("unexpected {:?}", other),
    }
    match read_and_parse_system(&[0xF0, 0xF7]) {
        Err(FirmataError::ParseError(_, bytes)) => assert!(bytes.is_empty()),
        other => panic!("unexpected {:?}", other),
    }
    match read_and_parse_system(&[0x50, 1, 0xF7]) {
        Err(FirmataError::ParseError(_, bytes)) => assert_eq!(bytes, vec![0x50, 1]),
        other => panic!("unexpected {:?}", other),
    }
}

#[test]
fn payload_ends_at_the_closing_byte_or_a_header() {
    for byte in [0xF7u8, 0xF0, 0xF9, 0xE0, 0xEE, 0x90, 0x9E] {
        assert!(ends_system_message(byte));
    }
    for byte in [0x00u8, 0x7F, 0xEF, 0x9F, 0xF4] {
        assert!(!ends_system_message(byte));
    }
}

#[test]
fn next_frame_of_a_stream() {
    // What stands before the first header byte is passed over.
    let m = read_and_parse(&[0x00, 0x7F, 0xE1, 0x10, 0x00, 0x99]).unwrap();
    assert_eq!(m.message_id, MessageId::Analog);
    match m.message {
        MessageIn::Analog(a) => {
            assert!(matches!(a.pin, PinId::Analog(1)));
            assert_eq!(a.value, 16);
        }
        other => panic!("unexpected {:?}", other),
    }
    assert_eq!(read_and_parse(&[0x92, 1, 0]).unwrap().message_id, MessageId::Digital);
    let m = read_and_parse(&[0xF9, 2, 5]).unwrap();
    match m.message {
        MessageIn::ProtocolVersion(text) => assert_eq!(text, "2.5"),
        other => panic!("unexpected {:?}", other),
    }
    let m = read_and_parse(&[3, 0xF0, 0x79, 1, 2, 0xF7]).unwrap();
    assert_eq!(m.message_id, MessageId::ReportFirmware);
}

#[test]
fn stream_errors() {
    assert!(matches!(read_and_parse(&[]), Err(FirmataError::Timeout(_))));
    assert!(matches!(read_and_parse(&[1, 2, 0xEF]), Err(FirmataError::Timeout(_))));
    assert!(matches!(read_and_parse(&[0xE0, 1]), Err(FirmataError::IoError(_))));
    assert!(matches!(read_and_parse(&[0xF9]), Err(FirmataError::IoError(_))));
    assert!(matches!(read_and_parse(&[0xF0, 0x6A]), Err(FirmataError::IoError(_))));
    assert!(matches!(read_and_parse(&[0xF0, 0xF7]), Err(FirmataError::OutOfRange(_))));
}

#[test]
fn board_starts_empty() {
    let board = Board::new();
    assert!(board.pins().is_empty());
    assert_eq!(board.firmware_name(), "");
    assert_eq!(board.firmware_version(), "");
    assert_eq!(board.protocol_version(), "");
}

#[test]
fn board_learns_from_what_it_reads() {
    let mut board = board(3, &[2]);
    let pins = board.pins();
    assert_eq!(pins.len(), 3);
    assert_eq!(pins[0].modes.len(), 2);
    assert!(!pins[0].analog && !pins[1].analog && pins[2].analog);
    assert_eq!(board.read(&[0xF0, 0x79, 2, 5, b'x', 0xF7]).unwrap(), MessageId::ReportFirmware);
    assert_eq!(board.firmware_name(), "x");
    assert_eq!(board.firmware_version(), "2.5");
    assert_eq!(board.read(&[0xF9, 2, 6]).unwrap(), MessageId::ProtocolVersion);
    assert_eq!(board.protocol_version(), "2.6");
    assert_eq!(board.read(&[0x90, 0x03, 0x00]).unwrap(), MessageId::Digital);
    assert_eq!(board.read(&[0xE2, 0x34, 0x02]).unwrap(), MessageId::Analog);
    assert_eq!(values(&board), vec![1, 1, 0x0234]);
    // Pin 2 is an input as well, so a digital reading of its port reaches it.
    assert_eq!(board.read(&[0x90, 0x02, 0x00]).unwrap(), MessageId::Digital);
    assert_eq!(values(&board), vec![0, 1, 0]);
    assert_eq!(board.read(&[0xE2, 0x34, 0x02]).unwrap(), MessageId::Analog);
    assert_eq!(board.get_physical_pin(PinId::Pin(2)).value, 0x0234);
    assert_eq!(board.pin_id_to_pin(PinId::Analog(2)), 2);
}

#[test]
fn board_read_errors_change_nothing() {
    let mut board = board(2, &[]);
    assert!(matches!(board.read(&[0xE0, 1, 0]), Err(FirmataError::UninitializedError(_))));
    assert!(matches!(board.read(&[0xF0, 0x6A, 0, 0, 0, 0xF7]), Err(FirmataError::StateError(_))));
    assert!(matches!(board.read(&[0x01]), Err(FirmataError::Timeout(_))));
    assert!(matches!(board.read(&[0xF0, 0x6C]), Err(FirmataError::IoError(_))));
    assert_eq!(values(&board), vec![0, 0]);
    assert!(board.pins().iter().all(|p| !p.analog));
    let mut fresh = Board::new();
    assert!(matches!(fresh.read(&[0x90, 1, 0]), Err(FirmataError::UninitializedError(_))));
}

#[test]
fn board_keeps_the_i2c_replies() {
    let mut board = Board::new();
    assert_eq!(board.read(&[0xF0, 0x01, 4, 0, 5, 0, 6, 0, 0xF7]).unwrap(), MessageId::I2cReply);
    let reply = I2cReply::deserialize(&[7, 0, 8, 0]);
    board.handle_message(MessageIn::System(System::I2cReplyMessage(reply))).unwrap();
    {
        let replies = board.i2c_data();
        assert_eq!(replies.len(), 2);
        assert_eq!(replies[0].address, 4);
        assert_eq!(replies[0].register, 5);
        assert_eq!(replies[0].data, vec![6]);
        assert_eq!(replies[1].address, 7);
        replies.remove(0);
    }
    assert_eq!(board.i2c_data().len(), 1);
    assert_eq!(board.i2c_data()[0].register, 8);
}

#[test]
fn board_handles_a_capability_response() {
    let mut board = Board::new();
    let pins = CapabilityResponse::deserialize(&[0x7F, 0x7F]).unwrap();
    board.handle_message(MessageIn::System(System::CapabilityResponseMessage(pins))).unwrap();
    assert_eq!(board.pins().len(), 2);
}

#[test]
fn board_query_bytes() {
    let board = Board::new();
    assert_eq!(board.query_analog_mapping().unwrap(), vec![0xF0, 0x69, 0xF7]);
    assert_eq!(board.query_capabilities().unwrap(), vec![0xF0, 0x6B, 0xF7]);
    assert_eq!(board.query_firmware().unwrap(), vec![0xF0, 0x79, 0xF7]);
    assert_eq!(board.i2c_config(0x0102).unwrap(), vec![0xF0, 0x78, 0x02, 0x01, 0xF7]);
    assert_eq!(board.i2c_read(0x20, 0x0304).unwrap(), vec![0xF0, 0x76, 0x20, 0x08, 0x04, 0x03, 0xF7]);
    assert_eq!(board.string_write("ok").unwrap(), vec![0xF0, 0x71, b'o', 0, b'k', 0, 0xF7]);
    assert_eq!(board.sampling_interval(19).unwrap(), vec![0xF0, 0x7A, 19, 0, 0xF7]);
    assert_eq!(board.sampling_interval(65_536 + 256).unwrap(), vec![0xF0, 0x7A, 0, 1, 0xF7]);
}

#[test]
fn board_i2c_write_splits_each_byte_in_two() {
    let board = Board::new();
    assert_eq!(
        board.i2c_write(0x20, &[0x81, 0x7F, 0x00]).unwrap(),
        vec![0xF0, 0x76, 0x20, 0x00, 0x01, 0x01, 0x7F, 0x00, 0x00, 0x00, 0xF7]
    );
    assert_eq!(board.i2c_write(0x20, &[]).unwrap(), vec![0xF0, 0x76, 0x20, 0x00, 0xF7]);
}

#[test]
fn board_populate_steps() {
    let steps = Board::populate_board_info();
    assert!(matches!(steps[0], (MessageOut::ReportFirmware, MessageId::ReportFirmware)));
    assert!(matches!(steps[1], (MessageOut::CapabilityQuery, MessageId::Capability)));
    assert!(matches!(steps[2], (MessageOut::AnalogMappingQuery, MessageId::AnalogMapping)));
}

#[test]
fn board_report_commands() {
    let mut board = board(20, &[14, 15]);
    assert_eq!(board.report_digital(PinId::Digital(3), true).unwrap(), vec![0xD3, 1]);
    assert_eq!(board.report_digital(PinId::Pin(1), false).unwrap(), vec![0xD1, 0]);
    assert!(matches!(
        board.report_digital(PinId::Analog(0), true),
        Err(FirmataError::WrongType(_))
    ));
    assert_eq!(board.report_analog(PinId::Analog(2), true).unwrap(), vec![0xC3, 1]);
    assert_eq!(board.report_analog(PinId::Pin(0), false).unwrap(), vec![0xC1, 0]);
    assert!(matches!(
        board.report_analog(PinId::Digital(0), true),
        Err(FirmataError::WrongType(_))
    ));
    assert!(matches!(
        board.report_analog(PinId::Pin(255), true),
        Err(FirmataError::OutOfRange(_))
    ));
    assert_eq!(board.i2c_data().len(), 0);
}

#[test]
fn board_analog_write() {
    let mut board = board(20, &[14]);
    assert_eq!(board.analog_write(PinId::Pin(3), 512).unwrap(), vec![0xE3, 0x00, 0x02]);
    assert_eq!(board.analog_write(PinId::Analog(15), 1).unwrap(), vec![0xEF, 0x01, 0x00]);
    assert_eq!(board.pins()[3].value, 512);
    assert_eq!(board.pins()[15].value, 1);
    assert!(matches!(board.analog_write(PinId::Pin(16), 9), Err(FirmataError::OutOfRange(_))));
    assert_eq!(board.pins()[16].value, 0);
    let mut small = self::board(2, &[]);
    assert!(matches!(small.analog_write(PinId::Pin(2), 9), Err(FirmataError::OutOfRange(_))));
    assert_eq!(values(&small), vec![0, 0]);
}

#[test]
fn board_digital_write_sends_the_levels_of_the_port() {
    let mut board = board(12, &[]);
    assert_eq!(board.digital_write(PinId::Digital(9), 1).unwrap(), vec![0x91, 0b0000_0010, 0]);
    assert_eq!(board.digital_write(PinId::Pin(11), 500).unwrap(), vec![0x91, 0b0000_1010, 0]);
    assert_eq!(board.digital_write(PinId::Digital(9), 0).unwrap(), vec![0x91, 0b0000_1000, 0]);
    assert_eq!(board.digital_write(PinId::Digital(7), 1).unwrap(), vec![0x90, 0b1000_0000, 0]);
    assert_eq!(board.pins()[11].value, 500);
    assert!(matches!(
        board.digital_write(PinId::Analog(0), 1),
        Err(FirmataError::WrongType(_))
    ));
    assert!(matches!(
        board.digital_write(PinId::Digital(12), 1),
        Err(FirmataError::OutOfRange(_))
    ));
    assert!(matches!(
        board.digital_write(PinId::Digital(200), 1),
        Err(FirmataError::OutOfRange(_))
    ));
    assert_eq!(values(&board)[9], 0);
}

#[test]
fn board_set_pin_mode() {
    let mut board = board(10, &[]);
    assert_eq!(board.set_pin_mode(PinId::Pin(9), PinMode::Output).unwrap(), vec![0xF4, 9, 1]);
    assert_eq!(board.pins()[9].mode, PinMode::Output);
    // A digital reading no longer reaches a pin that is an output.
    board.read(&[0x91, 0xFF, 0x00]).unwrap();
    assert_eq!(board.pins()[8].value, 1);
    assert_eq!(board.pins()[9].value, 0);
    assert!(matches!(
        board.set_pin_mode(PinId::Pin(10), PinMode::Output),
        Err(FirmataError::OutOfRange(_))
    ));
}

#[test]
fn waiting_for_a_message() {
    let found = Board::read_until_message_found(Ok(MessageId::Capability), MessageId::Capability);
    assert!(matches!(found, Some(Ok(()))));
    let other = Board::read_until_message_found(Ok(MessageId::Analog), MessageId::Capability);
    assert!(other.is_none());
    let early = Board::read_until_message_found(
        Err(FirmataError::UninitializedError("early")),
        MessageId::Capability,
    );
    assert!(early.is_none());
    let missing = Board::read_until_message_found(
        Err(FirmataError::NotFoundError("missing")),
        MessageId::Capability,
    );
    assert!(missing.is_none());
    let failed = Board::read_until_message_found(
        Err(FirmataError::Timeout("1s".to_string())),
        MessageId::Capability,
    );
    assert!(matches!(failed, Some(Err(FirmataError::Timeout(_)))));
}

#[test]
fn polling_passes_over_a_timeout() {
    assert!(Board::poll(Ok(MessageId::Analog)).is_ok());
    assert!(Board::poll(Err(FirmataError::Timeout("1s".to_string()))).is_ok());
    assert!(matches!(
        Board::poll(Err(FirmataError::StateError("s"))),
        Err(FirmataError::StateError("s"))
    ));
    assert!(matches!(
        Board::poll(Err(FirmataError::ParseError("p", vec![1]))),
        Err(FirmataError::ParseError("p", _))
    ));
}
