use fuel_logger::modbus::{
    build_frame, build_read_holding_registers_frame, decode_u32_be, lrc_checksum,
    parse_ascii_frame, parse_modbus_ascii_response, parse_read_holding_registers_response,
    rx_idle_expired, rx_progress, tx_hold_ms, ModbusError, RxProgress,
};

fn text(frame: &[u8]) -> String {
    String::from_utf8(frame.to_vec()).unwrap()
}

#[test]
fn lrc_of_read_request_is_twos_complement_of_sum() {
    assert_eq!(lrc_checksum(&[0x01, 0x03, 0x00, 0x18, 0x00, 0x04]), 0xE0);
    assert_eq!(lrc_checksum(&[]), 0x00);
    assert_eq!(lrc_checksum(&[0xFF, 0x01]), 0x00);
    assert_eq!(lrc_checksum(&[0x80]), 0x80);
}

#[test]
fn build_frame_writes_upper_hex_lrc_and_crlf() {
    assert_eq!(text(&build_frame(0x01, 0x03, &[0x00, 0x18, 0x00, 0x04])), ":010300180004E0\r\n");
    assert_eq!(text(&build_frame(0xAB, 0x10, &[])), ":AB1045\r\n");
}

#[test]
fn read_holding_registers_frame_uses_zero_based_address() {
    let f = build_read_holding_registers_frame(1, 25, 4).unwrap();
    assert_eq!(text(&f), ":010300180004E0\r\n");
    let f = build_read_holding_registers_frame(0x11, 1, 0x0102).unwrap();
    assert_eq!(text(&f), ":110300000102E9\r\n");
}

#[test]
fn read_holding_registers_frame_rejects_zero_register_and_count() {
    assert_eq!(build_read_holding_registers_frame(1, 0, 4), Err(ModbusError::RegisterNumberZero));
    assert_eq!(build_read_holding_registers_frame(1, 5, 0), Err(ModbusError::CountZero));
}

#[test]
fn parse_ascii_frame_reads_back_built_frame() {
    let f = build_frame(0x07, 0x03, &[0x04, 0x00, 0x0A, 0xFF, 0xFE]);
    assert_eq!(parse_ascii_frame(&text(&f)).unwrap(), vec![0x07, 0x03, 0x04, 0x00, 0x0A, 0xFF, 0xFE]);
}

#[test]
fn parse_ascii_frame_ignores_whitespace_noise_and_lowercase() {
    // Leading whitespace, text before ':' and a trailing record after the frame.
    assert_eq!(parse_ascii_frame("  \t noise:010300180004e0\r\nFLOW 12.5\r\n").unwrap(), vec![1, 3, 0, 0x18, 0, 4]);
}

#[test]
fn parse_ascii_frame_errors() {
    assert_eq!(parse_ascii_frame("010300"), Err(ModbusError::MissingStart));
    assert_eq!(parse_ascii_frame(":01030"), Err(ModbusError::OddHexLength { len: 5 }));
    assert_eq!(parse_ascii_frame(":0103"), Err(ModbusError::FrameTooShort { len: 2 }));
    assert_eq!(
        parse_ascii_frame(":010300180004E1\r\n"),
        Err(ModbusError::LrcMismatch { expected: 0xE0, got: 0xE1 })
    );
}

#[test]
fn parse_modbus_ascii_response_checks_start_and_length() {
    assert_eq!(parse_modbus_ascii_response("  :0103FC\r\n"), Ok(()));
    assert_eq!(parse_modbus_ascii_response(":0103FC"), Ok(()));
    assert_eq!(parse_modbus_ascii_response("0103FC"), Err(ModbusError::MissingStart));
    assert_eq!(parse_modbus_ascii_response("   "), Err(ModbusError::MissingStart));
    assert_eq!(parse_modbus_ascii_response(" :01 \n"), Err(ModbusError::MessageTooShort { len: 3 }));
}

#[test]
fn parse_registers_from_response() {
    // slave 1, function 3, 4 bytes: 0x1234 0xABCD
    let f = build_frame(0x01, 0x03, &[0x04, 0x12, 0x34, 0xAB, 0xCD]);
    assert_eq!(parse_read_holding_registers_response(&text(&f)).unwrap(), vec![0x1234, 0xABCD]);
}

#[test]
fn parse_registers_tolerates_wrong_even_byte_count() {
    let f = build_frame(0x01, 0x03, &[0x08, 0x00, 0x01, 0x00, 0x02]);
    assert_eq!(parse_read_holding_registers_response(&text(&f)).unwrap(), vec![1, 2]);
}

#[test]
fn parse_registers_errors() {
    let exc = build_frame(0x01, 0x83, &[0x02, 0x00, 0x00]);
    assert_eq!(
        parse_read_holding_registers_response(&text(&exc)),
        Err(ModbusError::ExceptionResponse { function: 0x83, code: 0x02 })
    );
    let other = build_frame(0x01, 0x04, &[0x02, 0x00, 0x01]);
    assert_eq!(
        parse_read_holding_registers_response(&text(&other)),
        Err(ModbusError::UnexpectedFunction { function: 0x04 })
    );
    let short = build_frame(0x01, 0x03, &[0x02]);
    assert_eq!(
        parse_read_holding_registers_response(&text(&short)),
        Err(ModbusError::ResponseTooShort { len: 3 })
    );
    let mismatch = build_frame(0x01, 0x03, &[0x04, 0x00, 0x01, 0x02]);
    assert_eq!(
        parse_read_holding_registers_response(&text(&mismatch)),
        Err(ModbusError::ByteCountMismatch { declared: 4, actual: 3 })
    );
    let odd = build_frame(0x01, 0x03, &[0x03, 0x00, 0x01, 0x02]);
    assert_eq!(
        parse_read_holding_registers_response(&text(&odd)),
        Err(ModbusError::OddPayload { len: 3 })
    );
    assert_eq!(parse_read_holding_registers_response("no frame"), Err(ModbusError::MissingStart));
}

#[test]
fn decode_u32_big_endian() {
    assert_eq!(decode_u32_be(&[0x0001, 0x86A0]), Ok(100_000));
    assert_eq!(decode_u32_be(&[0xFFFF, 0xFFFF, 7]), Ok(u32::MAX));
    assert_eq!(decode_u32_be(&[1]), Err(ModbusError::NotEnoughRegisters { needed: 2, found: 1 }));
}

#[test]
fn reception_stops_at_line_end_or_full_buffer() {
    assert_eq!(rx_progress(b":0103"), RxProgress::Incomplete);
    assert_eq!(rx_progress(b":0103\r"), RxProgress::FrameEnd);
    assert_eq!(rx_progress(b":0103\r\n"), RxProgress::FrameEnd);
    assert_eq!(rx_progress(b"\n"), RxProgress::FrameEnd);
    assert_eq!(rx_progress(b""), RxProgress::Incomplete);
    assert_eq!(rx_progress(&[b'A'; 512]), RxProgress::BufferFull);
    assert_eq!(rx_progress(&[b'A'; 511]), RxProgress::Incomplete);
}

#[test]
fn reception_idle_limit() {
    assert!(!rx_idle_expired(200_000_000, 5));
    assert!(rx_idle_expired(200_000_001, 5));
    assert!(!rx_idle_expired(900_000_000, 0));
}

#[test]
fn transmit_hold_time() {
    // 17 bytes at 9600 baud: 187000 / 9600 = 19 ms, plus 2 ms.
    assert_eq!(tx_hold_ms(17, 9600), 21);
    // Very fast line: at least 1 ms, plus 2 ms.
    assert_eq!(tx_hold_ms(1, 1_000_000), 3);
}

#[test]
fn lrc_makes_byte_sum_a_multiple_of_256() {
    for payload in [&[0x01u8, 0x03, 0x00, 0x18, 0x00, 0x04][..], &[0xFF; 7][..], &[0x12, 0x34][..]] {
        let sum: u32 = payload.iter().map(|b| *b as u32).sum::<u32>() + lrc_checksum(payload) as u32;
        assert_eq!(sum % 256, 0);
    }
}
