use r503d::crypto;
use r503d::framing::{
    encode_command, encode_response, parse_command, parse_mac_hex, parse_response, verify_command,
    verify_response, FramingError, MAC_HEX_LEN,
};

const K: [u8; 16] = [
    0x00, 0x01, 0x02, 0x03, 0x04, 0x05, 0x06, 0x07, 0x08, 0x09, 0x0a, 0x0b, 0x0c, 0x0d, 0x0e, 0x0f,
];

#[test]
fn command_round_trip() {
    let frame = encode_command(&K, 42, "verify 0");
    assert!(frame.starts_with("C 42 verify 0 M "));
    assert_eq!(frame.len(), "C 42 verify 0 M ".len() + MAC_HEX_LEN);
    let (ctr, cmd) = verify_command(&K, &frame).unwrap();
    assert_eq!(ctr, 42);
    assert_eq!(cmd, "verify 0");
}

#[test]
fn response_round_trip() {
    let frame = encode_response(&K, 42, 0, "PROGRESS place_finger");
    assert!(frame.starts_with("R 42 0 PROGRESS place_finger M "));
    let (ctr, seq, body) = verify_response(&K, &frame).unwrap();
    assert_eq!(ctr, 42);
    assert_eq!(seq, 0);
    assert_eq!(body, "PROGRESS place_finger");
}

#[test]
fn response_with_multiple_spaces_in_body() {
    let frame = encode_response(&K, 7, 3, "OK match=0 confidence=168");
    let (_, _, body) = verify_response(&K, &frame).unwrap();
    assert_eq!(body, "OK match=0 confidence=168");
}

#[test]
fn wrong_key_fails_verify() {
    let frame = encode_command(&K, 1, "ping");
    let mut bad = K;
    bad[0] ^= 0x01;
    assert_eq!(
        verify_command(&bad, &frame).unwrap_err(),
        FramingError::MacMismatch
    );
}

#[test]
fn tampered_body_fails_verify() {
    let frame = encode_command(&K, 1, "verify 0");
    let tampered = frame.replace("verify 0", "verify 1");
    assert_eq!(
        verify_command(&K, &tampered).unwrap_err(),
        FramingError::MacMismatch
    );
}

#[test]
fn tampered_counter_fails_verify() {
    let frame = encode_command(&K, 100, "verify 0");
    let tampered = frame.replacen("100", "101", 1);
    assert_eq!(
        verify_command(&K, &tampered).unwrap_err(),
        FramingError::MacMismatch
    );
}

#[test]
fn tampered_mac_fails_verify() {
    let mut frame = encode_command(&K, 1, "ping");
    frame.pop();
    frame.push('0');
    assert_eq!(
        verify_command(&K, &frame).unwrap_err(),
        FramingError::MacMismatch
    );
}

#[test]
fn missing_suffix_rejected() {
    assert_eq!(
        verify_command(&K, "C 1 ping").unwrap_err(),
        FramingError::TooShort(6)
    );
}

#[test]
fn wrong_leader_rejected() {
    assert!(matches!(
        verify_command(&K, "X 1 ping M 0123456789abcdef"),
        Err(FramingError::WrongLeader { .. })
    ));
}

#[test]
fn cmd_frame_not_accepted_as_response() {
    let frame = encode_command(&K, 1, "ping");
    assert!(matches!(
        verify_response(&K, &frame),
        Err(FramingError::WrongLeader { .. })
    ));
}

#[test]
fn domain_separation_holds() {
    // The same text between the leader and the MAC in both directions.
    let cmd_frame = encode_command(&K, 5, "0 hello");
    let resp_frame = encode_response(&K, 5, 0, "hello");
    let cmd_mac = &cmd_frame[cmd_frame.len() - MAC_HEX_LEN..];
    let resp_mac = &resp_frame[resp_frame.len() - MAC_HEX_LEN..];
    assert_ne!(cmd_mac, resp_mac, "domain separation broken");
}

#[test]
fn known_mac_input_format() {
    let frame = encode_command(&K, 42, "verify 0");
    let expected_input = "CMD 42 verify 0";
    let expected_mac = crypto::siphash24(&K, expected_input.as_bytes());
    let mac_hex = &frame[frame.len() - MAC_HEX_LEN..];
    assert_eq!(mac_hex, crypto::mac_to_hex(expected_mac));
}

#[test]
fn response_mac_covers_counter_seq_and_body() {
    let frame = encode_response(&K, 42, 7, "OK pong");
    let mac = crypto::siphash24(&K, b"RSP 42 7 OK pong");
    assert_eq!(frame, format!("R 42 7 OK pong M {}", crypto::mac_to_hex(mac)));
}

#[test]
fn every_framing_error_has_an_input() {
    assert_eq!(
        parse_response("C 1 x M 0123456789abcdef"),
        Err(FramingError::WrongLeader { expected: 'R' })
    );
    assert_eq!(parse_command("C short"), Err(FramingError::TooShort(5)));
    assert_eq!(
        parse_command("C 1 ping X 0123456789abcdef"),
        Err(FramingError::MissingMacSuffix)
    );
    assert_eq!(
        parse_command("C 1 ping M 0123456789abcdeg"),
        Err(FramingError::InvalidMac)
    );
    assert_eq!(
        parse_command("C nospace M 0123456789abcdef"),
        Err(FramingError::TooShort(7))
    );
    assert_eq!(
        parse_command("C one ping M 0123456789abcdef"),
        Err(FramingError::InvalidCounter)
    );
    assert_eq!(
        parse_command("C 18446744073709551616 ping M 0123456789abcdef"),
        Err(FramingError::InvalidCounter)
    );
    assert_eq!(
        parse_response("R 1 2 M 0123456789abcdef"),
        Err(FramingError::TooShort(1))
    );
    assert_eq!(
        parse_response("R 1 4294967296 x M 0123456789abcdef"),
        Err(FramingError::InvalidSeq)
    );
    assert_eq!(
        verify_response(&K, "R 1 0 x M 0123456789abcdef"),
        Err(FramingError::MacMismatch)
    );
}

#[test]
fn parsing_takes_what_the_grammar_allows() {
    assert_eq!(
        parse_command("C +007  two  spaces M 0123456789ABCDEF"),
        Ok((7, " two  spaces", 0xefcd_ab89_6745_2301))
    );
    assert_eq!(
        parse_response("R 18446744073709551615 4294967295  M 0000000000000000"),
        Ok((u64::MAX, u32::MAX, "", 0))
    );
}

#[test]
fn text_beyond_ascii_is_framed_and_counted_in_bytes() {
    let frame = encode_command(&K, 3, "gr\u{fc}\u{df} \u{1f44d}");
    assert_eq!(verify_command(&K, &frame), Ok((3, "gr\u{fc}\u{df} \u{1f44d}")));
    assert_eq!(
        parse_command("C \u{e9}\u{e9}"),
        Err(FramingError::TooShort(4))
    );
    // The place where the suffix would start lies inside a character.
    assert_eq!(
        parse_command("C 1 \u{e9}M 0123456789abcdef"),
        Err(FramingError::MissingMacSuffix)
    );
}

#[test]
fn framing_errors_in_words() {
    assert_eq!(
        FramingError::TooShort(6).message(),
        "frame too short (6 bytes)"
    );
    assert_eq!(
        FramingError::WrongLeader { expected: 'R' }.message(),
        "missing leading `R `"
    );
    assert_eq!(
        FramingError::MissingMacSuffix.message(),
        "missing ` M <mac>` suffix"
    );
    assert_eq!(FramingError::InvalidMac.message(), "invalid mac hex");
    assert_eq!(FramingError::InvalidCounter.message(), "invalid counter");
    assert_eq!(FramingError::InvalidSeq.message(), "invalid seq");
    assert_eq!(FramingError::MacMismatch.message(), "mac mismatch");
}

#[test]
fn a_mac_is_read_in_either_case() {
    let frame = encode_command(&K, 42, "verify 0");
    let at = frame.len() - MAC_HEX_LEN;
    let shouted = format!("{}{}", &frame[..at], frame[at..].to_uppercase());
    assert_ne!(shouted, frame);
    assert_eq!(parse_command(&shouted), parse_command(&frame));
    assert_eq!(verify_command(&K, &shouted), Ok((42, "verify 0")));
}

#[test]
fn macs_read_back_from_their_text() {
    for mac in [0u64, 1, 0x0123_4567_89ab_cdef, u64::MAX] {
        let text = crypto::mac_to_hex(mac);
        assert_eq!(parse_mac_hex(&text), Ok(mac));
        assert_eq!(parse_mac_hex(&text.to_uppercase()), Ok(mac));
        assert_eq!(parse_mac_hex(&text[1..]), Err(FramingError::InvalidMac));
        assert_eq!(parse_mac_hex(&format!("g{}", &text[1..])), Err(FramingError::InvalidMac));
    }
    assert_eq!(parse_mac_hex("0100000000000000"), Ok(1));
    assert_eq!(parse_mac_hex("\u{e9}00000000000000"), Err(FramingError::InvalidMac));
}
