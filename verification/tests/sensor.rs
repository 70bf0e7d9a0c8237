use r503d::sensor::{
    expect_ok, find_port, is_sync_pong, parse_field, read_reply, sync_timeout, Drain, DrainRead,
    DrainStep, IoKind, LineStep, MatchResult, RxBuffer, SensorCommand, SensorError, SensorReply,
    MAX_LINE,
};

fn lines_of(rx: &mut RxBuffer) -> Vec<String> {
    let mut v = Vec::new();
    while let LineStep::Line(l) = rx.poll_line(0, 0) {
        v.push(l);
    }
    v
}

#[test]
fn lines_are_put_together_from_any_chunks() {
    let all = b"OK pong\r\nPROGRESS place_finger\n\n\rx\r\r\nrest";
    for cut in 0..all.len() {
        let mut rx = RxBuffer::new();
        rx.receive(&all[..cut]).unwrap();
        let mut got = lines_of(&mut rx);
        rx.receive(&all[cut..]).unwrap();
        got.extend(lines_of(&mut rx));
        assert_eq!(
            got,
            vec!["OK pong", "PROGRESS place_finger", "", "\rx\r"],
            "cut at {cut}"
        );
    }
}

#[test]
fn bytes_that_are_no_text_are_replaced() {
    let mut rx = RxBuffer::new();
    rx.receive(b"a\xffb\xc3\xa9\n").unwrap();
    assert_eq!(lines_of(&mut rx), vec!["a\u{fffd}b\u{e9}"]);
}

#[test]
fn waiting_for_a_line_ends_at_the_deadline() {
    let mut rx = RxBuffer::new();
    assert!(matches!(
        rx.poll_line(0, 1_000_000_000),
        LineStep::Wait(200_000_000)
    ));
    assert!(matches!(rx.poll_line(5, 12), LineStep::Wait(7)));
    assert!(matches!(rx.poll_line(12, 12), LineStep::Expired));
    rx.receive(b"late\n").unwrap();
    assert!(matches!(rx.poll_line(99, 12), LineStep::Line(l) if l == "late"));
    rx.receive(b"half").unwrap();
    rx.clear();
    rx.receive(b"\n").unwrap();
    assert!(matches!(rx.poll_line(0, 1), LineStep::Line(l) if l.is_empty()));
}

#[test]
fn an_endless_line_is_dropped() {
    let mut rx = RxBuffer::new();
    assert!(rx.receive(&[b'x'; MAX_LINE]).is_ok());
    assert!(matches!(
        rx.receive(b"x"),
        Err(SensorError::Protocol(s)) if s == "line exceeds 4096 bytes without a newline"
    ));
    rx.receive(b"ok\n").unwrap();
    assert_eq!(lines_of(&mut rx), vec!["ok"]);
    let mut long = vec![b'y'; MAX_LINE];
    long.push(b'\n');
    assert!(rx.receive(&long).is_ok());
    assert_eq!(lines_of(&mut rx)[0].len(), MAX_LINE);
}

#[test]
fn draining_ends_in_silence_after_bytes() {
    let mut d = Drain::new(8_000_000_000);
    assert!(d.wants_read(7_999_999_999));
    assert!(!d.wants_read(8_000_000_000));
    assert!(matches!(
        d.on_read(5_000_000_000, DrainRead::Silent),
        DrainStep::Again
    ));
    assert!(matches!(
        d.on_read(5_100_000_000, DrainRead::Bytes),
        DrainStep::Again
    ));
    assert!(matches!(
        d.on_read(5_200_000_000, DrainRead::Empty),
        DrainStep::Again
    ));
    assert!(matches!(
        d.on_read(5_400_000_000, DrainRead::Silent),
        DrainStep::Again
    ));
    assert!(matches!(
        d.on_read(5_400_000_001, DrainRead::Silent),
        DrainStep::Quiet
    ));
    assert!(matches!(
        d.on_read(0, DrainRead::Failed(SensorError::NoDevice)),
        DrainStep::Fail(SensorError::NoDevice)
    ));
    assert_eq!(d.pong_deadline(1_000_000_000), 3_000_000_000);
    assert_eq!(d.pong_deadline(7_000_000_000), 8_000_000_000);
}

#[test]
fn only_the_exact_pong_brings_into_step() {
    assert!(is_sync_pong("OK pong"));
    assert!(!is_sync_pong("OK pong "));
    assert_eq!(
        sync_timeout("8s").message(),
        "timed out waiting for response to: could not synchronize with firmware (no OK pong within 8s)"
    );
}

fn names(v: &[&str]) -> Vec<String> {
    v.iter().map(|s| s.to_string()).collect()
}

#[test]
fn ports_are_picked_in_order() {
    assert_eq!(
        find_port(&names(&["ttyUSB0", "ttyACM10", "ttyACM2", "tty", "null"])).unwrap(),
        "/dev/ttyACM10"
    );
    assert_eq!(
        find_port(&names(&["ttyUSB1", "ttyUSB0", "xttyACM0"])).unwrap(),
        "/dev/ttyUSB0"
    );
    assert!(matches!(
        find_port(&names(&["tty0", "sda"])),
        Err(SensorError::NoDevice)
    ));
    assert!(matches!(find_port(&Vec::new()), Err(SensorError::NoDevice)));
}

fn command_error(line: &str) -> (String, Option<String>) {
    match expect_ok(line) {
        Err(SensorError::Command { code, detail }) => (code, detail),
        other => panic!("{other:?}"),
    }
}

#[test]
fn final_lines_are_taken_apart() {
    assert_eq!(expect_ok("OK  match=1 \u{a0}").unwrap(), "match=1");
    assert_eq!(expect_ok("OK").unwrap(), "");
    assert_eq!(expect_ok("OKAY").unwrap(), "AY");
    assert_eq!(
        command_error("ERR no_match not found here"),
        ("no_match".to_string(), Some("not found here".to_string()))
    );
    assert_eq!(command_error("ERR timeout"), ("timeout".to_string(), None));
    assert_eq!(command_error("ERR"), ("unknown".to_string(), None));
    assert_eq!(
        command_error("ERR  x"),
        (String::new(), Some("x".to_string()))
    );
}

#[test]
fn numbers_are_read_from_fields() {
    assert_eq!(parse_field("a=1 b=22 a=3", "a", 255).unwrap(), 3);
    assert!(matches!(
        parse_field("a=1", "b", 255),
        Err(SensorError::Protocol(s)) if s == "missing b"
    ));
    assert!(matches!(
        parse_field("a=256", "a", 255),
        Err(SensorError::Protocol(s)) if s == "bad a"
    ));
    assert!(matches!(
        parse_field("a=1=2", "a", 255),
        Err(SensorError::Protocol(s)) if s == "bad a"
    ));
}

#[test]
fn commands_and_their_time() {
    let all = [
        (SensorCommand::Info, "info", 2_000),
        (SensorCommand::Count, "count", 2_000),
        (SensorCommand::Enroll(17), "enroll 17", 45_000),
        (SensorCommand::Verify, "verify", 15_000),
        (SensorCommand::Identify, "identify", 15_000),
        (SensorCommand::Delete(0), "delete 0", 2_000),
        (SensorCommand::Clear, "clear confirm", 3_000),
        (SensorCommand::Wake, "wake", 2_000),
        (SensorCommand::Ping, "ping", 2_000),
        (SensorCommand::LedOff, "led off", 2_000),
    ];
    for (c, line, ms) in all {
        assert_eq!(c.line(), line);
        assert_eq!(c.timeout_ms(), ms);
    }
}

#[test]
fn replies_mean_what_was_asked() {
    match read_reply(
        SensorCommand::Info,
        "OK fw=1.0 capacity=200 enrolled=x sysid=0 security=3",
    ) {
        Ok(SensorReply::Info(i)) => {
            assert_eq!(i.fw, "1.0");
            assert_eq!(i.capacity, 200);
            assert_eq!(i.enrolled, 0);
            assert_eq!(i.sysid, "0");
            assert_eq!(i.security, 3);
            assert_eq!(i.device_addr, "");
        }
        other => panic!("{other:?}"),
    }
    assert!(matches!(
        read_reply(SensorCommand::Count, "OK count=12"),
        Ok(SensorReply::Count(12))
    ));
    assert!(matches!(
        read_reply(SensorCommand::Enroll(5), "OK enrolled=5"),
        Ok(SensorReply::Slot(5))
    ));
    assert!(matches!(
        read_reply(SensorCommand::Delete(5), "OK deleted=5"),
        Ok(SensorReply::Slot(5))
    ));
    assert!(matches!(
        read_reply(SensorCommand::Verify, "OK match=0 confidence=168"),
        Ok(SensorReply::Match(MatchResult {
            slot: 0,
            confidence: 168
        }))
    ));
    assert!(matches!(
        read_reply(SensorCommand::Identify, "OK match=0"),
        Err(SensorError::Protocol(s)) if s == "missing confidence"
    ));
    assert!(matches!(
        read_reply(SensorCommand::Wake, "OK wake=1"),
        Ok(SensorReply::Flag(true))
    ));
    assert!(matches!(
        read_reply(SensorCommand::Wake, "OK wake=0"),
        Ok(SensorReply::Flag(false))
    ));
    assert!(matches!(
        read_reply(SensorCommand::Ping, "ERR x"),
        Ok(SensorReply::Flag(false))
    ));
    assert!(matches!(
        read_reply(SensorCommand::Ping, "OK pong!"),
        Ok(SensorReply::Flag(true))
    ));
    assert!(matches!(
        read_reply(SensorCommand::Clear, "OK cleared"),
        Ok(SensorReply::Done)
    ));
    assert!(matches!(
        read_reply(SensorCommand::LedOff, "ERR busy"),
        Err(SensorError::Command { code, detail: None }) if code == "busy"
    ));
}

#[test]
fn sensor_errors_in_words() {
    assert_eq!(
        SensorError::NoDevice.message(),
        "no R503 serial device at /dev/ttyACM* or /dev/ttyUSB*; is the Uno plugged in?"
    );
    assert_eq!(
        SensorError::OpenFailed {
            path: "/dev/x".to_string(),
            source: "busy".to_string()
        }
        .message(),
        "could not open /dev/x: busy"
    );
    assert_eq!(
        SensorError::Io {
            kind: IoKind::BrokenPipe,
            message: "gone".to_string()
        }
        .message(),
        "serial I/O error: gone"
    );
    assert_eq!(
        SensorError::Command {
            code: "x".to_string(),
            detail: Some("y z".to_string())
        }
        .message(),
        "firmware ERR x y z"
    );
    assert_eq!(
        SensorError::Command {
            code: "x".to_string(),
            detail: None
        }
        .message(),
        "firmware ERR x"
    );
    assert_eq!(
        SensorError::Protocol("bad a".to_string()).message(),
        "invalid response from firmware: bad a"
    );
}
