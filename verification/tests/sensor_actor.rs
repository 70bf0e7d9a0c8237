use r503d::sensor::{IoKind, SensorCommand, SensorError, SensorReply};
use r503d::sensor_actor::{is_fatal_io, Service, ServiceStep};

fn io(kind: IoKind) -> SensorError {
    SensorError::Io {
        kind,
        message: "lost".to_string(),
    }
}

#[test]
fn a_lost_port_is_told_from_a_refusal() {
    for kind in [
        IoKind::BrokenPipe,
        IoKind::NotFound,
        IoKind::NotConnected,
        IoKind::UnexpectedEof,
        IoKind::PermissionDenied,
        IoKind::Other,
    ] {
        assert!(is_fatal_io(&io(kind)));
    }
    assert!(!is_fatal_io(&io(IoKind::TimedOut)));
    assert!(!is_fatal_io(&io(IoKind::Unlisted)));
    assert!(!is_fatal_io(&SensorError::NoDevice));
    assert!(!is_fatal_io(&SensorError::Timeout("x".to_string())));
}

#[test]
fn an_answer_is_handed_on() {
    let (mut s, step) = Service::start(SensorCommand::Verify, true);
    assert!(matches!(step, ServiceStep::Run));
    assert!(matches!(
        s.on_run(Ok(SensorReply::Done)),
        ServiceStep::Respond(Ok(SensorReply::Done))
    ));
    assert!(s.open);
}

#[test]
fn a_refusal_is_handed_on_and_the_port_stays_open() {
    let (mut s, _) = Service::start(SensorCommand::Verify, true);
    assert!(matches!(
        s.on_run(Err(SensorError::Timeout("verify".to_string()))),
        ServiceStep::Respond(Err(SensorError::Timeout(_)))
    ));
    assert!(s.open);
}

#[test]
fn a_lost_port_is_opened_anew_once() {
    let (mut s, _) = Service::start(SensorCommand::Verify, true);
    assert!(matches!(
        s.on_run(Err(io(IoKind::BrokenPipe))),
        ServiceStep::Open
    ));
    assert!(!s.open);
    assert!(matches!(s.on_open(Ok(())), ServiceStep::Run));
    assert!(s.open);
    match s.on_run(Err(io(IoKind::BrokenPipe))) {
        ServiceStep::Respond(Err(SensorError::Io { kind, message })) => {
            assert_eq!(kind, IoKind::NotConnected);
            assert_eq!(message, "serial I/O error: sensor failed twice in a row");
        }
        other => panic!("{other:?}"),
    }
    assert!(!s.open);
}

#[test]
fn opening_is_tried_four_times_with_longer_pauses() {
    let (mut s, step) = Service::start(SensorCommand::Delete(3), false);
    assert!(matches!(step, ServiceStep::Open));
    assert!(matches!(
        s.on_open(Err(SensorError::NoDevice)),
        ServiceStep::WaitThenOpen(150)
    ));
    assert!(matches!(
        s.on_open(Err(SensorError::NoDevice)),
        ServiceStep::WaitThenOpen(300)
    ));
    assert!(matches!(
        s.on_open(Err(SensorError::NoDevice)),
        ServiceStep::WaitThenOpen(600)
    ));
    match s.on_open(Err(SensorError::NoDevice)) {
        ServiceStep::Respond(Err(SensorError::Io { kind, message })) => {
            assert_eq!(kind, IoKind::NotConnected);
            assert!(message.starts_with("no R503 serial device"));
        }
        other => panic!("{other:?}"),
    }
}

#[test]
fn a_question_about_the_sensor_gets_the_error_itself() {
    let (mut s, _) = Service::start(SensorCommand::Info, false);
    for _ in 0..3 {
        s.on_open(Err(SensorError::NoDevice));
    }
    assert!(matches!(
        s.on_open(Err(SensorError::NoDevice)),
        ServiceStep::Respond(Err(SensorError::NoDevice))
    ));
}
