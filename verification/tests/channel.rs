use r503d::channel::{Awaiting, Channel, LineVerdict};
use r503d::framing::{encode_response, verify_command, COUNTER_CEILING};
use r503d::sensor::SensorError;
use r503d::state::State;

const K: [u8; 16] = [9u8; 16];

fn sent(channel: &mut Channel, cmd: &str) -> (String, Awaiting) {
    channel.begin(cmd).ok().unwrap().persisted()
}

fn rejected(v: LineVerdict) -> String {
    match v {
        LineVerdict::Rejected(SensorError::Command {
            code,
            detail: Some(d),
        }) if code == "framing_rejected" => d,
        other => panic!("{other:?}"),
    }
}

#[test]
fn without_a_key_everything_goes_in_the_clear() {
    let mut c = Channel::new(None, Some(State { next_cmd_counter: 5 }));
    let t = c.begin("info").ok().unwrap();
    assert!(t.to_persist().is_none());
    let (wire, mut a) = t.persisted();
    assert_eq!(wire, "info");
    assert!(matches!(a.on_line(""), LineVerdict::Ignore));
    assert!(matches!(a.on_line("PROGRESS place_finger"), LineVerdict::Progress(p) if p == "place_finger"));
    assert!(matches!(a.on_line("hello"), LineVerdict::Progress(p) if p == "[unhandled] hello"));
    assert!(matches!(a.on_line("OK x=1"), LineVerdict::Final(l) if l == "OK x=1"));
    assert!(matches!(a.on_line("ERR no"), LineVerdict::Final(l) if l == "ERR no"));
    assert!(matches!(a.expired(), SensorError::Timeout(s) if s == "info"));
}

#[test]
fn counters_go_up_and_are_saved_first() {
    let mut c = Channel::new(Some(K), None);
    for want in 1..4u64 {
        let t = c.begin("verify").ok().unwrap();
        assert_eq!(t.to_persist().unwrap().next_cmd_counter, want + 1);
        let (wire, _) = t.persisted();
        assert_eq!(verify_command(&K, &wire), Ok((want, "verify")));
    }
    let mut again = Channel::new(Some(K), Some(State { next_cmd_counter: 4 }));
    let (wire, _) = sent(&mut again, "verify");
    assert_eq!(verify_command(&K, &wire), Ok((4, "verify")));
}

#[test]
fn no_command_uses_a_counter_at_the_ceiling() {
    let mut c = Channel::new(
        Some(K),
        Some(State {
            next_cmd_counter: COUNTER_CEILING - 1,
        }),
    );
    assert!(c.begin("info").is_ok());
    assert!(matches!(
        c.begin("info"),
        Err(SensorError::Protocol(s)) if s.starts_with("v2 counter 18446744073709551614 is at/above")
    ));
}

#[test]
fn authentic_replies_are_taken_in_their_turn() {
    let mut c = Channel::new(Some(K), None);
    let (_, mut a) = sent(&mut c, "verify");
    let first = encode_response(&K, 1, 0, "PROGRESS place_finger");
    assert!(matches!(a.on_line(&first), LineVerdict::Progress(p) if p == "place_finger"));
    assert_eq!(rejected(a.on_line(&first)), "seq mismatch: got 0, want 1");
    let last = encode_response(&K, 1, 1, "OK match=0 confidence=168");
    assert!(matches!(a.on_line(&last), LineVerdict::Final(l) if l == "OK match=0 confidence=168"));
}

#[test]
fn forged_and_replayed_replies_are_turned_away() {
    let mut c = Channel::new(Some(K), None);
    let (_, _) = sent(&mut c, "verify");
    let (_, mut a) = sent(&mut c, "verify");
    assert_eq!(rejected(a.on_line("OK match=0 confidence=999")), "OK match=0 confidence=999");
    assert_eq!(rejected(a.on_line("ERR replay")), "ERR replay");
    let other_key = encode_response(&[8u8; 16], 2, 0, "OK match=0 confidence=999");
    assert_eq!(rejected(a.on_line(&other_key)), "mac mismatch");
    let earlier = encode_response(&K, 1, 0, "OK match=0 confidence=999");
    assert_eq!(rejected(a.on_line(&earlier)), "counter mismatch: got 1, want 2");
    assert_eq!(rejected(a.on_line("R x")), "frame too short (1 bytes)");
    assert!(matches!(a.on_line(""), LineVerdict::Ignore));
}
