use r503d::framing;
use r503d::keystore;
use r503d::files::FileOp;
use r503d::pairing::{
    is_reply, parse_status, reseal_allowed, resync_allowed, resync_report, resync_target,
    run_reseal_tpm, run_resync, run_status, timeout_context, unpair_report, FirmwareStatus,
    FlowError, Handshake, HostFacts, KeyPlan, PairRequest, StatusError, UnpairProbe, UnpairRequest,
};
use r503d::state::State;

#[test]
fn resync_target_advances_below_ceiling() {
    assert_eq!(resync_target(0).unwrap(), 1);
    assert_eq!(resync_target(41).unwrap(), 42);
    assert_eq!(
        resync_target(framing::COUNTER_CEILING - 2).unwrap(),
        framing::COUNTER_CEILING - 1
    );
}

#[test]
fn resync_target_refuses_ceiling_band() {
    assert!(resync_target(u64::MAX).is_err());
    assert!(resync_target(framing::COUNTER_CEILING).is_err());
    assert!(resync_target(framing::COUNTER_CEILING - 1).is_err());
}

#[test]
fn timeout_context_uses_label_not_wire_bytes() {
    let key = keystore::generate_key().unwrap();
    let key_h = keystore::key_hex(&key);
    let wire = format!("pair {}", &*key_h);

    let msg = timeout_context("pair");

    assert_eq!(msg, "timeout reading reply to: pair");
    assert!(
        !msg.contains(&*key_h),
        "timeout error leaked the key hex: {msg}"
    );
    assert!(
        !msg.contains(&wire),
        "timeout error leaked the full pair command: {msg}"
    );
}

#[test]
fn timeout_context_redacts_unpair_frame() {
    let key = keystore::generate_key().unwrap();
    let frame = framing::encode_command(&key, 1, "unpair");

    let msg = timeout_context("unpair");

    assert_eq!(msg, "timeout reading reply to: unpair");
    assert!(
        !msg.contains(&frame),
        "timeout error leaked the framed unpair command: {msg}"
    );
    assert!(
        frame.len() < 8 || !msg.contains(&frame[frame.len() - 8..]),
        "timeout error leaked a MAC-tag suffix: {msg}"
    );
}

#[test]
fn non_secret_label_is_preserved_verbatim() {
    assert_eq!(
        timeout_context("status"),
        "timeout reading reply to: status"
    );
    assert_eq!(timeout_context("ping"), "timeout reading reply to: ping");
}

const UNPAIRED: &str = "OK paired=false counter=0 fmt=2 fw=1.0";
const PAIRED: &str = "OK paired=true counter=41 fmt=2 fw=1.0";

#[test]
fn status_lines_are_read() {
    let s = parse_status("OK fw=1.0\tfmt=2  counter=9 counter=41 paired=true x paired").unwrap();
    assert!(s.paired);
    assert_eq!(s.counter, 41);
    assert_eq!(s.fmt, 2);
    assert_eq!(s.fw, "1.0");
    assert!(!parse_status("OK paired=TRUE counter=0 fmt=0 fw=").unwrap().paired);
}

#[test]
fn every_status_error_has_an_input() {
    assert!(matches!(parse_status("OKpaired=true"), Err(StatusError::MissingOk(l)) if l == "OKpaired=true"));
    assert!(matches!(
        parse_status("OK counter=1 fmt=2 fw=1"),
        Err(StatusError::MissingPaired)
    ));
    assert!(matches!(
        parse_status("OK paired=true counter=18446744073709551616 fmt=2 fw=1"),
        Err(StatusError::MissingCounter)
    ));
    assert!(matches!(
        parse_status("OK paired=true counter=1 fmt=256 fw=1"),
        Err(StatusError::MissingFmt)
    ));
    assert!(matches!(
        parse_status("OK paired=true counter=1 fmt=2"),
        Err(StatusError::MissingFw)
    ));
    assert_eq!(
        StatusError::MissingOk("x".to_string()).message("\"x\""),
        "status reply missing OK: \"x\""
    );
    assert_eq!(
        StatusError::MissingPaired.message(""),
        "status missing paired"
    );
}

#[test]
fn replies_are_told_from_news() {
    assert!(is_reply("OK pong"));
    assert!(is_reply("PROGRESS"));
    assert!(!is_reply("PROGRESS place_finger"));
    assert!(!is_reply(""));
}

#[test]
fn a_handshake_pings_until_its_time_is_up() {
    let mut h = Handshake::new(0);
    assert!(h.ping(0));
    assert_eq!(h.remaining(300_000_000), Some(500_000_000));
    assert!(!h.on_line("R503FP READY"));
    assert_eq!(h.last_line(), Some("R503FP READY"));
    assert_eq!(h.remaining(800_000_000), None);
    assert!(h.ping(7_999_999_999));
    assert!(!h.ping(8_000_000_000));
    assert!(h.on_line("OK pong"));
}

#[test]
fn pairing_goes_step_by_step() {
    let key = [0x11u8; 16];
    let request = PairRequest::new(true, false, false).unwrap();
    let offer = request.probed(UNPAIRED).ok().unwrap();
    let (closing, gate) = offer.close_gate();
    assert!(matches!(&closing[..], [FileOp::Remove(p)] if p == "/etc/r503d/allow-pair"));
    let sent = gate.closed(key);
    assert_eq!(sent.wire(), "pair 11111111111111111111111111111111");
    assert_eq!(sent.label(), "pair");
    let paired = sent
        .replied("OK paired")
        .ok()
        .unwrap()
        .confirmed("OK paired=true counter=0 fmt=2 fw=1.0")
        .ok()
        .unwrap();
    assert_eq!(paired.key(), &key);
    match paired.key_plan(Some("junk")) {
        Ok(KeyPlan::Clear(ops)) => {
            assert!(matches!(
                &ops[2],
                FileOp::WriteSync { data, .. } if data == b"11111111111111111111111111111111\n"
            ));
            assert!(matches!(&ops[3], FileOp::Rename { to, .. } if to == keystore::KEY_PATH));
            assert!(matches!(&ops[4], FileOp::Copy { to, .. } if to == keystore::KEY_BAK_PATH));
        }
        other => panic!("{other:?}"),
    }
    assert_eq!(paired.state(), State { next_cmd_counter: 1 });
    assert_eq!(
        paired.report(None),
        vec![
            "paired: fw=1.0 fmt=2 counter=0",
            "host key written to /var/lib/r503d/key (mode 0600)",
            "backup written to /var/lib/r503d/key.bak (mode 0400)",
            "state initialized at /var/lib/r503d/state.json (next_cmd_counter=1)",
            "opt-in marker /etc/r503d/allow-pair closed before key send",
        ]
    );
}

#[test]
fn pairing_with_a_seal_chooses_its_pcrs() {
    let paired = PairRequest::new(true, true, true)
        .unwrap_or_else(|_| panic!("allowed"))
        .probed(UNPAIRED)
        .unwrap_or_else(|_| panic!("unpaired"))
        .close_gate()
        .1
        .closed([1; 16])
        .replied("OK paired")
        .unwrap_or_else(|_| panic!("taken"))
        .confirmed(PAIRED)
        .unwrap_or_else(|_| panic!("paired"));
    assert!(matches!(paired.key_plan(None), Ok(KeyPlan::Seal(v)) if v == vec![7]));
    assert!(matches!(paired.key_plan(Some("7,11")), Ok(KeyPlan::Seal(v)) if v == vec![7, 11]));
    assert!(matches!(paired.key_plan(Some("")), Err(FlowError::BadPcrs(_))));
    let report = paired.report(Some("7,11"));
    assert_eq!(
        report[1],
        "host key SEALED to TPM (PCRs 7,11); blob at /var/lib/r503d/key.tpm (mode 0600)"
    );
    assert_eq!(
        report[2],
        "plaintext key + .bak removed \u{2014} recovery via `sudo dist/reseal-tpm.sh --pcrs 7,11` if any bound PCR changes"
    );
}

#[test]
fn pairing_stops_where_it_must() {
    assert!(matches!(
        PairRequest::new(false, true, false),
        Err(FlowError::OptInMissing)
    ));
    assert!(matches!(
        PairRequest::new(true, true, false),
        Err(FlowError::NoTpm)
    ));
    let again = PairRequest::new(true, false, false).ok().unwrap();
    assert!(matches!(again.probed(PAIRED), Err(FlowError::AlreadyPaired)));
    let garbled = PairRequest::new(true, false, false).ok().unwrap();
    assert!(matches!(garbled.probed("ERR"), Err(FlowError::Status(_))));
    let refused = PairRequest::new(true, false, false)
        .ok()
        .unwrap()
        .probed(UNPAIRED)
        .ok()
        .unwrap()
        .close_gate()
        .1
        .closed([1; 16]);
    assert!(matches!(
        refused.replied("ERR already_paired"),
        Err(FlowError::RefusedPair(l)) if l == "ERR already_paired"
    ));
    let lost = PairRequest::new(true, false, false)
        .ok()
        .unwrap()
        .probed(UNPAIRED)
        .ok()
        .unwrap()
        .close_gate()
        .1
        .closed([1; 16])
        .replied("OK paired")
        .ok()
        .unwrap();
    assert!(matches!(lost.confirmed(UNPAIRED), Err(FlowError::NotCommitted)));
}

#[test]
fn resealing_needs_a_tpm_consent_and_a_wiped_board() {
    assert!(matches!(
        reseal_allowed(false, false),
        Err(FlowError::NoTpmToReseal)
    ));
    assert!(matches!(
        reseal_allowed(true, false),
        Err(FlowError::ResealOptInMissing)
    ));
    let request = || reseal_allowed(true, true).ok().unwrap();
    assert!(matches!(run_reseal_tpm(request(), PAIRED), Err(FlowError::NotWiped)));
    assert!(matches!(run_reseal_tpm(request(), "ERR"), Err(FlowError::Status(_))));
    let (keys, state) = run_reseal_tpm(request(), UNPAIRED).unwrap();
    assert_eq!((keys.len(), state.len()), (7, 1));
}

#[test]
fn resync_moves_the_counter_past_the_board() {
    assert!(matches!(resync_allowed(false), Err(FlowError::NoKeyToResync)));
    let request = || resync_allowed(true).ok().unwrap();
    let (state, last_seen) = run_resync(request(), PAIRED).unwrap();
    assert_eq!(state.next_cmd_counter, 42);
    assert_eq!(last_seen, 41);
    assert!(matches!(run_resync(request(), UNPAIRED), Err(FlowError::NothingToResync)));
    assert!(matches!(
        run_resync(request(), "OK paired=true counter=18446744073709551615 fmt=2 fw=1.0"),
        Err(FlowError::ResyncCeiling(u64::MAX))
    ));
    assert_eq!(
        resync_report(Some(State { next_cmd_counter: 7 }), state, last_seen),
        vec![
            "resynced: next_cmd_counter 7 \u{2192} 42 (Nano last_seen=41)",
            "state written to /var/lib/r503d/state.json",
            "restart the daemon to pick up the new counter: systemctl start r503d",
        ]
    );
    assert_eq!(
        resync_report(None, state, last_seen)[0],
        "resynced: next_cmd_counter set to 42 (state was missing; Nano last_seen=41)"
    );
}

fn ready(key: [u8; 16]) -> r503d::pairing::UnpairReady {
    match UnpairRequest::new(Some(key)).ok().unwrap().probed(PAIRED) {
        Ok(UnpairProbe::Proceed(r)) => r,
        _ => panic!("paired board"),
    }
}

#[test]
fn unpairing_goes_step_by_step() {
    let key = [3u8; 16];
    let ticket = ready(key)
        .ticket(Some(State { next_cmd_counter: 42 }))
        .ok()
        .unwrap();
    assert_eq!(ticket.to_persist().unwrap().next_cmd_counter, 43);
    let (wire, sent) = ticket.persisted();
    assert_eq!(framing::verify_command(&key, &wire), Ok((42, "unpair")));
    assert_eq!(sent.label(), "unpair");
    let reply = framing::encode_response(&key, 42, 0, "OK unpaired");
    let taken = sent.replied(&reply).ok().unwrap();
    let (board, forgetting) = taken.confirmed(UNPAIRED).ok().unwrap();
    assert_eq!(
        unpair_report(&board),
        vec![
            "unpaired. fw=1.0 fmt=2 counter=0",
            "host key + state files removed (plaintext + sealed).",
        ]
    );
    assert_eq!(
        removed(&forgetting),
        vec![
            "/var/lib/r503d/key",
            "/var/lib/r503d/key.bak",
            "/var/lib/r503d/key.tpm",
            "/var/lib/r503d/state.json",
        ]
    );
}

#[test]
fn unpairing_without_a_saved_state_starts_at_one() {
    let (wire, _) = ready([3u8; 16]).ticket(None).ok().unwrap().persisted();
    assert!(wire.starts_with("C 1 unpair M "));
}

#[test]
fn unpairing_stops_where_it_must() {
    let key = [3u8; 16];
    assert!(matches!(
        UnpairRequest::new(None),
        Err(FlowError::NoKeyToUnpair)
    ));
    assert!(matches!(
        UnpairRequest::new(Some(key)).ok().unwrap().probed(UNPAIRED),
        Ok(UnpairProbe::AlreadyUnpaired(ops))
            if removed(&ops) == vec!["/var/lib/r503d/key", "/var/lib/r503d/key.bak"]
    ));
    assert!(matches!(
        ready(key).ticket(Some(State {
            next_cmd_counter: framing::COUNTER_CEILING
        })),
        Err(FlowError::CounterCeiling(framing::COUNTER_CEILING))
    ));
    let sent = || ready(key).ticket(None).ok().unwrap().persisted().1;
    assert!(matches!(
        sent().replied("ERR mac_invalid"),
        Err(FlowError::UnframedReply(l)) if l == "ERR mac_invalid"
    ));
    assert!(matches!(
        sent().replied(&framing::encode_response(&[4u8; 16], 1, 0, "OK unpaired")),
        Err(FlowError::BadResponse { error: framing::FramingError::MacMismatch, .. })
    ));
    assert!(matches!(
        sent().replied(&framing::encode_response(&key, 2, 0, "OK unpaired")),
        Err(FlowError::WrongCounter { got: 2, want: 1 })
    ));
    assert!(matches!(
        sent().replied(&framing::encode_response(&key, 1, 0, "ERR no")),
        Err(FlowError::RefusedUnpair(b)) if b == "ERR no"
    ));
    let taken = sent()
        .replied(&framing::encode_response(&key, 1, 0, "OK unpaired"))
        .ok()
        .unwrap();
    assert!(matches!(taken.confirmed(PAIRED), Err(FlowError::StillPaired)));
}

#[test]
fn flow_errors_in_words() {
    assert_eq!(
        FlowError::RefusedPair("ERR x".to_string()).message("\"ERR x\""),
        "Nano refused pair: \"ERR x\""
    );
    assert_eq!(
        FlowError::BadResponse {
            error: framing::FramingError::TooShort(6),
            line: "R x".to_string()
        }
        .message("\"R x\""),
        "response framing: TooShort(6) (line: \"R x\")"
    );
    assert_eq!(
        FlowError::BadResponse {
            error: framing::FramingError::WrongLeader { expected: 'R' },
            line: String::new()
        }
        .message("\"\""),
        "response framing: WrongLeader { expected: 'R' } (line: \"\")"
    );
    assert_eq!(
        FlowError::WrongCounter { got: 2, want: 1 }.message(""),
        "unpair response counter mismatch: got 2, want 1"
    );
    assert_eq!(
        FlowError::NoTpm.message(""),
        "--seal-tpm requested but /dev/tpmrm0 not present on this host"
    );
    assert_eq!(
        FlowError::CounterCeiling(5).message(""),
        "v2 counter 5 is at/above the reserved ceiling; reflash-to-wipe (firmware/r503fp_wipe) + re-pair to reset"
    );
    assert!(FlowError::NoKeyToUnpair.message("").starts_with(
        "no host key at /var/lib/r503d/key.tpm / /var/lib/r503d/key / /var/lib/r503d/key.bak; "
    ));
    assert!(FlowError::OptInMissing
        .message("")
        .starts_with("host opt-in missing: create /etc/r503d/allow-pair to authorize pairing\n"));
}

fn board(paired: bool) -> FirmwareStatus {
    FirmwareStatus {
        paired,
        counter: 41,
        fmt: 2,
        fw: "1.0".to_string(),
    }
}

const NOTHING: HostFacts = HostFacts {
    key: false,
    backup: false,
    sealed: false,
    tpm_device: false,
    allow_pair: false,
    state: false,
};

#[test]
fn the_status_report_shows_both_sides() {
    let host = HostFacts {
        key: true,
        backup: true,
        state: true,
        allow_pair: true,
        ..NOTHING
    };
    assert_eq!(
        run_status("/dev/r503", &board(true), host),
        vec![
            "port:             /dev/r503",
            "firmware:         fw=1.0 fmt=2",
            "firmware paired:  true",
            "firmware counter: 41",
            "host key.tpm:     (absent)",
            "host key:         /var/lib/r503d/key",
            "host key.bak:     /var/lib/r503d/key.bak",
            "tpm device:       (absent)",
            "allow-pair:       /etc/r503d/allow-pair",
        ]
    );
}

#[test]
fn the_status_report_warns() {
    let lines = run_status("p", &board(true), NOTHING);
    assert_eq!(lines.len(), 10);
    assert_eq!(
        lines[9],
        "\nWARNING: firmware paired but no host key. Re-pair or reflash-to-wipe."
    );
    let stale = HostFacts { key: true, ..NOTHING };
    assert!(run_status("p", &board(false), stale)[9]
        .starts_with("\nWARNING: host key present but firmware unpaired."));
    let lost = run_status("p", &board(true), stale);
    assert_eq!(lost.len(), 10);
    assert!(lost[9].starts_with(
        "\nNOTE: paired with a host key but /var/lib/r503d/state.json is missing"
    ));
    let both = HostFacts {
        key: true,
        sealed: true,
        state: true,
        ..NOTHING
    };
    assert!(run_status("p", &board(true), both)[9]
        .starts_with("\nWARNING: both sealed and plaintext key files present."));
    assert_eq!(run_status("p", &board(false), NOTHING).len(), 9);
}

fn removed(ops: &[FileOp]) -> Vec<&str> {
    ops.iter()
        .filter_map(|op| match op {
            FileOp::Remove(path) => Some(path.as_str()),
            _ => None,
        })
        .collect()
}

#[test]
fn unpairing_takes_only_the_first_line_of_the_answer() {
    let key = [3u8; 16];
    for seq in [1u32, 7, u32::MAX] {
        let (_, sent) = ready(key)
            .ticket(Some(State { next_cmd_counter: 42 }))
            .ok()
            .unwrap()
            .persisted();
        let reply = framing::encode_response(&key, 42, seq, "OK unpaired");
        let e = sent.replied(&reply).err().unwrap();
        assert!(matches!(e, FlowError::WrongSeq { got, want: 0 } if got == seq));
        assert_eq!(
            e.message(""),
            format!("unpair response seq mismatch: got {seq}, want 0")
        );
    }
}
