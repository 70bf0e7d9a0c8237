use r503d::dbus_iface::{
    classify_code, client_left, is_lift, read_scan, saved_status, validate_finger, CodeClass,
    Device, EnrollEnd, EnrollStart, EnrollStatus, EnrollTask, Manager, ScanOutcome, VerifyStatus,
    VerifyStep, VerifyTask,
};
use r503d::error::FprintError;
use r503d::sensor::{IoKind, MatchResult, SensorError};
use r503d::storage::{Storage, StorageError};

fn device() -> Device {
    let mut storage = Storage::open(200);
    storage.set_slot("mat", "right-thumb", 4);
    storage.set_slot("mat", "left-thumb", 6);
    Device::new(storage, 50)
}

fn claimed() -> Device {
    let mut d = device();
    d.state
        .claim("mat".to_string(), Some(":1.1".to_string()))
        .unwrap();
    d
}

fn verifying(d: &mut Device, finger: &str) -> VerifyTask {
    d.verify_start(Some(":1.1"), finger).unwrap()
}

fn enrolling(d: &mut Device, finger: &str) -> EnrollTask {
    match d.enroll_start(Some(":1.1"), finger).unwrap() {
        EnrollStart::Begin(t) => t,
        other => panic!("{other:?}"),
    }
}

fn lost() -> SensorError {
    SensorError::Io {
        kind: IoKind::BrokenPipe,
        message: "gone".to_string(),
    }
}

fn refused(code: &str) -> SensorError {
    SensorError::Command {
        code: code.to_string(),
        detail: None,
    }
}

#[test]
fn fingers_have_names() {
    for f in [
        "left-thumb",
        "left-index-finger",
        "left-middle-finger",
        "left-ring-finger",
        "left-little-finger",
        "right-thumb",
        "right-index-finger",
        "right-middle-finger",
        "right-ring-finger",
        "right-little-finger",
    ] {
        assert!(validate_finger(f, false).is_ok());
    }
    assert!(validate_finger("any", true).is_ok());
    assert!(matches!(
        validate_finger("any", false),
        Err(FprintError::InvalidFingername(f)) if f == "any"
    ));
    assert!(validate_finger("Left-thumb", true).is_err());
}

#[test]
fn a_claim_keeps_others_out() {
    let mut d = claimed();
    assert!(matches!(
        d.state.claim("ann".to_string(), Some(":1.2".to_string())),
        Err(FprintError::AlreadyInUse(s)) if s == "already claimed by mat"
    ));
    assert!(matches!(
        d.state.ensure_claim(Some(":1.2")),
        Err(FprintError::ClaimDevice(s)) if s == "device claimed by a different sender"
    ));
    assert_eq!(d.state.ensure_claim(Some(":1.1")).unwrap(), "mat");
    assert_eq!(d.state.ensure_claim(None).unwrap(), "mat");
    assert!(matches!(
        d.state.release(Some(":1.2")),
        Err(FprintError::ClaimDevice(s)) if s == "claimed by a different sender"
    ));
    d.state.release(Some(":1.1")).unwrap();
    assert!(matches!(
        d.state.release(Some(":1.1")),
        Err(FprintError::ClaimDevice(s)) if s == "device not claimed"
    ));
    assert!(matches!(
        d.state.ensure_claim(Some(":1.1")),
        Err(FprintError::ClaimDevice(s)) if s == "device not claimed"
    ));
}

#[test]
fn a_user_takes_over_their_own_idle_claim() {
    let mut d = claimed();
    d.state
        .claim("mat".to_string(), Some(":1.9".to_string()))
        .unwrap();
    assert!(d.state.ensure_claim(Some(":1.1")).is_err());
    d.verify_start(Some(":1.9"), "any").unwrap();
    assert!(matches!(
        d.state.claim("mat".to_string(), Some(":1.1".to_string())),
        Err(FprintError::AlreadyInUse(s)) if s == "verify in progress for mat"
    ));
}

#[test]
fn a_client_that_leaves_loses_its_claim() {
    let mut d = claimed();
    let t = verifying(&mut d, "any");
    d.state.handle_client_disconnect(":1.2");
    assert!(d.state.owns(t.token));
    d.state.handle_client_disconnect(":1.1");
    assert!(!d.state.owns(t.token));
    assert!(!d.state.finger_needed());
    d.state.claim("ann".to_string(), None).unwrap();
    assert!(client_left(":1.1", ":1.1", ""));
    assert!(!client_left("org.x", ":1.1", ""));
    assert!(!client_left(":1.1", "", ""));
    assert!(!client_left(":1.1", ":1.1", ":1.2"));
}

#[test]
fn verifying_takes_the_slots_of_the_claimer() {
    let mut d = claimed();
    let mut t = verifying(&mut d, "any");
    t.expected.sort();
    assert_eq!(t.expected, vec![4, 6]);
    assert_eq!(t.selected, "any");
    assert_eq!(t.threshold, 50);
    assert!(d.state.finger_needed());
    assert!(!d.state.finger_present());
    assert!(d.state.end_action_if_owner(t.token));
    let one = verifying(&mut d, "left-thumb");
    assert_eq!(one.expected, vec![6]);
    assert_ne!(one.token, t.token);
}

#[test]
fn verifying_is_refused_where_it_must_be() {
    let mut d = device();
    assert!(matches!(
        d.verify_start(None, "toe"),
        Err(FprintError::InvalidFingername(f)) if f == "toe"
    ));
    assert!(matches!(
        d.verify_start(None, "any"),
        Err(FprintError::ClaimDevice(_))
    ));
    let mut d = claimed();
    assert!(matches!(
        d.verify_start(None, "right-index-finger"),
        Err(FprintError::NoEnrolledPrints(s)) if s == "right-index-finger not enrolled for mat"
    ));
    verifying(&mut d, "any");
    assert!(matches!(
        d.verify_start(None, "any"),
        Err(FprintError::AlreadyInUse(s)) if s == "verify already in progress"
    ));
    assert!(matches!(
        d.enroll_start(None, "left-thumb"),
        Err(FprintError::AlreadyInUse(s)) if s == "verify already in progress"
    ));
    let mut e = device();
    e.state.claim("ann".to_string(), None).unwrap();
    assert!(matches!(
        e.verify_start(None, "any"),
        Err(FprintError::NoEnrolledPrints(s)) if s == "no enrolled prints for ann"
    ));
}

#[test]
fn an_attempt_without_prints_uses_up_an_epoch() {
    let mut d = claimed();
    assert!(d.verify_start(None, "right-index-finger").is_err());
    assert_eq!(verifying(&mut d, "any").token.epoch, 1);
}

#[test]
fn a_match_has_to_be_of_the_slot_and_good_enough() {
    let mut d = claimed();
    let mut t = verifying(&mut d, "right-thumb");
    let scan = |slot, confidence| ScanOutcome::Match(MatchResult { slot, confidence });
    assert_eq!(t.on_scan(scan(4, 50), 0), VerifyStep::Done(VerifyStatus::Match));
    assert_eq!(t.on_scan(scan(4, 49), 0), VerifyStep::Done(VerifyStatus::NoMatch));
    assert_eq!(t.on_scan(scan(6, 999), 0), VerifyStep::Done(VerifyStatus::NoMatch));
}

#[test]
fn bad_scans_are_repeated_five_times() {
    let mut d = claimed();
    let mut t = verifying(&mut d, "any");
    let bad = ScanOutcome::Refused(CodeClass::Retry);
    for _ in 0..4 {
        assert_eq!(t.on_scan(bad, 0), VerifyStep::Retry { pause_ms: 100 });
    }
    assert_eq!(
        t.on_scan(ScanOutcome::TimedOut, 30_000_000_000),
        VerifyStep::Retry { pause_ms: 0 }
    );
    assert_eq!(t.on_scan(bad, 0), VerifyStep::Done(VerifyStatus::NoMatch));
    let mut late = VerifyTask { retries: 0, ..t };
    assert_eq!(
        late.on_scan(bad, 30_000_000_001),
        VerifyStep::Done(VerifyStatus::NoMatch)
    );
}

#[test]
fn answers_to_a_scan_are_sorted_out() {
    assert_eq!(classify_code("no_match"), CodeClass::NoMatch);
    assert_eq!(classify_code("timeout"), CodeClass::Retry);
    assert_eq!(classify_code("poor_quality"), CodeClass::Retry);
    assert_eq!(classify_code("capture_failed=3"), CodeClass::Retry);
    assert_eq!(classify_code("image2tz_failed=7"), CodeClass::Retry);
    assert_eq!(classify_code("timeouts"), CodeClass::Other);
    let m = MatchResult {
        slot: 1,
        confidence: 2,
    };
    assert_eq!(read_scan(&Ok(m)), ScanOutcome::Match(m));
    assert_eq!(
        read_scan(&Err(refused("NO_MATCH"))),
        ScanOutcome::Refused(CodeClass::NoMatch)
    );
    assert_eq!(
        read_scan(&Err(refused("Capture_Failed=1"))),
        ScanOutcome::Refused(CodeClass::Retry)
    );
    assert_eq!(
        read_scan(&Err(SensorError::Timeout(String::new()))),
        ScanOutcome::TimedOut
    );
    assert_eq!(read_scan(&Err(lost())), ScanOutcome::Lost);
    assert_eq!(
        read_scan(&Err(SensorError::Protocol(String::new()))),
        ScanOutcome::Broken
    );
    let mut d = claimed();
    let mut t = verifying(&mut d, "any");
    assert_eq!(
        t.on_scan(ScanOutcome::Lost, 0),
        VerifyStep::Done(VerifyStatus::Disconnected)
    );
    assert_eq!(
        t.on_scan(ScanOutcome::Broken, 0),
        VerifyStep::Done(VerifyStatus::UnknownError)
    );
    assert_eq!(
        t.on_scan(ScanOutcome::Refused(CodeClass::Other), 0),
        VerifyStep::Done(VerifyStatus::UnknownError)
    );
    assert_eq!(
        t.on_scan(ScanOutcome::Refused(CodeClass::NoMatch), 0),
        VerifyStep::Done(VerifyStatus::NoMatch)
    );
}

#[test]
fn stopping_ends_only_the_right_action() {
    let mut d = claimed();
    assert!(matches!(
        d.state.verify_stop(None),
        Err(FprintError::NoActionInProgress(s)) if s == "no verify in progress"
    ));
    let t = verifying(&mut d, "any");
    assert!(matches!(
        d.state.enroll_stop(None),
        Err(FprintError::NoActionInProgress(s)) if s == "no enroll in progress"
    ));
    d.state.verify_stop(Some(":1.1")).unwrap();
    assert!(!d.state.finger_needed());
    assert!(!d.state.end_action_if_owner(t.token));
}

#[test]
fn a_stale_action_cannot_end_its_successor() {
    let mut d = claimed();
    let old = verifying(&mut d, "any");
    d.state.verify_stop(None).unwrap();
    let new = verifying(&mut d, "any");
    assert!(!d.state.end_action_if_owner(old.token));
    assert!(d.state.owns(new.token));
    assert!(d.state.finger_needed());
    assert!(d.state.end_action_if_owner(new.token));
}

#[test]
fn news_from_the_sensor_sets_the_hints() {
    let mut d = claimed();
    assert!(!d.state.on_progress("PLACE_FINGER now"));
    assert!(d.state.finger_needed() && !d.state.finger_present());
    assert!(d.state.on_progress("Remove Finger"));
    assert!(!d.state.finger_needed() && d.state.finger_present());
    assert!(!d.state.on_progress("place_again"));
    assert!(d.state.finger_needed());
    assert!(!d.state.on_progress("something else"));
    assert!(d.state.finger_needed());
    d.state.apply_hint("remove_finger");
    assert!(d.state.finger_present());
    assert!(is_lift("please remove_finger"));
    assert!(!is_lift("removefinger"));
}

#[test]
fn enrolling_reuses_a_fingers_own_slot() {
    let mut d = claimed();
    let t = enrolling(&mut d, "left-thumb");
    assert_eq!(t.slot, 6);
    assert_eq!(t.user, "mat");
    assert_eq!(d.enroll_done(&t, Ok(6)), EnrollEnd::Save);
    assert_eq!(d.storage.get_slot("mat", "left-thumb"), Some(6));
    let fresh = enrolling(&mut d, "right-index-finger");
    assert_eq!(fresh.slot, 0);
    assert_eq!(d.enroll_done(&fresh, Ok(0)), EnrollEnd::Save);
    assert_eq!(d.storage.get_slot("mat", "right-index-finger"), Some(0));
    assert_eq!(saved_status(true), EnrollStatus::Completed);
    assert_eq!(saved_status(false), EnrollStatus::Failed);
}

#[test]
fn enrolling_that_fails_registers_nothing() {
    let mut d = claimed();
    let t = enrolling(&mut d, "right-index-finger");
    assert_eq!(
        d.enroll_done(&t, Err(lost())),
        EnrollEnd::Emit(EnrollStatus::Disconnected)
    );
    let t = enrolling(&mut d, "right-index-finger");
    assert_eq!(
        d.enroll_done(&t, Err(refused("x"))),
        EnrollEnd::Emit(EnrollStatus::Failed)
    );
    let t = enrolling(&mut d, "right-index-finger");
    d.state.enroll_stop(None).unwrap();
    assert_eq!(d.enroll_done(&t, Ok(0)), EnrollEnd::Dropped);
    assert_eq!(d.storage.get_slot("mat", "right-index-finger"), None);
    assert!(matches!(
        d.enroll_start(None, "any"),
        Err(FprintError::InvalidFingername(_))
    ));
}

#[test]
fn a_full_sensor_takes_no_new_finger() {
    let mut storage = Storage::open(1);
    storage.set_slot("mat", "right-thumb", 0);
    let mut d = Device::new(storage, 50);
    d.state.claim("mat".to_string(), None).unwrap();
    match d.enroll_start(None, "left-thumb").unwrap() {
        EnrollStart::DataFull(token) => assert!(d.state.end_action_if_owner(token)),
        other => panic!("{other:?}"),
    }
    assert!(matches!(
        d.enroll_start(None, "right-thumb"),
        Ok(EnrollStart::Begin(t)) if t.slot == 0
    ));
}

#[test]
fn prints_are_listed_and_deleted() {
    let mut d = claimed();
    assert_eq!(
        d.list_enrolled_fingers("mat").unwrap(),
        vec!["left-thumb", "right-thumb"]
    );
    assert!(matches!(
        d.list_enrolled_fingers("ann"),
        Err(FprintError::NoEnrolledPrints(s)) if s == "no enrolled prints for ann"
    ));
    assert!(d.find_print(Some(":1.2"), "left-thumb").is_err());
    assert!(matches!(
        d.find_print(None, "right-index-finger"),
        Err(FprintError::NoEnrolledPrints(s)) if s == "right-index-finger not enrolled for mat"
    ));
    let (user, slot) = d.find_print(None, "left-thumb").unwrap();
    assert_eq!((user.as_str(), slot), ("mat", 6));
    assert!(matches!(
        d.print_deleted(&user, "left-thumb", slot, Err(refused("busy"))),
        Err(FprintError::PrintsNotDeleted(s))
            if s == "sensor delete failed for slot 6: firmware ERR busy"
    ));
    assert_eq!(d.storage.get_slot("mat", "left-thumb"), Some(6));
    d.print_deleted(&user, "left-thumb", slot, Ok(6)).unwrap();
    assert_eq!(d.storage.get_slot("mat", "left-thumb"), None);
}

#[test]
fn only_prints_that_are_gone_are_forgotten() {
    let mut d = claimed();
    let mut p = d.purge_start("mat");
    let mut kept = String::new();
    while let Some(slot) = p.next_slot() {
        if slot == 4 {
            kept = format!("right-thumb (slot {slot}): firmware ERR busy");
            p.on_deleted(Err(refused("busy")));
        } else {
            p.on_deleted(Ok(slot));
        }
    }
    while let Some(finger) = d.purge_forget(&mut p) {
        assert_eq!(finger, "left-thumb");
        p.on_unsaved(&finger, &StorageError::Io("full".to_string()));
    }
    assert_eq!(d.storage.get_slot("mat", "left-thumb"), None);
    assert_eq!(d.storage.get_slot("mat", "right-thumb"), Some(4));
    assert!(matches!(
        p.finish(),
        Err(FprintError::PrintsNotDeleted(s))
            if s == format!("partial delete: {kept}; left-thumb (registry write): storage I/O: full")
    ));
    let empty = d.purge_start("ann");
    assert!(empty.next_slot().is_none());
    assert!(empty.finish().is_ok());
}

#[test]
fn statuses_and_properties_have_their_words() {
    let d = device();
    assert_eq!(d.name(), "R503 fingerprint reader");
    assert_eq!(d.num_enroll_stages(), 2);
    assert_eq!(d.scan_type(), "press");
    assert_eq!(Manager.get_default_device(), "/net/reactivated/Fprint/Device/0");
    assert_eq!(Manager.get_devices(), vec!["/net/reactivated/Fprint/Device/0"]);
    assert_eq!(VerifyStatus::Match.as_str(), "verify-match");
    assert_eq!(VerifyStatus::NoMatch.as_str(), "verify-no-match");
    assert_eq!(VerifyStatus::RetryScan.as_str(), "verify-retry-scan");
    assert_eq!(VerifyStatus::Disconnected.as_str(), "verify-disconnected");
    assert_eq!(VerifyStatus::UnknownError.as_str(), "verify-unknown-error");
    assert_eq!(EnrollStatus::Completed.as_str(), "enroll-completed");
    assert_eq!(EnrollStatus::StagePassed.as_str(), "enroll-stage-passed");
    assert_eq!(EnrollStatus::Failed.as_str(), "enroll-failed");
    assert_eq!(EnrollStatus::Disconnected.as_str(), "enroll-disconnected");
    assert_eq!(EnrollStatus::DataFull.as_str(), "enroll-data-full");
}

#[test]
fn inner_errors_are_told_as_internal() {
    assert!(matches!(
        FprintError::from_sensor(&refused("x")),
        FprintError::Internal(s) if s == "firmware ERR x"
    ));
    assert!(matches!(
        FprintError::from_storage(&StorageError::NoFreeSlot(9)),
        FprintError::Internal(s) if s == "no free slots (capacity=9)"
    ));
}

#[test]
fn only_a_verification_that_goes_on_tells_its_status() {
    let mut d = claimed();
    let old = verifying(&mut d, "any");
    d.state.verify_stop(None).unwrap();
    let new = verifying(&mut d, "any");
    let matched = Some(VerifyStatus::Match);
    assert_eq!(d.state.verify_done(old.token, matched), None);
    assert!(d.state.owns(new.token));
    assert_eq!(d.state.verify_done(new.token, matched), matched);
    assert!(!d.state.owns(new.token) && !d.state.finger_needed());
    assert_eq!(d.state.verify_done(new.token, matched), None);
    let last = verifying(&mut d, "any");
    assert_eq!(d.state.verify_done(last.token, None), None);
    assert!(!d.state.owns(last.token));
}
