use r503d::files::{require_private, FileOp};
use r503d::state::{delete, load, save, State, STATE_PATH};

#[test]
fn fresh_starts_at_one() {
    assert_eq!(State::fresh().next_cmd_counter, 1);
}

#[test]
fn the_state_is_written_aside_and_renamed() {
    let ops = save(b"{}".to_vec());
    assert_eq!(ops.len(), 4);
    assert!(matches!(
        &ops[2],
        FileOp::WriteSync { path, mode: 0o600, data }
            if path == "/var/lib/r503d/state.json.tmp" && data == b"{}\n"
    ));
    assert!(matches!(
        &ops[3],
        FileOp::Rename { from, to }
            if from == "/var/lib/r503d/state.json.tmp" && to == STATE_PATH
    ));
    let gone = delete();
    assert_eq!(gone.len(), 1);
    assert!(matches!(&gone[0], FileOp::Remove(p) if p == STATE_PATH));
}

#[test]
fn a_state_that_others_can_touch_is_refused() {
    assert_eq!(require_private(0o100600, STATE_PATH), Ok(()));
    assert_eq!(
        require_private(0o100644, STATE_PATH),
        Err("insecure mode 644 on /var/lib/r503d/state.json (expected 0600)".to_string())
    );
    assert_eq!(
        require_private(0o100400, "users.json"),
        Err("insecure mode 400 on users.json (expected 0600)".to_string())
    );
    assert_eq!(
        require_private(0, "x"),
        Err("insecure mode 0 on x (expected 0600)".to_string())
    );
}

#[test]
fn only_a_private_state_is_loaded() {
    let kept = || State { next_cmd_counter: 7 };
    assert!(matches!(load(None), Ok(None)));
    assert!(matches!(
        load(Some((0o100600, Ok(kept())))),
        Ok(Some(s)) if s.next_cmd_counter == 7
    ));
    assert!(matches!(
        load(Some((0o100600, Err("parsing it".to_string())))),
        Err(e) if e == "parsing it"
    ));
    for read in [Ok(kept()), Err("parsing it".to_string())] {
        assert!(matches!(
            load(Some((0o100640, read))),
            Err(e) if e == "insecure mode 640 on /var/lib/r503d/state.json (expected 0600)"
        ));
    }
}

#[test]
fn a_saved_state_has_the_mode_that_loading_takes() {
    let mode = match &save(b"{}".to_vec())[2] {
        FileOp::WriteSync { mode, .. } => *mode,
        _ => panic!("the state is written by the third step"),
    };
    assert!(matches!(load(Some((mode, Ok(State::fresh())))), Ok(Some(_))));
}
