use r503d::auth::{
    authorize_username, check_sender, resolve_caller, sender_unless, standing, validate_username,
    Caller, Standing,
};
use r503d::error::FprintError;

#[test]
fn accepts_real_usernames() {
    for ok in ["mat", "root", "john.doe", "svc-r503", "_systemd", "user1", "a"] {
        assert!(validate_username(ok).is_ok(), "should accept {ok:?}");
    }
}

#[test]
fn rejects_unsafe_usernames() {
    for bad in [
        "",
        ".",
        "..",
        "../etc/shadow",
        "a/b",
        "a\\b",
        "a\nb",
        "a\0b",
        "\x07evil",
    ] {
        assert!(validate_username(bad).is_err(), "should reject {bad:?}");
    }
}

#[test]
fn usernames_beyond_ascii_are_let_through() {
    assert!(validate_username("j\u{f6}rg").is_ok());
    assert!(validate_username("a\x7fb").is_err());
    assert!(validate_username("...").is_ok());
}

#[test]
fn senders_have_to_be_bus_names() {
    assert!(matches!(check_sender(Some(":1.5")), Ok(":1.5")));
    assert!(matches!(check_sender(Some("org.example.App")), Ok("org.example.App")));
    assert!(matches!(
        check_sender(Some("no-dots")),
        Err(FprintError::Internal(s)) if s.starts_with("invalid sender no-dots: ")
    ));
    assert!(matches!(
        sender_unless(Some("x"), Some("bad".to_string())),
        Err(FprintError::Internal(s)) if s == "invalid sender x: bad"
    ));
    assert!(matches!(sender_unless(Some("x"), None), Ok("x")));
}

#[test]
fn what_is_no_bus_name_is_told_in_the_same_words() {
    let told = |name: &str| match check_sender(Some(name)) {
        Err(FprintError::Internal(s)) => s[format!("invalid sender {name}: ").len()..].to_string(),
        _ => panic!("{name:?} is no bus name"),
    };
    let long = format!("a.{}", "b".repeat(254));
    assert!(told("no-dots").starts_with("Invalid bus name. See "));
    for bad in ["", "a", ":1", "a..b", "a.1b", "a.b c", long.as_str()] {
        assert_eq!(told(bad), told("no-dots"));
    }
    assert!(check_sender(Some(&long[..255])).is_ok());
}

fn caller(uid: u32, user: &str) -> Caller {
    Caller {
        uid,
        user: user.to_string(),
    }
}

#[test]
fn callers_are_resolved_or_refused() {
    assert!(matches!(check_sender(Some(":1.5")), Ok(":1.5")));
    assert!(matches!(check_sender(None), Err(FprintError::Internal(s)) if s == "missing sender"));
    assert!(matches!(
        resolve_caller(1000, None),
        Err(FprintError::Internal(s)) if s == "uid 1000 not in passwd"
    ));
    assert!(matches!(
        resolve_caller(1000, Some("../x".to_string())),
        Err(FprintError::Internal(s)) if s == "unsafe username"
    ));
    let c = resolve_caller(1000, Some("mat".to_string())).unwrap();
    assert_eq!((c.uid, c.user.as_str()), (1000, "mat"));
}

#[test]
fn everyone_is_themselves_and_root_is_anyone() {
    let mat = caller(1000, "mat");
    let root = caller(0, "root");
    for polkit in [false, true] {
        assert!(matches!(authorize_username(&mat, "", polkit), Ok(u) if u == "mat"));
        assert!(matches!(authorize_username(&mat, "mat", polkit), Ok(u) if u == "mat"));
        assert!(matches!(authorize_username(&root, "", polkit), Ok(u) if u == "root"));
        assert!(matches!(authorize_username(&root, "mat", polkit), Ok(u) if u == "mat"));
    }
    assert!(matches!(standing(&mat, "mat"), Standing::Allowed(_)));
}

#[test]
fn others_need_polkit() {
    let mat = caller(1000, "mat");
    assert!(matches!(standing(&mat, "root"), Standing::AskPolkit));
    assert!(matches!(authorize_username(&mat, "root", true), Ok(u) if u == "root"));
    assert!(matches!(
        authorize_username(&mat, "root", false),
        Err(FprintError::PermissionDenied(s)) if s == "uid 1000 not authorized to act as user root"
    ));
}

#[test]
fn names_on_the_bus_have_their_shape() {
    let long = format!("a.{}", "b".repeat(253));
    for name in [
        ":1.5", ":org.x", "org.freedesktop.DBus", "a.b", "_a.-b", "a9.b9", long.as_str(),
    ] {
        assert!(matches!(check_sender(Some(name)), Ok(n) if n == name), "{name}");
    }
    let longer = format!("{long}b");
    for name in [
        "", ".", ":", "a", ":a", "a..b", ".a.b", "a.b.", "1.5", "a.5", ":1..5", "a b.c", "\u{e9}.b",
        "::1.5", longer.as_str(),
    ] {
        assert!(check_sender(Some(name)).is_err(), "{name}");
    }
}
