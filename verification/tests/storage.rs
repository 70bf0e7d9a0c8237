use r503d::storage::{default_storage_path, Storage, StorageError};

fn pair(f: &str, s: u8) -> (String, u8) {
    (f.to_string(), s)
}

#[test]
fn a_finger_is_found_where_it_was_put() {
    let mut s = Storage::open(200);
    s.set_slot("mat", "right-thumb", 4);
    s.set_slot("mat", "left-thumb", 2);
    s.set_slot("ann", "right-thumb", 7);
    assert_eq!(s.get_slot("mat", "right-thumb"), Some(4));
    assert_eq!(s.get_slot("mat", "left-thumb"), Some(2));
    assert_eq!(s.get_slot("ann", "right-thumb"), Some(7));
    assert_eq!(s.get_slot("ann", "left-thumb"), None);
    s.set_slot("mat", "right-thumb", 9);
    assert_eq!(s.get_slot("mat", "right-thumb"), Some(9));
    assert_eq!(s.get_slot("ann", "right-thumb"), Some(7));
}

#[test]
fn fingers_are_listed_in_order() {
    let mut s = Storage::open(200);
    s.set_slot("mat", "right-thumb", 4);
    s.set_slot("mat", "left-thumb", 2);
    s.set_slot("mat", "left-index-finger", 3);
    assert_eq!(
        s.list_fingers("mat"),
        vec!["left-index-finger", "left-thumb", "right-thumb"]
    );
    assert!(s.list_fingers("nobody").is_empty());
    let mut slots = s.get_user_slots("mat");
    slots.sort();
    assert_eq!(
        slots,
        vec![
            pair("left-index-finger", 3),
            pair("left-thumb", 2),
            pair("right-thumb", 4)
        ]
    );
}

#[test]
fn the_lowest_free_slot_is_handed_out() {
    let mut s = Storage::open(3);
    assert_eq!(s.allocate_slot().unwrap(), 0);
    s.set_slot("a", "right-thumb", 0);
    s.set_slot("b", "right-thumb", 2);
    assert_eq!(s.allocate_slot().unwrap(), 1);
    s.set_slot("a", "left-thumb", 1);
    assert!(matches!(s.allocate_slot(), Err(StorageError::NoFreeSlot(3))));
    assert_eq!(s.remove_finger("b", "right-thumb"), Some(2));
    assert_eq!(s.allocate_slot().unwrap(), 2);
}

#[test]
fn slots_are_numbered_by_one_byte() {
    let mut s = Storage::open(1000);
    for slot in 0..=255u8 {
        s.set_slot("u", &format!("f{slot}"), slot);
    }
    let e = s.allocate_slot().unwrap_err();
    assert_eq!(e.message(), "no free slots (capacity=1000)");
    assert!(matches!(
        Storage::open(0).allocate_slot(),
        Err(StorageError::NoFreeSlot(0))
    ));
}

#[test]
fn a_user_without_fingers_is_forgotten() {
    let mut s = Storage::open(200);
    s.set_slot("mat", "right-thumb", 4);
    s.set_slot("mat", "left-thumb", 5);
    assert_eq!(s.remove_finger("mat", "no-such"), None);
    assert_eq!(s.remove_finger("mat", "right-thumb"), Some(4));
    assert_eq!(s.entries().len(), 1);
    assert_eq!(s.remove_finger("mat", "left-thumb"), Some(5));
    assert!(s.entries().is_empty());
    assert_eq!(s.remove_finger("mat", "left-thumb"), None);
}

#[test]
fn what_was_loaded_is_there_last_one_counting() {
    let mut s = Storage::open(200);
    s.load_user("mat", vec![pair("a", 1), pair("b", 2), pair("a", 3)]);
    s.load_user("empty", vec![]);
    assert_eq!(s.get_slot("mat", "a"), Some(3));
    assert_eq!(s.get_slot("mat", "b"), Some(2));
    assert_eq!(s.entries().len(), 2);
    assert_eq!(s.remove_finger("empty", "a"), None);
    assert_eq!(s.entries().len(), 1);
    s.load_user("mat", vec![pair("c", 9)]);
    assert_eq!(s.list_fingers("mat"), vec!["c"]);
}

#[test]
fn storage_errors_in_words() {
    assert_eq!(
        StorageError::Io("disk full".to_string()).message(),
        "storage I/O: disk full"
    );
    assert_eq!(
        StorageError::Parse("eof".to_string()).message(),
        "storage parse: eof"
    );
}

#[test]
fn the_registry_has_a_place_of_its_own() {
    assert_eq!(
        default_storage_path(false, Some("/x"), Some("/home/mat")),
        "/var/lib/r503d/users.json"
    );
    assert_eq!(
        default_storage_path(true, Some("/x"), Some("/home/mat")),
        "/x/r503d/users.json"
    );
    assert_eq!(
        default_storage_path(true, Some("/x/"), None),
        "/x/r503d/users.json"
    );
    assert_eq!(
        default_storage_path(true, Some(""), None),
        "r503d/users.json"
    );
    assert_eq!(
        default_storage_path(true, None, Some("/home/mat")),
        "/home/mat/.local/state/r503d/users.json"
    );
    assert_eq!(
        default_storage_path(true, None, None),
        "/tmp/.local/state/r503d/users.json"
    );
}
