use r503d::files::FileOp;
use r503d::keystore::{
    delete_all_keys, delete_key, generate_key, key_hex, key_if_filled, load_key,
    load_key_with_source, parse_key_hex, remove_allow_pair, save_key, save_key_sealed,
    trusted_key_file, FileFacts, KeyError, KeySource, ALLOW_PAIR_PATH, KEY_BAK_PATH, KEY_PATH,
    KEY_TPM_PATH,
};

#[test]
fn round_trip_hex() {
    let k: [u8; 16] = std::array::from_fn(|i| i as u8 * 17);
    let h = key_hex(&k);
    let back = parse_key_hex(&h).unwrap();
    assert_eq!(k, back);
}

#[test]
fn known_vector() {
    let k = [
        0x00, 0x01, 0x02, 0x03, 0x04, 0x05, 0x06, 0x07, 0x08, 0x09, 0x0a, 0x0b, 0x0c, 0x0d, 0x0e,
        0x0f,
    ];
    assert_eq!(&*key_hex(&k), "000102030405060708090a0b0c0d0e0f");
}

#[test]
fn parse_rejects_wrong_length() {
    assert!(parse_key_hex("deadbeef").is_err());
}

#[test]
fn parse_rejects_bad_chars() {
    let mut s = String::from("0102030405060708090a0b0c0d0e0f10");
    s.replace_range(0..1, "!");
    assert!(parse_key_hex(&s).is_err());
}

#[test]
fn key_errors_say_what_is_wrong() {
    assert_eq!(parse_key_hex("deadbeef"), Err(KeyError::WrongLength(8)));
    assert_eq!(parse_key_hex("\u{e9}"), Err(KeyError::WrongLength(2)));
    assert_eq!(
        parse_key_hex("0!02030405060708090a0b0c0d0e0fxx"),
        Err(KeyError::NotHex(b'!'))
    );
    assert_eq!(
        KeyError::WrongLength(8).message(""),
        "key must be 32 hex chars, got 8"
    );
    assert_eq!(KeyError::NotHex(33).message("'!'"), "non-hex byte: '!'");
    assert_eq!(
        KeyError::Random("no source".to_string()).message(""),
        "getrandom(2) failed: no source"
    );
}

#[test]
fn hex_is_read_in_either_case() {
    assert_eq!(
        parse_key_hex("DEADBEEFdeadbeefDeAdBeEf00000000"),
        Ok([
            0xde, 0xad, 0xbe, 0xef, 0xde, 0xad, 0xbe, 0xef, 0xde, 0xad, 0xbe, 0xef, 0, 0, 0, 0
        ])
    );
}

#[test]
fn random_keys_differ_from_the_empty_buffer() {
    let a = generate_key().unwrap();
    let b = generate_key().unwrap();
    assert_ne!(a, [0u8; 16]);
    assert_ne!(a, b);
}

#[test]
fn a_buffer_that_was_not_filled_is_wiped() {
    let mut buf = [7u8; 16];
    assert_eq!(key_if_filled(None, &mut buf), Ok([7u8; 16]));
    assert_eq!(buf, [7u8; 16]);
    assert_eq!(
        key_if_filled(Some("no source".to_string()), &mut buf),
        Err(KeyError::Random("no source".to_string()))
    );
    assert_eq!(buf, [0u8; 16]);
}

const ONE: &str = "01010101010101010101010101010101\n";
const TWO: &str = "  02020202020202020202020202020202  ";

#[test]
fn the_backup_counts_only_where_the_key_file_does_not() {
    assert_eq!(load_key(Some(ONE), Some(TWO)), Some([1u8; 16]));
    assert_eq!(load_key(Some("garbage"), Some(TWO)), Some([2u8; 16]));
    assert_eq!(load_key(None, Some(TWO)), Some([2u8; 16]));
    assert_eq!(load_key(None, None), None);
    assert_eq!(load_key(Some(""), Some("short")), None);
}

#[test]
fn a_sealed_key_is_never_replaced_by_one_in_the_clear() {
    assert_eq!(
        load_key_with_source(Some(Ok([9u8; 16])), Some(ONE), Some(TWO)),
        Ok(Some(([9u8; 16], KeySource::Tpm)))
    );
    assert_eq!(
        load_key_with_source(Some(Err("policy".to_string())), Some(ONE), Some(TWO)),
        Err("policy".to_string())
    );
    assert_eq!(
        load_key_with_source(None, Some(ONE), None),
        Ok(Some(([1u8; 16], KeySource::Plaintext)))
    );
    assert_eq!(load_key_with_source(None, None, None), Ok(None));
}

#[test]
fn key_files_have_to_be_roots_own_and_private() {
    let good = FileFacts {
        is_symlink: false,
        uid: 0,
        mode: 0o100600,
    };
    assert!(trusted_key_file(good, false));
    assert!(trusted_key_file(good, true));
    let read_only = FileFacts {
        mode: 0o100400,
        ..good
    };
    assert!(trusted_key_file(read_only, true));
    let executable = FileFacts {
        mode: 0o100700,
        ..good
    };
    assert!(trusted_key_file(executable, false));
    assert!(!trusted_key_file(executable, true));
    assert!(!trusted_key_file(
        FileFacts {
            mode: 0o100640,
            ..good
        },
        false
    ));
    assert!(!trusted_key_file(
        FileFacts {
            is_symlink: true,
            ..good
        },
        false
    ));
    assert!(!trusted_key_file(FileFacts { uid: 1000, ..good }, false));
}

fn removed(ops: &[FileOp]) -> Vec<String> {
    ops.iter()
        .filter_map(|op| match op {
            FileOp::Remove(p) => Some(p.clone()),
            _ => None,
        })
        .collect()
}

#[test]
fn saving_writes_aside_then_renames_then_backs_up() {
    let ops = save_key(&[0xabu8; 16]);
    assert_eq!(ops.len(), 6);
    assert!(matches!(&ops[0], FileOp::MakeDir(p) if p == "/var/lib/r503d"));
    assert!(matches!(&ops[1], FileOp::SetMode { path, mode: 0o700 } if path == "/var/lib/r503d"));
    assert!(matches!(
        &ops[2],
        FileOp::WriteSync { path, mode: 0o600, data }
            if path == "/var/lib/r503d/key.tmp" && data == b"abababababababababababababababab\n"
    ));
    assert!(matches!(
        &ops[3],
        FileOp::Rename { from, to } if from == "/var/lib/r503d/key.tmp" && to == KEY_PATH
    ));
    assert!(matches!(
        &ops[4],
        FileOp::Copy { from, to } if from == KEY_PATH && to == KEY_BAK_PATH
    ));
    assert!(matches!(&ops[5], FileOp::SetMode { path, mode: 0o400 } if path == KEY_BAK_PATH));
}

#[test]
fn a_sealed_key_is_saved_before_the_clear_ones_are_removed() {
    let (ops, clearing) = save_key_sealed(vec![1, 2, 3]);
    assert!(matches!(
        &ops[2],
        FileOp::WriteSync { path, mode: 0o600, data }
            if path == "/var/lib/r503d/key.tpm.tmp" && data == &vec![1, 2, 3]
    ));
    assert!(matches!(&ops[3], FileOp::Rename { to, .. } if to == KEY_TPM_PATH));
    assert_eq!(ops.len(), 4);
    assert_eq!(removed(&clearing), vec![KEY_PATH, KEY_BAK_PATH]);
}

#[test]
fn deleting_overwrites_before_it_removes() {
    let ops = delete_key();
    assert_eq!(removed(&ops), vec![KEY_PATH, KEY_BAK_PATH]);
    assert!(matches!(
        &ops[1],
        FileOp::Shred { path, data } if path == KEY_PATH && data == &vec![0xffu8; 33]
    ));
    assert_eq!(
        removed(&delete_all_keys()),
        vec![KEY_PATH, KEY_BAK_PATH, KEY_TPM_PATH]
    );
    assert_eq!(removed(&remove_allow_pair()), vec![ALLOW_PAIR_PATH]);
}
