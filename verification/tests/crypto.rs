use r503d::crypto::{mac_to_hex, mac_to_le_bytes, siphash24};

const STANDARD_KEY: [u8; 16] = [
    0x00, 0x01, 0x02, 0x03, 0x04, 0x05, 0x06, 0x07, 0x08, 0x09, 0x0a, 0x0b, 0x0c, 0x0d, 0x0e, 0x0f,
];

// Published vectors, in the order in which the bytes travel.
fn check_vector(msg_len: usize, want_le: [u8; 8]) {
    let msg: Vec<u8> = (0..msg_len as u8).collect();
    let mac = siphash24(&STANDARD_KEY, &msg);
    let got = mac_to_le_bytes(mac);
    assert_eq!(
        got, want_le,
        "msg_len={} got={:02x?} want={:02x?}",
        msg_len, got, want_le
    );
}

#[test]
fn vector_len_0() {
    check_vector(0, [0x31, 0x0e, 0x0e, 0xdd, 0x47, 0xdb, 0x6f, 0x72]);
}

#[test]
fn vector_len_1() {
    check_vector(1, [0xfd, 0x67, 0xdc, 0x93, 0xc5, 0x39, 0xf8, 0x74]);
}

#[test]
fn vector_len_8() {
    // One whole block and an empty tail.
    check_vector(8, [0x62, 0x24, 0x93, 0x9a, 0x79, 0xf5, 0xf5, 0x93]);
}

#[test]
fn vector_len_15() {
    // One whole block and the longest tail.
    check_vector(15, [0xe5, 0x45, 0xbe, 0x49, 0x61, 0xca, 0x29, 0xa1]);
}

#[test]
fn deterministic() {
    let key = [0x42u8; 16];
    let msg = b"hello world";
    assert_eq!(siphash24(&key, msg), siphash24(&key, msg));
}

#[test]
fn different_keys_distinct() {
    let k1 = [1u8; 16];
    let k2 = [2u8; 16];
    let msg = b"identical message";
    assert_ne!(siphash24(&k1, msg), siphash24(&k2, msg));
}

#[test]
fn different_msgs_distinct() {
    let key = [0x42u8; 16];
    assert_ne!(siphash24(&key, b"foo"), siphash24(&key, b"bar"));
}

#[test]
fn block_boundary_changes_mac() {
    let key = [0x42u8; 16];
    let msg7 = b"1234567";
    let msg8 = b"12345678";
    let msg9 = b"123456789";
    let m7 = siphash24(&key, msg7);
    let m8 = siphash24(&key, msg8);
    let m9 = siphash24(&key, msg9);
    assert_ne!(m7, m8);
    assert_ne!(m8, m9);
    assert_ne!(m7, m9);
}

#[test]
fn mac_to_hex_format() {
    let mac: u64 = 0x726f_db47_dd0e_0e31;
    assert_eq!(mac_to_hex(mac), "310e0edd47db6f72");
}

#[test]
fn empty_key_distinct_from_standard_key() {
    let empty_key = [0u8; 16];
    let msg = b"hello";
    assert_ne!(siphash24(&empty_key, msg), siphash24(&STANDARD_KEY, msg));
}

#[test]
fn mac_bytes_are_least_significant_first() {
    assert_eq!(
        mac_to_le_bytes(0x0102_0304_0506_0708),
        [8, 7, 6, 5, 4, 3, 2, 1]
    );
    assert_eq!(mac_to_hex(0), "0000000000000000");
    assert_eq!(mac_to_hex(u64::MAX), "ffffffffffffffff");
}
