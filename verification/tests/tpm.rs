use r503d::tpm::{
    deserialize_blob, hex_encode, parse_pcr_list, serialize_blob, unsealed_key,
    validate_pcrs, BlobError, PcrError, SealRequest, DEFAULT_PCRS, FILE_MAGIC_V1, FILE_MAGIC_V2,
};

#[test]
fn blob_roundtrip_v1_default_pcrs() {
    let pub_bytes = vec![1, 2, 3, 4, 5];
    let priv_bytes = vec![9, 8, 7];
    let blob = serialize_blob(&DEFAULT_PCRS, &pub_bytes, &priv_bytes);
    assert_eq!(
        &blob[..FILE_MAGIC_V1.len()],
        FILE_MAGIC_V1,
        "default PCRs should still use v1 magic for backward compat"
    );
    let (pcrs, p, q) = deserialize_blob(&blob).unwrap();
    assert_eq!(pcrs, DEFAULT_PCRS);
    assert_eq!(p, pub_bytes);
    assert_eq!(q, priv_bytes);
}

#[test]
fn blob_roundtrip_v2_multi_pcrs() {
    let pcrs = vec![0u8, 4, 7, 11];
    let pub_bytes = vec![1, 2, 3, 4, 5];
    let priv_bytes = vec![9, 8, 7];
    let blob = serialize_blob(&pcrs, &pub_bytes, &priv_bytes);
    assert_eq!(
        &blob[..FILE_MAGIC_V2.len()],
        FILE_MAGIC_V2,
        "non-default PCRs should use v2 magic"
    );
    let (got_pcrs, p, q) = deserialize_blob(&blob).unwrap();
    assert_eq!(got_pcrs, pcrs);
    assert_eq!(p, pub_bytes);
    assert_eq!(q, priv_bytes);
}

#[test]
fn blob_rejects_wrong_magic() {
    let mut blob = serialize_blob(&DEFAULT_PCRS, &[1, 2, 3], &[4, 5, 6]);
    blob[0] = b'X';
    assert!(deserialize_blob(&blob).is_err());
}

#[test]
fn blob_rejects_truncated_pub() {
    let blob = serialize_blob(&DEFAULT_PCRS, &[1, 2, 3, 4], &[5, 6]);
    let truncated = &blob[..blob.len() - 5];
    assert!(deserialize_blob(truncated).is_err());
}

#[test]
fn blob_rejects_trailing_garbage() {
    let mut blob = serialize_blob(&DEFAULT_PCRS, &[1, 2, 3], &[4, 5]);
    blob.push(0xff);
    assert!(deserialize_blob(&blob).is_err());
}

#[test]
fn blob_rejects_oversized_pub_len() {
    let mut blob = Vec::new();
    blob.extend_from_slice(&FILE_MAGIC_V1);
    blob.extend_from_slice(&(100_000u32).to_le_bytes());
    blob.extend_from_slice(&[0u8; 8]);
    let err = deserialize_blob(&blob).unwrap_err().message();
    assert!(err.contains("pub field too large"), "got: {err}");
}

#[test]
fn blob_rejects_oversized_priv_len() {
    let mut blob = Vec::new();
    blob.extend_from_slice(&FILE_MAGIC_V1);
    blob.extend_from_slice(&(0u32).to_le_bytes());
    blob.extend_from_slice(&(100_000u32).to_le_bytes());
    let err = deserialize_blob(&blob).unwrap_err().message();
    assert!(err.contains("priv field too large"), "got: {err}");
}

#[test]
fn parse_pcr_list_accepts_canonical_forms() {
    assert_eq!(parse_pcr_list("7").unwrap(), vec![7u8]);
    assert_eq!(parse_pcr_list("7,11").unwrap(), vec![7u8, 11]);
    assert_eq!(parse_pcr_list("0,4,7,11").unwrap(), vec![0u8, 4, 7, 11]);
    assert_eq!(parse_pcr_list(" 7 , 11 ").unwrap(), vec![7u8, 11]);
}

#[test]
fn parse_pcr_list_rejects_invalid() {
    assert!(parse_pcr_list("").is_err());
    assert!(parse_pcr_list("24").is_err()); // out of range
    assert!(parse_pcr_list("7,7").is_err()); // duplicate
    assert!(parse_pcr_list("seven").is_err()); // non-numeric
    assert!(parse_pcr_list("-1").is_err()); // negative
}

#[test]
fn pcr_errors_say_what_is_wrong() {
    assert!(matches!(parse_pcr_list(" , ,"), Err(PcrError::ListEmpty)));
    assert!(matches!(parse_pcr_list("7,,11"), Ok(v) if v == vec![7, 11]));
    assert!(matches!(parse_pcr_list("3, x y ,7"), Err(PcrError::NotANumber(t)) if t == "x y"));
    assert!(matches!(parse_pcr_list("256"), Err(PcrError::NotANumber(t)) if t == "256"));
    assert!(matches!(parse_pcr_list("7,30,24"), Err(PcrError::OutOfRange(30))));
    assert!(matches!(parse_pcr_list("7,3,7"), Err(PcrError::Duplicates(v)) if v == vec![7, 3, 7]));
    assert!(matches!(validate_pcrs(&[]), Err(PcrError::Empty)));
    assert!(matches!(validate_pcrs(&[0u8; 25]), Err(PcrError::TooLong(25))));
    let all: Vec<u8> = (0..24).collect();
    assert!(validate_pcrs(&all).is_ok());
    assert_eq!(
        PcrError::Duplicates(vec![7, 3, 7]).message(""),
        "PCR list contains duplicates: [7, 3, 7]"
    );
    assert_eq!(
        PcrError::NotANumber("x y".to_string()).message("\"x y\""),
        "PCR index \"x y\" is not a u8"
    );
    assert_eq!(
        PcrError::OutOfRange(24).message(""),
        "PCR index 24 out of range (0..=23 in the SHA256 bank)"
    );
    assert_eq!(
        PcrError::TooLong(25).message(""),
        "PCR list too long (25 > 24 slots in the SHA256 bank)"
    );
    assert_eq!(PcrError::Empty.message(""), "PCR list cannot be empty");
    assert_eq!(
        PcrError::ListEmpty.message(""),
        "PCR list is empty \u{2014} must specify at least one (e.g. \"7\")"
    );
}

#[test]
fn the_bytes_of_both_formats() {
    assert_eq!(
        serialize_blob(&[7], &[1, 2], &[3]),
        b"R503TPM\x01\x02\x00\x00\x00\x01\x02\x01\x00\x00\x00\x03".to_vec()
    );
    assert_eq!(
        serialize_blob(&[7, 11], &[], &[3]),
        b"R503TPM\x02\x02\x07\x0b\x00\x00\x00\x00\x01\x00\x00\x00\x03".to_vec()
    );
}

fn error_of(blob: &[u8]) -> String {
    deserialize_blob(blob).unwrap_err().message()
}

#[test]
fn every_blob_error_has_an_input() {
    assert_eq!(error_of(&[0u8; 15]), "sealed blob too short (15 bytes)");
    assert_eq!(
        error_of(&[0u8; 16]),
        "sealed blob magic mismatch \u{2014} file isn't a key.tpm produced by this daemon"
    );
    let mut v2 = FILE_MAGIC_V2.to_vec();
    v2.extend_from_slice(&[0; 8]);
    assert_eq!(error_of(&v2), "v2 sealed blob has invalid pcr_count=0");
    v2[8] = 24;
    assert_eq!(error_of(&v2), "v2 sealed blob truncated in pcr_list");
    v2[8] = 2;
    assert_eq!(error_of(&v2), "PCR list contains duplicates: [0, 0]");
    let good = serialize_blob(&[7], &[1, 2, 3, 4], &[5, 6]);
    assert_eq!(
        error_of(&good[..good.len() - 5]),
        "sealed blob truncated (pub field)"
    );
    assert_eq!(
        error_of(&good[..good.len() - 1]),
        "sealed blob length mismatch (priv field): expected 2 more bytes, blob has 1"
    );
    assert!(matches!(
        deserialize_blob(&good[..good.len() - 1]),
        Err(BlobError::PrivLengthMismatch {
            expected: 2,
            has: 1
        })
    ));
}

#[test]
fn a_file_that_ends_in_or_before_a_length_is_refused() {
    let mut blob = FILE_MAGIC_V2.to_vec();
    blob.push(7);
    blob.extend_from_slice(&[0, 1, 2, 3, 4, 5, 6]);
    assert_eq!(blob.len(), 16);
    for _ in 0..5 {
        assert_eq!(error_of(&blob), "sealed blob truncated (pub field)");
        blob.push(0);
    }
    let whole = serialize_blob(&[0, 1, 2, 3, 4, 5, 6], &[1, 2], &[3]);
    for end in 0..whole.len() {
        assert!(deserialize_blob(&whole[..end]).is_err());
    }
    assert!(deserialize_blob(&whole).is_ok());
}

#[test]
fn pcr_seven_alone_in_format_two_is_read() {
    let blob = b"R503TPM\x02\x01\x07\x00\x00\x00\x00\x00\x00\x00\x00".to_vec();
    assert_eq!(
        deserialize_blob(&blob).unwrap(),
        (vec![7], vec![], vec![])
    );
}

#[test]
fn sealing_keeps_the_pcrs() {
    let q = SealRequest::new(&[0, 7]).unwrap();
    assert_eq!(q.pcrs(), &[0, 7]);
    let blob = q.finish(&[1], &[2]);
    assert_eq!(
        deserialize_blob(&blob).unwrap(),
        (vec![0, 7], vec![1], vec![2])
    );
    assert!(SealRequest::new(&[24]).is_err());
}

#[test]
fn an_unsealed_payload_has_sixteen_bytes() {
    assert_eq!(unsealed_key(&[5u8; 16]), Ok([5u8; 16]));
    assert_eq!(
        unsealed_key(&[5u8; 15]),
        Err("unsealed payload is 15 bytes, expected 16".to_string())
    );
}

#[test]
fn pcr_values_are_shown_in_hexadecimal() {
    assert_eq!(hex_encode(&[0x00, 0x0f, 0xa5, 0xff]), "000fa5ff");
}

#[test]
fn a_valid_list_reads_back_from_its_text() {
    for pcrs in [vec![7u8], vec![23, 0, 11], (0..24).collect()] {
        let text: Vec<String> = pcrs.iter().map(|p| p.to_string()).collect();
        assert_eq!(parse_pcr_list(&text.join(",")).unwrap(), pcrs);
    }
}

#[test]
fn a_sealed_file_gives_back_what_unsealing_needs() {
    let key: [u8; 16] = [0x5a; 16];
    for pcrs in [vec![7u8], vec![0, 2, 7], vec![23]] {
        let blob = SealRequest::new(&pcrs).unwrap().finish(&[1, 2, 3], &key);
        let (bound, public, private) = deserialize_blob(&blob).unwrap();
        assert_eq!((bound, public), (pcrs, vec![1, 2, 3]));
        assert_eq!(unsealed_key(&private), Ok(key));
    }
}
