use splitledger::b64::{b64u_decode, b64u_encode};
use splitledger::hexid::{id_str_bytes, parse_id_at};

#[test]
fn b64_known_vectors() {
    assert_eq!(b64u_encode(&b"Man".to_vec()), b"TWFu".to_vec());
    assert_eq!(b64u_encode(&b"Ma".to_vec()), b"TWE".to_vec());
    assert_eq!(b64u_encode(&b"M".to_vec()), b"TQ".to_vec());
    assert_eq!(b64u_encode(&Vec::new()), Vec::<u8>::new());
    // The url-safe alphabet: 62 and 63 are '-' and '_'.
    assert_eq!(b64u_encode(&vec![0xfb, 0xff]), b"-_8".to_vec());
}

#[test]
fn b64_decode_inverts_encode() {
    let cases: Vec<Vec<u8>> = vec![
        Vec::new(),
        vec![0],
        vec![255],
        vec![1, 2],
        vec![1, 2, 3],
        vec![251, 239, 190, 5, 77],
        (0u8..=255).collect(),
    ];
    for bytes in cases {
        let enc = b64u_encode(&bytes);
        assert_eq!(b64u_decode(&enc).unwrap(), bytes);
    }
}

#[test]
fn b64_decode_rejects_padding_and_slack() {
    // Padded form of "Ma".
    assert!(b64u_decode(&b"TWE=".to_vec()).is_none());
    // A lone byte can never appear in base64.
    assert!(b64u_decode(&b"T".to_vec()).is_none());
    // Non-canonical slack bits: "TWF" decodes the same bytes as "TWE" would,
    // but its final character carries non-zero slack.
    assert!(b64u_decode(&b"TWF".to_vec()).is_none());
    // A byte outside the alphabet.
    assert!(b64u_decode(&b"TW.u".to_vec()).is_none());
}

#[test]
fn id_formats_hyphenated_lowercase_hex() {
    let g = 0x123e4567e89b12d3a456426614174000u128;
    let s = id_str_bytes(g);
    assert_eq!(s, b"123e4567-e89b-12d3-a456-426614174000".to_vec());
    assert_eq!(id_str_bytes(0), b"00000000-0000-0000-0000-000000000000".to_vec());
    assert_eq!(
        id_str_bytes(u128::MAX),
        b"ffffffff-ffff-ffff-ffff-ffffffffffff".to_vec()
    );
}

#[test]
fn id_parse_accepts_both_cases_and_round_trips() {
    let g = 0x123e4567e89b12d3a456426614174000u128;
    let lower = b"123e4567-e89b-12d3-a456-426614174000".to_vec();
    assert_eq!(parse_id_at(&lower, 0), Some(g));
    let upper = b"123E4567-E89B-12D3-A456-426614174000".to_vec();
    assert_eq!(parse_id_at(&upper, 0), Some(g));
    let round = id_str_bytes(g);
    assert_eq!(parse_id_at(&round, 0), Some(g));
}

#[test]
fn id_parse_rejects_misplaced_hyphens_and_bad_digits() {
    let no_hyphens = b"123e4567e89b12d3a456426614174000xxxx".to_vec();
    assert_eq!(parse_id_at(&no_hyphens, 0), None);
    let bad_digit = b"123e4567-e89b-12d3-a456-42661417400g".to_vec();
    assert_eq!(parse_id_at(&bad_digit, 0), None);
}
