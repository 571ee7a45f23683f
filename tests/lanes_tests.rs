use validator::lanes::{normalize_pair, normalize_response_data, reconcile_lanes, rule_30};

fn two_lanes() -> Vec<u8> {
    let mut row = vec![0u8; 64];
    row[31] = 1;
    row[32] = 1;
    row
}

#[test]
fn rule_30_values() {
    assert_eq!(rule_30(0), 0);
    assert_eq!(rule_30(1), 7);
    assert_eq!(rule_30(0b100), 0b11100);
    assert_eq!(rule_30(0b11), 0b1101);
}

#[test]
fn golden_seam_pair() {
    assert_eq!(normalize_pair(1, 1), (1, 7));
    assert_eq!(normalize_pair(0, 0), (0, 0));
    assert_eq!(normalize_pair(0x80, 0x80), (0x80, 0x80));
    assert_eq!(normalize_pair(3, 2), (15, 14));
}

#[test]
fn golden_seam_in_row() {
    let mut row = two_lanes();
    let out = normalize_response_data(&mut row);
    let mut expected = vec![0u8; 64];
    expected[31] = 1;
    expected[32] = 7;
    assert_eq!(row, expected);
    assert_eq!(out, expected);
}

#[test]
fn seam_repair_is_deterministic() {
    for a in 0..=255u8 {
        for b in [0u8, 1, 0x55, 0xaa, 0xff] {
            assert_eq!(normalize_pair(a, b), normalize_pair(a, b));
        }
    }
    let mut r1 = two_lanes();
    let mut r2 = two_lanes();
    r2[5] = 9;
    r2[40] = 200;
    reconcile_lanes(&mut r1);
    reconcile_lanes(&mut r2);
    assert_eq!((r1[31], r1[32]), (r2[31], r2[32]));
}

#[test]
fn seams_use_raw_edges_only() {
    let mut row = vec![0u8; 96];
    row[31] = 1;
    row[32] = 1;
    row[63] = 1;
    row[64] = 1;
    reconcile_lanes(&mut row);
    assert_eq!((row[31], row[32]), (1, 7));
    assert_eq!((row[63], row[64]), (1, 7));
}

#[test]
fn single_lane_is_untouched_and_returned() {
    let mut row = vec![3u8; 32];
    let out = normalize_response_data(&mut row);
    assert_eq!(row, vec![3u8; 32]);
    assert_eq!(out, vec![3u8; 32]);
    let mut empty: Vec<u8> = Vec::new();
    assert!(normalize_response_data(&mut empty).is_empty());
}

#[test]
fn short_last_lane_gets_its_seam() {
    let mut row = vec![0u8; 33];
    row[31] = 2;
    row[32] = 1;
    let out = normalize_response_data(&mut row);
    assert_eq!((row[31], row[32]), (normalize_pair(2, 1).0, 7));
    assert_eq!(out, row);
}
