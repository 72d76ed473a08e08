//! Observer-to-satellite line-segment buffer assembly.

use gnss_constellation::scene::build_line_segments;

#[test]
fn test_build_line_segments_empty() {
    let obs = [0.0_f32, 0.0, 1.0];
    let buf = build_line_segments(obs, &[]);
    assert!(buf.is_empty());
}

#[test]
fn test_build_line_segments_one_sat() {
    let obs = [0.1_f32, 0.2, 0.9];
    let sat = [3.0_f32, 4.0, 5.0];
    let buf = build_line_segments(obs, &[(0u8, sat)]);
    assert_eq!(buf.len(), 6);
    // observer end
    assert_eq!(buf[0], 0.1);
    assert_eq!(buf[1], 0.2);
    assert_eq!(buf[2], 0.9);
    // satellite end
    assert_eq!(buf[3], 3.0);
    assert_eq!(buf[4], 4.0);
    assert_eq!(buf[5], 5.0);
}

#[test]
fn test_build_line_segments_two_sats() {
    let obs = [0.0_f32, 0.0, 1.0];
    let sat1 = [1.0_f32, 0.0, 4.0];
    let sat2 = [0.0_f32, 1.0, 3.5];
    let buf = build_line_segments(obs, &[(0u8, sat1), (2u8, sat2)]);
    assert_eq!(buf.len(), 12);
    // second segment observer end is at index 6..9
    assert_eq!(buf[6], 0.0);
    assert_eq!(buf[7], 0.0);
    assert_eq!(buf[8], 1.0);
}

/// Buffer length must be 6 x number of visible satellites.
#[test]
fn test_build_line_segments_n_sats() {
    let obs = [0.0_f32; 3];
    let sats: Vec<(u8, [f32; 3])> = (0..10)
        .map(|i| (i as u8 % 4, [i as f32, 0.0, 5.0]))
        .collect();
    let buf = build_line_segments(obs, &sats);
    assert_eq!(buf.len(), 60); // 10 x 6
}
