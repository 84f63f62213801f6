use conclave::h264_deblock::{
    boundary_strength, filter_chroma_edge, filter_luma_edge, ALPHA_TABLE, BETA_TABLE, TC0_TABLE,
};

#[test]
fn alpha_table_endpoints_match_spec() {
    assert_eq!(ALPHA_TABLE[0], 0);
    assert_eq!(ALPHA_TABLE[16], 4);
    assert_eq!(ALPHA_TABLE[28], 20);
    assert_eq!(ALPHA_TABLE[51], 255);
}

#[test]
fn beta_table_endpoints_match_spec() {
    assert_eq!(BETA_TABLE[0], 0);
    assert_eq!(BETA_TABLE[16], 2);
    assert_eq!(BETA_TABLE[28], 7);
    assert_eq!(BETA_TABLE[51], 18);
}

#[test]
fn tc0_spec_rows() {
    assert_eq!(TC0_TABLE[16], [0, 0, 0]);
    assert_eq!(TC0_TABLE[23], [1, 1, 1]);
    assert_eq!(TC0_TABLE[31], [1, 2, 3]);
    assert_eq!(TC0_TABLE[39], [3, 4, 6]);
    assert_eq!(TC0_TABLE[51], [13, 17, 25]);
}

#[test]
fn boundary_strength_intra_at_mb_edge_is_4() {
    assert_eq!(boundary_strength(true, false, true), 4);
    assert_eq!(boundary_strength(false, true, true), 4);
}

#[test]
fn boundary_strength_intra_inside_mb_is_3() {
    assert_eq!(boundary_strength(true, true, false), 3);
}

#[test]
fn boundary_strength_inter_inter_is_1() {
    assert_eq!(boundary_strength(false, false, false), 1);
}

#[test]
fn filter_skips_at_bs0() {
    let mut s = [10, 20, 30, 40, 50, 60, 70, 80];
    let orig = s;
    filter_luma_edge(&mut s, 0, 28, 0, 0);
    assert_eq!(s, orig);
}

#[test]
fn filter_skips_when_alpha_is_zero() {
    let mut s = [10, 20, 30, 40, 50, 60, 70, 80];
    let orig = s;
    // QP 0 → alpha_table[0] = 0 → no filtering.
    filter_luma_edge(&mut s, 3, 0, 0, 0);
    assert_eq!(s, orig);
}

#[test]
fn chroma_filter_skips_at_bs0() {
    let mut s = [60u8, 80, 100, 120];
    let orig = s;
    filter_chroma_edge(&mut s, 0, 28, 0, 0);
    assert_eq!(s, orig);
}

#[test]
fn chroma_filter_smooths_small_step() {
    let mut s = [100u8, 100, 120, 120];
    filter_chroma_edge(&mut s, 3, 32, 0, 0);
    assert!((s[1] as i32) > 100);
    assert!((s[2] as i32) < 120);
}

#[test]
fn chroma_filter_bs4_does_two_tap_average() {
    let mut s = [100u8, 100, 120, 120];
    filter_chroma_edge(&mut s, 4, 32, 0, 0);
    // p0_new = (2*100 + 100 + 120 + 2) >> 2 = 105
    // q0_new = (2*120 + 120 + 100 + 2) >> 2 = 115
    assert_eq!(s[1], 105);
    assert_eq!(s[2], 115);
}

#[test]
fn filter_smooths_sharp_step_with_bs3() {
    // 20-sample step at QP 32 (alpha=32, beta=8). Diff 20 < alpha
    // so the activity gate passes; flat p1/p2 and q1/q2 keep us
    // inside the smoothing path. Expect both edge samples to
    // converge toward the midpoint.
    let mut s = [100u8, 100, 100, 100, 120, 120, 120, 120];
    filter_luma_edge(&mut s, 3, 32, 0, 0);
    assert!((s[3] as i32) > 100, "p0 should increase, got {}", s[3]);
    assert!((s[4] as i32) < 120, "q0 should decrease, got {}", s[4]);
}
