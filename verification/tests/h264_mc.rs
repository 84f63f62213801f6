use conclave::h264_mc::{interp_chroma_8x8, interp_luma_qpel};

fn flat_window(v: u8) -> [[u8; 9]; 9] {
    [[v; 9]; 9]
}

#[test]
fn integer_position_passes_through() {
    let rf = flat_window(123);
    assert_eq!(interp_luma_qpel(&rf, 0, 0), 123);
}

#[test]
fn luma_half_on_flat_is_flat() {
    let rf = flat_window(80);
    assert_eq!(interp_luma_qpel(&rf, 2, 0), 80);
    assert_eq!(interp_luma_qpel(&rf, 0, 2), 80);
    assert_eq!(interp_luma_qpel(&rf, 2, 2), 80);
}

#[test]
fn luma_quarter_on_flat_is_flat() {
    let rf = flat_window(64);
    for dx in 0..=3 {
        for dy in 0..=3 {
            assert_eq!(interp_luma_qpel(&rf, dx, dy), 64, "dx={dx} dy={dy}");
        }
    }
}

#[test]
fn chroma_int_position_copies() {
    let mut rf = [[0u8; 9]; 9];
    for y in 0..9 {
        for x in 0..9 {
            rf[y][x] = (y * 10 + x) as u8;
        }
    }
    let out = interp_chroma_8x8(&rf, 0, 0);
    for y in 0..8 {
        for x in 0..8 {
            assert_eq!(out[y * 8 + x], rf[y][x]);
        }
    }
}

#[test]
fn chroma_half_pel_blends() {
    let mut rf = [[0u8; 9]; 9];
    for y in 0..9 {
        for x in 0..9 {
            rf[y][x] = if x < 4 { 0 } else { 200 };
        }
    }
    // dx=4 (half-pel right) → at x=3 the bilinear should land
    // between 0 and 200 ≈ 100.
    let out = interp_chroma_8x8(&rf, 4, 0);
    let v = out[3] as i32;
    assert!(
        (95..=105).contains(&v),
        "expected half-pel blend ~100, got {v}"
    );
}

#[test]
fn luma_half_h_blends_step_function() {
    // Build a step: left columns 0, right columns 200. Half-pel
    // horizontal should land around the average.
    let mut rf = [[0u8; 9]; 9];
    for y in 0..9 {
        for x in 0..9 {
            rf[y][x] = if x < 4 { 0 } else { 200 };
        }
    }
    let v = interp_luma_qpel(&rf, 2, 0) as i32;
    // The half-pel is anchored past the right edge of the step
    // (5 of 6 taps are on the 200 side), so the FIR result sits
    // near the high plateau but with normal FIR ringing.
    assert!((180..=255).contains(&v), "got {v}");
}

#[test]
fn every_quarter_has_its_own_sample() {
    let mut rf = [[0u8; 9]; 9];
    let mut turned = [[0u8; 9]; 9];
    for y in 0..9 {
        for x in 0..9 {
            rf[y][x] = ((y * y * 3 + x * x * 7 + x * y * 5) % 256) as u8;
            turned[x][y] = rf[y][x];
        }
    }
    let expected: [[u8; 4]; 4] =
        [[240, 192, 144, 106], [188, 140, 113, 122], [135, 109, 82, 91], [83, 84, 58, 67]];
    for dy in 0..4u8 {
        for dx in 0..4u8 {
            let want = expected[dy as usize][dx as usize];
            assert_eq!(interp_luma_qpel(&rf, dx, dy), want, "dx={dx} dy={dy}");
            assert_eq!(interp_luma_qpel(&turned, dy, dx), want, "dx={dx} dy={dy}");
        }
    }
}

#[test]
fn quarters_below_a_step_lean_on_the_column() {
    let mut rf = [[0u8; 9]; 9];
    for row in rf.iter_mut() {
        for (x, sample) in row.iter_mut().enumerate() {
            *sample = if x < 4 { 0 } else { 200 };
        }
    }
    assert_eq!(interp_luma_qpel(&rf, 1, 2), 213);
}
