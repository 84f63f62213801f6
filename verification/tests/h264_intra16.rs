use conclave::h264_intra16::{predict_16x16, Intra16x16Mode, Neighbors16x16};

fn solid_neighbors(v: u8) -> Neighbors16x16 {
    Neighbors16x16 {
        top: [v; 16],
        left: [v; 16],
        top_left: v,
        top_avail: true,
        left_avail: true,
    }
}

#[test]
fn vertical_replicates_top_row() {
    let mut n = solid_neighbors(0);
    for i in 0..16 {
        n.top[i] = i as u8 * 16;
    }
    let out = predict_16x16(Intra16x16Mode::Vertical, &n).unwrap();
    for y in 0..16 {
        for x in 0..16 {
            assert_eq!(out[y * 16 + x], n.top[x]);
        }
    }
}

#[test]
fn horizontal_replicates_left_column() {
    let mut n = solid_neighbors(0);
    for i in 0..16 {
        n.left[i] = i as u8 * 16;
    }
    let out = predict_16x16(Intra16x16Mode::Horizontal, &n).unwrap();
    for y in 0..16 {
        for x in 0..16 {
            assert_eq!(out[y * 16 + x], n.left[y]);
        }
    }
}

#[test]
fn dc_averages_32_neighbors() {
    let n = solid_neighbors(100);
    let out = predict_16x16(Intra16x16Mode::Dc, &n).unwrap();
    for &v in &out {
        assert_eq!(v, 100);
    }
}

#[test]
fn h264_intra16_dc_falls_back_to_128_when_no_neighbors() {
    let mut n = solid_neighbors(0);
    n.top_avail = false;
    n.left_avail = false;
    let out = predict_16x16(Intra16x16Mode::Dc, &n).unwrap();
    for &v in &out {
        assert_eq!(v, 128);
    }
}

#[test]
fn plane_on_flat_field_is_flat() {
    let n = solid_neighbors(80);
    let out = predict_16x16(Intra16x16Mode::Plane, &n).unwrap();
    // Slopes are zero on a flat input, so all 256 samples → 80.
    for &v in &out {
        assert_eq!(v, 80);
    }
}

#[test]
fn h264_intra16_vertical_returns_none_without_top() {
    let mut n = solid_neighbors(50);
    n.top_avail = false;
    assert!(predict_16x16(Intra16x16Mode::Vertical, &n).is_none());
}

#[test]
fn plane_returns_none_without_either_neighbor() {
    let mut n = solid_neighbors(50);
    n.top_avail = false;
    assert!(predict_16x16(Intra16x16Mode::Plane, &n).is_none());
    let mut n = solid_neighbors(50);
    n.left_avail = false;
    assert!(predict_16x16(Intra16x16Mode::Plane, &n).is_none());
}
