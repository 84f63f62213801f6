use conclave::h264_intra::{predict_4x4, Intra4x4Mode, Neighbors4x4};

fn solid_neighbors(v: u8) -> Neighbors4x4 {
    Neighbors4x4 {
        top: [v; 8],
        left: [v; 4],
        top_left: v,
        top_avail: true,
        left_avail: true,
        top_right_avail: true,
    }
}

#[test]
fn vertical_copies_top_row() {
    let mut n = solid_neighbors(0);
    n.top = [10, 20, 30, 40, 0, 0, 0, 0];
    let out = predict_4x4(Intra4x4Mode::Vertical, &n).unwrap();
    for y in 0..4 {
        assert_eq!(out[y * 4 + 0], 10);
        assert_eq!(out[y * 4 + 1], 20);
        assert_eq!(out[y * 4 + 2], 30);
        assert_eq!(out[y * 4 + 3], 40);
    }
}

#[test]
fn horizontal_copies_left_column() {
    let mut n = solid_neighbors(0);
    n.left = [11, 22, 33, 44];
    let out = predict_4x4(Intra4x4Mode::Horizontal, &n).unwrap();
    for y in 0..4 {
        for x in 0..4 {
            assert_eq!(out[y * 4 + x], n.left[y]);
        }
    }
}

#[test]
fn dc_averages_8_neighbors() {
    let n = solid_neighbors(80);
    let out = predict_4x4(Intra4x4Mode::Dc, &n).unwrap();
    for &v in &out {
        assert_eq!(v, 80);
    }
}

#[test]
fn h264_intra_dc_falls_back_to_128_when_no_neighbors() {
    let mut n = solid_neighbors(0);
    n.top_avail = false;
    n.left_avail = false;
    let out = predict_4x4(Intra4x4Mode::Dc, &n).unwrap();
    for &v in &out {
        assert_eq!(v, 128);
    }
}

#[test]
fn h264_intra_vertical_returns_none_without_top() {
    let mut n = solid_neighbors(0);
    n.top_avail = false;
    assert!(predict_4x4(Intra4x4Mode::Vertical, &n).is_none());
}

#[test]
fn ddr_solid_yields_solid() {
    let n = solid_neighbors(70);
    let out = predict_4x4(Intra4x4Mode::DiagonalDownRight, &n).unwrap();
    for &v in &out {
        assert_eq!(v, 70);
    }
}

#[test]
fn vr_solid_yields_solid() {
    let n = solid_neighbors(120);
    let out = predict_4x4(Intra4x4Mode::VerticalRight, &n).unwrap();
    for &v in &out {
        assert_eq!(v, 120);
    }
}

#[test]
fn hd_solid_yields_solid() {
    let n = solid_neighbors(60);
    let out = predict_4x4(Intra4x4Mode::HorizontalDown, &n).unwrap();
    for &v in &out {
        assert_eq!(v, 60);
    }
}

#[test]
fn vl_solid_yields_solid() {
    let n = solid_neighbors(200);
    let out = predict_4x4(Intra4x4Mode::VerticalLeft, &n).unwrap();
    for &v in &out {
        assert_eq!(v, 200);
    }
}

#[test]
fn hu_solid_yields_solid() {
    let n = solid_neighbors(30);
    let out = predict_4x4(Intra4x4Mode::HorizontalUp, &n).unwrap();
    for &v in &out {
        assert_eq!(v, 30);
    }
}

#[test]
fn ddr_returns_none_without_corner_neighbors() {
    let mut n = solid_neighbors(0);
    n.top_avail = false;
    assert!(predict_4x4(Intra4x4Mode::DiagonalDownRight, &n).is_none());
    let mut n = solid_neighbors(0);
    n.left_avail = false;
    assert!(predict_4x4(Intra4x4Mode::DiagonalDownRight, &n).is_none());
}

#[test]
fn ddl_is_diagonal_smoothing() {
    let mut n = solid_neighbors(0);
    n.top = [100, 100, 100, 100, 100, 100, 100, 100];
    let out = predict_4x4(Intra4x4Mode::DiagonalDownLeft, &n).unwrap();
    // Solid input → solid output (modulo the (3,3) tail-formula
    // which still averages to 100).
    for &v in &out {
        assert_eq!(v, 100);
    }
}

#[test]
fn half_diagonal_modes_cross_the_corner() {
    let step = Neighbors4x4 {
        top: [100; 8],
        left: [0; 4],
        top_left: 0,
        top_avail: true,
        left_avail: true,
        top_right_avail: true,
    };
    assert_eq!(
        predict_4x4(Intra4x4Mode::VerticalRight, &step),
        Some([50, 100, 100, 100, 25, 75, 100, 100, 0, 50, 100, 100, 0, 25, 75, 100])
    );
    let n = Neighbors4x4 {
        top: [10, 50, 90, 140, 7, 7, 7, 7],
        left: [200, 30, 170, 60],
        top_left: 120,
        top_avail: true,
        left_avail: true,
        top_right_avail: true,
    };
    assert_eq!(
        predict_4x4(Intra4x4Mode::VerticalRight, &n),
        Some([65, 30, 70, 115, 113, 48, 50, 93, 138, 65, 30, 70, 108, 113, 48, 50])
    );
    assert_eq!(
        predict_4x4(Intra4x4Mode::HorizontalDown, &n),
        Some([160, 113, 48, 50, 115, 138, 160, 113, 100, 108, 115, 138, 115, 108, 100, 108])
    );
}
