use conclave::h264_chroma_intra::{predict_chroma_8x8, ChromaIntraMode, ChromaNeighbors};

fn solid(v: u8) -> ChromaNeighbors {
    ChromaNeighbors {
        top: [v; 8],
        left: [v; 8],
        top_left: v,
        top_avail: true,
        left_avail: true,
    }
}

#[test]
fn vertical_replicates_top() {
    let mut n = solid(0);
    for i in 0..8 {
        n.top[i] = i as u8 * 32;
    }
    let out = predict_chroma_8x8(ChromaIntraMode::Vertical, &n).unwrap();
    for y in 0..8 {
        for x in 0..8 {
            assert_eq!(out[y * 8 + x], n.top[x]);
        }
    }
}

#[test]
fn horizontal_replicates_left() {
    let mut n = solid(0);
    for i in 0..8 {
        n.left[i] = i as u8 * 32;
    }
    let out = predict_chroma_8x8(ChromaIntraMode::Horizontal, &n).unwrap();
    for y in 0..8 {
        for x in 0..8 {
            assert_eq!(out[y * 8 + x], n.left[y]);
        }
    }
}

#[test]
fn dc_on_solid_is_solid() {
    let n = solid(64);
    let out = predict_chroma_8x8(ChromaIntraMode::Dc, &n).unwrap();
    for &v in &out {
        assert_eq!(v, 64);
    }
}

#[test]
fn dc_no_neighbors_is_128() {
    let mut n = solid(0);
    n.top_avail = false;
    n.left_avail = false;
    let out = predict_chroma_8x8(ChromaIntraMode::Dc, &n).unwrap();
    for &v in &out {
        assert_eq!(v, 128);
    }
}

#[test]
fn plane_on_flat_is_flat() {
    let n = solid(96);
    let out = predict_chroma_8x8(ChromaIntraMode::Plane, &n).unwrap();
    for &v in &out {
        assert_eq!(v, 96);
    }
}
