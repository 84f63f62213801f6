use conclave::h264_dpb::{bi_predict_avg, Dpb, DpbEntry};
use conclave::h264_mb_loop::Frame;

fn make_entry(frame_num: u32, poc: i32) -> DpbEntry {
    DpbEntry {
        frame_num,
        pic_order_cnt: poc,
        frame: Frame::new(16, 16),
        short_term: true,
    }
}

#[test]
fn insert_grows_within_capacity() {
    let mut dpb = Dpb::new(4);
    dpb.insert(make_entry(0, 0));
    dpb.insert(make_entry(1, 2));
    assert_eq!(dpb.len(), 2);
}

#[test]
fn insert_at_capacity_evicts_oldest_short_term() {
    let mut dpb = Dpb::new(2);
    dpb.insert(make_entry(0, 0));
    dpb.insert(make_entry(1, 2));
    dpb.insert(make_entry(2, 4));
    assert_eq!(dpb.len(), 2);
    // Oldest (frame_num=0) should be gone.
    assert!(dpb.find_by_poc(0).is_none());
    assert!(dpb.find_by_poc(2).is_some());
    assert!(dpb.find_by_poc(4).is_some());
}

#[test]
fn output_drains_in_poc_order_even_when_inserted_out_of_order() {
    let mut dpb = Dpb::new(8);
    // Real B-frame pattern: I0, P3, B1, B2 — decode order ≠
    // display order.
    dpb.insert(make_entry(0, 0)); // I
    dpb.insert(make_entry(1, 6)); // P
    dpb.insert(make_entry(2, 2)); // B
    dpb.insert(make_entry(3, 4)); // B
    // Display order should drain POC 0 → 2 → 4 → 6.
    let mut display = Vec::new();
    while let Some(e) = dpb.output_next() {
        display.push(e.pic_order_cnt);
    }
    assert_eq!(display, vec![0, 2, 4, 6]);
}

#[test]
fn bi_predict_averages_samples_with_rounding() {
    let p0 = vec![100u8; 16];
    let p1 = vec![120u8; 16];
    let out = bi_predict_avg(&p0, &p1);
    for &v in &out {
        // (100 + 120 + 1) >> 1 = 110
        assert_eq!(v, 110);
    }
}

#[test]
fn bi_predict_handles_uneven_average() {
    let p0 = vec![50u8; 4];
    let p1 = vec![51u8; 4];
    let out = bi_predict_avg(&p0, &p1);
    for &v in &out {
        // (50 + 51 + 1) >> 1 = 51 (rounded up)
        assert_eq!(v, 51);
    }
}
