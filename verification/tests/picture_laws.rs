use conclave::color::{yuv_to_bgra, ColorMatrix};
use conclave::h264::{ebsp_to_rbsp, BitReader};
use conclave::h264_cavlc::ZIGZAG_4X4;
use conclave::h264_deblock::{filter_chroma_edge, filter_luma_edge};
use conclave::h264_dpb::{bi_predict_avg, Dpb, DpbEntry};
use conclave::h264_driver::{check_picture_size, decode_first_idr, DriverError};
use conclave::h264_idct::{add_residual_4x4, idct_4x4};
use conclave::h264_intra::{predict_4x4, Intra4x4Mode, Neighbors4x4};
use conclave::h264_mb_loop::Frame;
use conclave::h264_mc::interp_luma_qpel;
use conclave::h264_slice::SliceType;

#[test]
fn escaped_payloads_read_back() {
    // 0 0 1 and 0 0 0 cannot stand in a stream.
    let escaped = [7, 0, 0, 3, 1, 0, 0, 3, 0, 9];
    assert_eq!(ebsp_to_rbsp(&escaped), vec![7, 0, 0, 1, 0, 0, 0, 9]);
    let plain = [1, 2, 0, 0, 5, 0];
    assert_eq!(ebsp_to_rbsp(&plain), plain.to_vec());
}

#[test]
fn signed_codes_alternate() {
    // Codes 0 to 4 are 1, 010, 011, 00100 and 00101.
    let bytes = [0b1010_0110, 0b0100_0010, 0b1000_0000];
    let mut br = BitReader::new(&bytes);
    let values: Vec<i32> = (0..5).map(|_| br.read_se().expect("code")).collect();
    assert_eq!(values, vec![0, 1, -1, 2, -2]);
}

#[test]
fn readers_stop_at_the_end() {
    let bytes = [0xA5];
    let mut br = BitReader::new(&bytes);
    assert_eq!(br.read_bits(4), Some(0xA));
    assert_eq!(br.bits_left(), 4);
    assert_eq!(br.read_bits(5), None);
    let zeros = [0u8; 5];
    assert_eq!(BitReader::new(&zeros).read_ue(), None);
}

#[test]
fn the_scan_visits_every_position_once() {
    let mut seen = [false; 16];
    for i in ZIGZAG_4X4 {
        assert!(!seen[i as usize]);
        seen[i as usize] = true;
    }
    assert!(seen.iter().all(|s| *s));
}

#[test]
fn slice_types_come_twice() {
    for v in 0..5 {
        assert_eq!(SliceType::from_raw(v), SliceType::from_raw(v + 5));
    }
    assert_eq!(SliceType::from_raw(7), Some(SliceType::I));
}

#[test]
fn flat_lines_are_left_flat() {
    for bs in 0..=4 {
        let mut luma = [90u8; 8];
        filter_luma_edge(&mut luma, bs, 40, 0, 0);
        assert_eq!(luma, [90; 8]);
        let mut chroma = [90u8; 4];
        filter_chroma_edge(&mut chroma, bs, 40, 0, 0);
        assert_eq!(chroma, [90; 4]);
    }
}

#[test]
fn large_steps_and_outer_samples_are_kept() {
    let mut sharp = [0, 0, 0, 0, 255, 255, 255, 255];
    filter_luma_edge(&mut sharp, 4, 51, 0, 0);
    assert_eq!(sharp, [0, 0, 0, 0, 255, 255, 255, 255]);
    let mut soft = [10, 10, 10, 10, 14, 14, 14, 14];
    filter_luma_edge(&mut soft, 4, 40, 0, 0);
    assert_eq!((soft[0], soft[7]), (10, 14));
    assert_eq!(soft, [10, 11, 11, 12, 13, 13, 14, 14]);
}

#[test]
fn strong_filtering_is_the_same_from_both_sides() {
    let line = [10, 11, 12, 13, 17, 18, 18, 20];
    let mut forward = line;
    filter_luma_edge(&mut forward, 4, 40, 0, 0);
    let mut backward = line;
    backward.reverse();
    filter_luma_edge(&mut backward, 4, 40, 0, 0);
    backward.reverse();
    assert_eq!(forward, backward);
}

#[test]
fn modes_mirror_at_the_diagonal() {
    let n = Neighbors4x4 {
        top: [10, 20, 30, 40, 50, 60, 70, 80],
        left: [15, 25, 35, 45],
        top_left: 5,
        top_avail: true,
        left_avail: true,
        top_right_avail: true,
    };
    let t = Neighbors4x4 {
        top: [15, 25, 35, 45, 0, 0, 0, 0],
        left: [10, 20, 30, 40],
        ..n
    };
    let a = predict_4x4(Intra4x4Mode::VerticalRight, &n).expect("block");
    let b = predict_4x4(Intra4x4Mode::HorizontalDown, &t).expect("block");
    for y in 0..4 {
        for x in 0..4 {
            assert_eq!(a[y * 4 + x], b[x * 4 + y]);
        }
    }
    assert_eq!(Intra4x4Mode::from_raw(8), Some(Intra4x4Mode::HorizontalUp));
    assert_eq!(Intra4x4Mode::from_raw(9), None);
}

#[test]
fn a_lone_average_spreads_evenly() {
    let mut c = [0i32; 16];
    c[0] = 640;
    assert_eq!(idct_4x4(&c), [10; 16]);
    assert_eq!(add_residual_4x4(&[33; 16], &[0; 16]), [33; 16]);
}

#[test]
fn whole_offsets_copy_a_sample() {
    let mut rf = [[0u8; 9]; 9];
    for (y, row) in rf.iter_mut().enumerate() {
        for (x, v) in row.iter_mut().enumerate() {
            *v = (y * 9 + x) as u8;
        }
    }
    assert_eq!(interp_luma_qpel(&rf, 0, 0), rf[4][4]);
}

#[test]
fn averages_do_not_depend_on_order() {
    assert_eq!(bi_predict_avg(&[1, 200, 7], &[2, 100, 7]), vec![2, 150, 7]);
    assert_eq!(bi_predict_avg(&[2, 100, 7], &[1, 200, 7]), vec![2, 150, 7]);
}

#[test]
fn long_term_pictures_stay() {
    let picture = |frame_num: u32, poc: i32, short_term: bool| DpbEntry {
        frame_num,
        pic_order_cnt: poc,
        frame: Frame::new(16, 16),
        short_term,
    };
    let mut dpb = Dpb::new(2);
    assert!(dpb.is_empty());
    dpb.insert(picture(0, 0, false));
    dpb.insert(picture(1, 2, true));
    dpb.insert(picture(2, 4, true));
    assert_eq!(dpb.len(), 2);
    assert!(dpb.find_by_poc(0).is_some());
    assert!(dpb.find_by_poc(2).is_none());
    assert!(dpb.find_by_poc(4).is_some());
}

#[test]
fn grey_has_no_color() {
    for matrix in [ColorMatrix::Bt601, ColorMatrix::Bt709] {
        for y in 0..=255u8 {
            let p = yuv_to_bgra(y, 128, 128, matrix);
            assert_eq!((p >> 16) & 0xFF, p & 0xFF);
            assert_eq!((p >> 8) & 0xFF, p & 0xFF);
        }
        assert_eq!(yuv_to_bgra(16, 128, 128, matrix), 0xFF00_0000);
        assert_eq!(yuv_to_bgra(235, 128, 128, matrix), 0xFFFF_FFFF);
    }
}

#[test]
fn broken_parameter_sets_are_refused() {
    let stream = [0, 0, 0, 1, 0x67, 0, 0, 0, 1, 0x65, 0x80];
    assert!(check_picture_size(&stream));
    assert_eq!(decode_first_idr(&stream).unwrap_err(), DriverError::NoSps);
}
