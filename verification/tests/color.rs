use conclave::color::{yuv420_to_bgra, yuv_to_bgra, ColorMatrix};

#[test]
fn black_yuv_is_black_rgb() {
    let p = yuv_to_bgra(16, 128, 128, ColorMatrix::Bt709);
    let r = (p >> 16) & 0xFF;
    let g = (p >> 8) & 0xFF;
    let b = p & 0xFF;
    assert!(r < 3 && g < 3 && b < 3, "got 0x{p:08X}");
}

#[test]
fn white_yuv_is_white_rgb() {
    let p = yuv_to_bgra(235, 128, 128, ColorMatrix::Bt709);
    let r = (p >> 16) & 0xFF;
    let g = (p >> 8) & 0xFF;
    let b = p & 0xFF;
    assert!(r > 250 && g > 250 && b > 250, "got 0x{p:08X}");
}

#[test]
fn red_chroma_pulls_red_high_bt601() {
    // High V, neutral U, mid Y → red.
    let p = yuv_to_bgra(82, 90, 240, ColorMatrix::Bt601);
    let r = (p >> 16) & 0xFF;
    let g = (p >> 8) & 0xFF;
    let b = p & 0xFF;
    assert!(r > g && r > b, "got R={r} G={g} B={b}");
}

#[test]
fn yuv420_solid_field_round_trips() {
    let w = 4u32;
    let h = 4u32;
    let cw = (w / 2) as usize;
    let ch = (h / 2) as usize;
    let y = vec![128u8; (w * h) as usize]; // grey
    let u = vec![128u8; cw * ch];
    let v = vec![128u8; cw * ch];
    let out = yuv420_to_bgra(w, h, &y, &u, &v, ColorMatrix::Bt709);
    // Grey should produce a neutral-ish output.
    for &p in &out {
        let r = (p >> 16) & 0xFF;
        let g = (p >> 8) & 0xFF;
        let b = p & 0xFF;
        let avg = (r + g + b) / 3;
        assert!(
            (r as i32 - avg as i32).abs() < 3
                && (g as i32 - avg as i32).abs() < 3
                && (b as i32 - avg as i32).abs() < 3,
            "expected grey-ish, got 0x{p:08X}"
        );
    }
}
