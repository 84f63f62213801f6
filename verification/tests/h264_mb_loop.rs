use conclave::h264_chroma_intra::ChromaIntraMode;
use conclave::h264_intra16::Intra16x16Mode;
use conclave::h264_mb_loop::{decode_macroblock, Frame, MbParams};

#[test]
fn zero_residual_dc_mb_yields_solid_dc_value() {
    // 16x16 frame, 1x1 macroblocks. With no neighbors and zero
    // residuals, Intra_16x16 DC defaults to 128 → solid block.
    let mut frame = Frame::new(16, 16);
    let zero_luma = [[0i32; 16]; 16];
    let zero_chroma = [[0i32; 16]; 4];
    let params = MbParams {
        luma_mode: Intra16x16Mode::Dc,
        chroma_mode: ChromaIntraMode::Dc,
        luma_residuals: &zero_luma,
        chroma_residuals_cb: &zero_chroma,
        chroma_residuals_cr: &zero_chroma,
    };
    decode_macroblock(&mut frame, 0, 0, &params).unwrap();
    for &p in &frame.y {
        assert_eq!(p, 128);
    }
    for &p in &frame.cb {
        assert_eq!(p, 128);
    }
    for &p in &frame.cr {
        assert_eq!(p, 128);
    }
}

#[test]
fn vertical_mode_replicates_top_after_seed() {
    // 16x32: two MB rows. Seed the top row of pixels with a known
    // gradient before decoding MB(0,1), then verify Vertical
    // prediction replicates it down.
    let mut frame = Frame::new(16, 32);
    // Manually set top MB's bottom-row pixels (which become MB(0,1)'s
    // top neighbor).
    for x in 0..16 {
        frame.y[15 * 16 + x] = x as u8 * 8;
    }
    let zero_luma = [[0i32; 16]; 16];
    let zero_chroma = [[0i32; 16]; 4];
    let params = MbParams {
        luma_mode: Intra16x16Mode::Vertical,
        chroma_mode: ChromaIntraMode::Dc,
        luma_residuals: &zero_luma,
        chroma_residuals_cb: &zero_chroma,
        chroma_residuals_cr: &zero_chroma,
    };
    decode_macroblock(&mut frame, 0, 1, &params).unwrap();
    // Every row of MB(0,1) (rows 16..32) should match the seed.
    for y in 16..32 {
        for x in 0..16 {
            assert_eq!(frame.y[y * 16 + x], x as u8 * 8);
        }
    }
}

#[test]
fn add_residual_brightens_dc_block() {
    let mut frame = Frame::new(16, 16);
    // Inject a non-zero DC residual into sub-block (0,0): one
    // coefficient at position 0 worth +320 (so post-(+32 >> 6)
    // → +5 per pixel).
    let mut luma = [[0i32; 16]; 16];
    luma[0][0] = 5 * 64;
    let zero_chroma = [[0i32; 16]; 4];
    let params = MbParams {
        luma_mode: Intra16x16Mode::Dc,
        chroma_mode: ChromaIntraMode::Dc,
        luma_residuals: &luma,
        chroma_residuals_cb: &zero_chroma,
        chroma_residuals_cr: &zero_chroma,
    };
    decode_macroblock(&mut frame, 0, 0, &params).unwrap();
    // Sub-block (0,0) is the top-left 4x4. It should be 128 + 5 = 133.
    for y in 0..4 {
        for x in 0..4 {
            assert_eq!(frame.y[y * 16 + x], 133);
        }
    }
    // Other sub-blocks stay at DC=128.
    assert_eq!(frame.y[5 * 16 + 5], 128);
}
