use conclave::h264_idct::{add_residual_4x4, idct_4x4};

#[test]
fn idct_of_all_zero_is_all_zero() {
    let c = [0i32; 16];
    let out = idct_4x4(&c);
    assert_eq!(out, [0i32; 16]);
}

#[test]
fn idct_recovers_dc_only_block() {
    // Forward DC of value V is 16*V (sum). After scaling by Qstep
    // we'd typically see the spec scale factors, but if we
    // inject a pure DC coefficient that already represents the
    // post-quant value V*64, idct should yield V at every pixel.
    let mut c = [0i32; 16];
    c[0] = 5 * 64; // 5 per pixel, pre-(+32 >> 6)
    let out = idct_4x4(&c);
    for &v in &out {
        assert_eq!(v, 5);
    }
}

#[test]
fn add_residual_saturates() {
    let pred = [250u8; 16];
    let mut residual = [20i32; 16];
    residual[0] = -300; // would underflow
    let out = add_residual_4x4(&pred, &residual);
    assert_eq!(out[0], 0);
    for i in 1..16 {
        assert_eq!(out[i], 255);
    }
}
