use wav1c::satd::{compute_satd, hadamard_4x4};

#[test]
fn test_compute_satd_identical() {
    let src = [0u8; 64];
    let pred = [0u8; 64];
    assert_eq!(compute_satd(&src, &pred, 8, 8, 8, 8), 0);
}

#[test]
fn test_compute_satd_diff() {
    let mut src = [0u8; 16];
    let pred = [0u8; 16];
    src[0] = 10;
    src[1] = 10;
    let satd = compute_satd(&src, &pred, 4, 4, 4, 4);
    assert!(satd > 0);
}

#[test]
fn hadamard_of_dc_block_is_dc_only() {
    let residual = [1i32; 16];
    let out = hadamard_4x4(&residual, 4);
    assert_eq!(out[0], 16);
    assert!(out[1..].iter().all(|&v| v == 0));
}

#[test]
fn satd_of_single_difference() {
    let mut src = [0u8; 16];
    let pred = [0u8; 16];
    src[0] = 4;
    assert_eq!(compute_satd(&src, &pred, 4, 4, 4, 4), 32);
}
