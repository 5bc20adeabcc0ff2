use wav1c::dct::{
    forward_dct_4x4, forward_dct_8x8, forward_transform_4x4, forward_transform_8x8, inv_dct4_1d,
    inv_dct8_1d, inverse_dct_4x4, inverse_dct_8x8, inverse_transform_4x4, inverse_transform_8x8,
    transpose_4x4, transpose_8x8, TxType,
};

#[test]
fn all_zero_4x4_produces_all_zero() {
    let input = [0i32; 16];
    let coeffs = forward_dct_4x4(&input);
    assert_eq!(coeffs, [0i32; 16]);
}

#[test]
fn all_zero_8x8_produces_all_zero() {
    let input = [0i32; 64];
    let coeffs = forward_dct_8x8(&input);
    assert_eq!(coeffs, [0i32; 64]);
}

#[test]
fn dc_only_4x4() {
    let input = [100i32; 16];
    let coeffs = forward_dct_4x4(&input);
    assert_ne!(coeffs[0], 0);
    for i in 1..16 {
        assert_eq!(coeffs[i], 0, "AC coefficient at {} should be zero", i);
    }
}

#[test]
fn dc_only_8x8() {
    let input = [50i32; 64];
    let coeffs = forward_dct_8x8(&input);
    assert_ne!(coeffs[0], 0);
    for i in 1..64 {
        assert_eq!(coeffs[i], 0, "AC coefficient at {} should be zero", i);
    }
}

#[test]
fn roundtrip_4x4_constant() {
    let original = [42i32; 16];
    let coeffs = forward_dct_4x4(&original);
    let recovered = inverse_dct_4x4(&coeffs);
    for i in 0..16 {
        assert!(
            (recovered[i] - original[i]).abs() <= 1,
            "pixel {} differs: original={}, recovered={}",
            i,
            original[i],
            recovered[i]
        );
    }
}

#[test]
fn roundtrip_8x8_constant() {
    let original = [42i32; 64];
    let coeffs = forward_dct_8x8(&original);
    let recovered = inverse_dct_8x8(&coeffs);
    for i in 0..64 {
        assert!(
            (recovered[i] - original[i]).abs() <= 1,
            "pixel {} differs: original={}, recovered={}",
            i,
            original[i],
            recovered[i]
        );
    }
}

#[test]
fn roundtrip_4x4_gradient() {
    let mut original = [0i32; 16];
    for i in 0..16 {
        original[i] = (i as i32) * 10;
    }
    let coeffs = forward_dct_4x4(&original);
    let recovered = inverse_dct_4x4(&coeffs);
    for i in 0..16 {
        assert!(
            (recovered[i] - original[i]).abs() <= 1,
            "pixel {} differs: original={}, recovered={}",
            i,
            original[i],
            recovered[i]
        );
    }
}

#[test]
fn roundtrip_8x8_gradient() {
    let mut original = [0i32; 64];
    for i in 0..64 {
        original[i] = (i as i32) * 3;
    }
    let coeffs = forward_dct_8x8(&original);
    let recovered = inverse_dct_8x8(&coeffs);
    for i in 0..64 {
        assert!(
            (recovered[i] - original[i]).abs() <= 1,
            "pixel {} differs: original={}, recovered={}",
            i,
            original[i],
            recovered[i]
        );
    }
}

#[test]
fn roundtrip_4x4_small_residual() {
    let original = [
        3, -1, 2, 0, -2, 1, -3, 4, 1, 0, -1, 2, -4, 3, 0, -2,
    ];
    let coeffs = forward_dct_4x4(&original);
    let recovered = inverse_dct_4x4(&coeffs);
    for i in 0..16 {
        assert!(
            (recovered[i] - original[i]).abs() <= 1,
            "pixel {} differs: original={}, recovered={}",
            i,
            original[i],
            recovered[i]
        );
    }
}

#[test]
fn roundtrip_8x8_small_residual() {
    let mut original = [0i32; 64];
    for i in 0..64 {
        original[i] = ((i as i32 * 7 + 3) % 11) - 5;
    }
    let coeffs = forward_dct_8x8(&original);
    let recovered = inverse_dct_8x8(&coeffs);
    for i in 0..64 {
        assert!(
            (recovered[i] - original[i]).abs() <= 1,
            "pixel {} differs: original={}, recovered={}",
            i,
            original[i],
            recovered[i]
        );
    }
}

#[test]
fn roundtrip_4x4_typical_residual() {
    let original = [
        -15, 8, -3, 12, 7, -20, 5, 1, -8, 14, -6, 3, 10, -2, 9, -11,
    ];
    let coeffs = forward_dct_4x4(&original);
    let recovered = inverse_dct_4x4(&coeffs);
    for i in 0..16 {
        assert!(
            (recovered[i] - original[i]).abs() <= 1,
            "pixel {} differs: original={}, recovered={}",
            i,
            original[i],
            recovered[i]
        );
    }
}

#[test]
fn roundtrip_8x8_typical_residual() {
    let mut original = [0i32; 64];
    for i in 0..64 {
        original[i] = ((i as i32 * 13 + 5) % 51) - 25;
    }
    let coeffs = forward_dct_8x8(&original);
    let recovered = inverse_dct_8x8(&coeffs);
    for i in 0..64 {
        assert!(
            (recovered[i] - original[i]).abs() <= 1,
            "pixel {} differs: original={}, recovered={}",
            i,
            original[i],
            recovered[i]
        );
    }
}

#[test]
fn roundtrip_4x4_large_values() {
    let original = [
        200, -150, 180, -100, 120, -200, 90, 50, -180, 160, -80, 140, 70, -120, 190, -60,
    ];
    let coeffs = forward_dct_4x4(&original);
    let recovered = inverse_dct_4x4(&coeffs);
    for i in 0..16 {
        assert!(
            (recovered[i] - original[i]).abs() <= 1,
            "pixel {} differs: original={}, recovered={}",
            i,
            original[i],
            recovered[i]
        );
    }
}

#[test]
fn roundtrip_8x8_large_values() {
    let mut original = [0i32; 64];
    for i in 0..64 {
        original[i] = ((i as i32 * 37 + 11) % 401) - 200;
    }
    let coeffs = forward_dct_8x8(&original);
    let recovered = inverse_dct_8x8(&coeffs);
    for i in 0..64 {
        assert!(
            (recovered[i] - original[i]).abs() <= 1,
            "pixel {} differs: original={}, recovered={}",
            i,
            original[i],
            recovered[i]
        );
    }
}

#[test]
fn forward_4x4_known_dc_value() {
    let input = [100i32; 16];
    let coeffs = forward_dct_4x4(&input);
    let scaled = 100 << 2;
    let row_dc = (scaled * 4 * 181 + 128) >> 8;
    let expected_dc = (row_dc * 4 * 181 + 128) >> 8;
    assert_eq!(coeffs[0], expected_dc);
}

#[test]
fn inverse_4x4_matches_dav1d_structure() {
    let coeffs = [100, 20, -10, 5, 30, -15, 8, -3, -5, 12, 0, -7, 18, -9, 4, -2];
    let result = inverse_dct_4x4(&coeffs);
    let mut buf = coeffs;
    transpose_4x4(&mut buf);
    for row in 0..4 {
        inv_dct4_1d(&mut buf, row * 4, 1);
    }
    for col in 0..4 {
        inv_dct4_1d(&mut buf, col, 4);
    }
    for i in 0..16 {
        assert_eq!(result[i], (buf[i] + 8) >> 4);
    }
}

#[test]
fn inverse_8x8_matches_dav1d_structure() {
    let mut coeffs = [0i32; 64];
    for i in 0..64 {
        coeffs[i] = ((i as i32 * 11 + 3) % 41) - 20;
    }
    let result = inverse_dct_8x8(&coeffs);
    let mut buf = coeffs;
    transpose_8x8(&mut buf);
    for row in 0..8 {
        inv_dct8_1d(&mut buf, row * 8, 1);
    }
    for i in 0..64 {
        buf[i] = (buf[i] + 1) >> 1;
    }
    for col in 0..8 {
        inv_dct8_1d(&mut buf, col, 8);
    }
    for i in 0..64 {
        assert_eq!(result[i], (buf[i] + 8) >> 4);
    }
}

#[test]
fn forward_8x8_known_dc_value() {
    let input = [50i32; 64];
    let coeffs = forward_dct_8x8(&input);
    assert_ne!(coeffs[0], 0);
    for i in 1..64 {
        assert_eq!(coeffs[i], 0, "AC coefficient at {} should be zero for constant input", i);
    }
}

#[test]
fn roundtrip_4x4_single_pixel() {
    let mut original = [0i32; 16];
    original[0] = 100;
    let coeffs = forward_dct_4x4(&original);
    let recovered = inverse_dct_4x4(&coeffs);
    for i in 0..16 {
        assert!(
            (recovered[i] - original[i]).abs() <= 1,
            "pixel {} differs: original={}, recovered={}",
            i,
            original[i],
            recovered[i]
        );
    }
}

#[test]
fn roundtrip_8x8_single_pixel() {
    let mut original = [0i32; 64];
    original[0] = 100;
    let coeffs = forward_dct_8x8(&original);
    let recovered = inverse_dct_8x8(&coeffs);
    for i in 0..64 {
        assert!(
            (recovered[i] - original[i]).abs() <= 1,
            "pixel {} differs: original={}, recovered={}",
            i,
            original[i],
            recovered[i]
        );
    }
}

#[test]
fn roundtrip_4x4_negative_values() {
    let original = [
        -50, -30, -10, -70, -20, -60, -40, -80, -5, -15, -25, -35, -45, -55, -65, -75,
    ];
    let coeffs = forward_dct_4x4(&original);
    let recovered = inverse_dct_4x4(&coeffs);
    for i in 0..16 {
        assert!(
            (recovered[i] - original[i]).abs() <= 1,
            "pixel {} differs: original={}, recovered={}",
            i,
            original[i],
            recovered[i]
        );
    }
}

#[test]
fn roundtrip_4x4_checkerboard() {
    let original = [
        100, -100, 100, -100, -100, 100, -100, 100, 100, -100, 100, -100, -100, 100, -100,
        100,
    ];
    let coeffs = forward_dct_4x4(&original);
    let recovered = inverse_dct_4x4(&coeffs);
    for i in 0..16 {
        assert!(
            (recovered[i] - original[i]).abs() <= 1,
            "pixel {} differs: original={}, recovered={}",
            i,
            original[i],
            recovered[i]
        );
    }
}

#[test]
fn roundtrip_8x8_checkerboard() {
    let mut original = [0i32; 64];
    for row in 0..8 {
        for col in 0..8 {
            original[row * 8 + col] = if (row + col) % 2 == 0 { 80 } else { -80 };
        }
    }
    let coeffs = forward_dct_8x8(&original);
    let recovered = inverse_dct_8x8(&coeffs);
    for i in 0..64 {
        assert!(
            (recovered[i] - original[i]).abs() <= 1,
            "pixel {} differs: original={}, recovered={}",
            i,
            original[i],
            recovered[i]
        );
    }
}

#[test]
fn adst4_round_trip() {
    let input = [0i32; 16];
    let fwd = forward_transform_4x4(&input, TxType::AdstAdst);
    assert_eq!(fwd, [0i32; 16]);

    let signal: [i32; 16] = [10, 20, 30, 40, 50, 60, 70, 80, 90, 100, 110, 120, 130, 140, 150, 160];
    let fwd = forward_transform_4x4(&signal, TxType::AdstAdst);
    let inv = inverse_transform_4x4(&fwd, TxType::AdstAdst);
    for i in 0..16 {
        assert!((signal[i] - inv[i]).abs() <= 1, "mismatch at {i}: {} vs {}", signal[i], inv[i]);
    }
}

#[test]
fn adst8_round_trip() {
    let input = [0i32; 64];
    let fwd = forward_transform_8x8(&input, TxType::AdstAdst);
    assert_eq!(fwd, [0i32; 64]);

    let mut signal = [0i32; 64];
    for i in 0..64 { signal[i] = (i as i32) * 3 - 90; }
    let fwd = forward_transform_8x8(&signal, TxType::AdstAdst);
    let inv = inverse_transform_8x8(&fwd, TxType::AdstAdst);
    for i in 0..64 {
        assert!((signal[i] - inv[i]).abs() <= 2, "mismatch at {i}: {} vs {}", signal[i], inv[i]);
    }
}

#[test]
fn identity4_round_trip() {
    let signal: [i32; 16] = [10, 20, 30, 40, 50, 60, 70, 80, 90, 100, 110, 120, 130, 140, 150, 160];
    let fwd = forward_transform_4x4(&signal, TxType::Idtx);
    let inv = inverse_transform_4x4(&fwd, TxType::Idtx);
    for i in 0..16 {
        assert!((signal[i] - inv[i]).abs() <= 1, "mismatch at {i}: {} vs {}", signal[i], inv[i]);
    }
}

#[test]
fn identity8_round_trip() {
    let mut signal = [0i32; 64];
    for i in 0..64 { signal[i] = (i as i32) * 2 - 60; }
    let fwd = forward_transform_8x8(&signal, TxType::Idtx);
    let inv = inverse_transform_8x8(&fwd, TxType::Idtx);
    for i in 0..64 {
        assert!((signal[i] - inv[i]).abs() <= 2, "mismatch at {i}: {} vs {}", signal[i], inv[i]);
    }
}

#[test]
fn mixed_adst_dct_round_trip() {
    let mut signal = [0i32; 64];
    for i in 0..64 { signal[i] = (i as i32) * 3 - 90; }
    for tx in [TxType::AdstDct, TxType::DctAdst] {
        let fwd = forward_transform_8x8(&signal, tx);
        let inv = inverse_transform_8x8(&fwd, tx);
        for i in 0..64 {
            assert!((signal[i] - inv[i]).abs() <= 2, "mismatch at {i} for {:?}: {} vs {}", tx, signal[i], inv[i]);
        }
    }
}

#[test]
fn dct_delegation_unchanged() {
    let signal: [i32; 16] = [10, 20, 30, 40, 50, 60, 70, 80, 90, 100, 110, 120, 130, 140, 150, 160];
    let old = forward_dct_4x4(&signal);
    let new = forward_transform_4x4(&signal, TxType::DctDct);
    assert_eq!(old, new);
}

