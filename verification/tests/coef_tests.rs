use wav1c::coef::{
    encode_transform_block, BASE_TOK_BASE, BR_TOK_BASE, CDF_COUNT, DC_SIGN_BASE, EOB_BASE_TOK_BASE,
    EOB_BIN_16_BASE, EOB_BIN_64_BASE, EOB_HI_BIT_BASE, TXTP_INTRA2_BASE,
};
use wav1c::dct::TxType;
use wav1c::msac::MsacEncoder;
use wav1c::scan::{DEFAULT_SCAN_4X4, DEFAULT_SCAN_8X8};

fn symbols_of(slot: usize) -> usize {
    if slot < TXTP_INTRA2_BASE {
        1
    } else if slot < EOB_BIN_64_BASE {
        4
    } else if slot < EOB_HI_BIT_BASE {
        6
    } else if slot < EOB_BASE_TOK_BASE {
        1
    } else if slot < BASE_TOK_BASE {
        2
    } else if slot < DC_SIGN_BASE {
        3
    } else {
        1
    }
}

fn uniform_context() -> Vec<Vec<u16>> {
    (0..CDF_COUNT)
        .map(|s| {
            let n = symbols_of(s);
            let mut c: Vec<u16> = (1..=n).map(|i| (32768 - 32768 * i / (n + 1)) as u16).collect();
            c.push(0);
            c
        })
        .collect()
}

fn all_zero_case() {
    let mut enc = MsacEncoder::new();
    let mut cdf = uniform_context();
    let coeffs = vec![0i32; 16];
    let (cul, dc_neg, dc_zero) =
        encode_transform_block(&mut enc, &mut cdf, &coeffs, &DEFAULT_SCAN_4X4, false, false, 0, 0, 0, 0, TxType::DctDct);
    assert_eq!(cul, 0);
    assert!(!dc_neg);
    assert!(dc_zero);
}

fn dc_only_case() {
    let mut enc = MsacEncoder::new();
    let mut cdf = uniform_context();
    let mut coeffs = vec![0i32; 64];
    coeffs[0] = 2;
    let (cul, dc_neg, dc_zero) =
        encode_transform_block(&mut enc, &mut cdf, &coeffs, &DEFAULT_SCAN_8X8, false, false, 1, 0, 0, 0, TxType::DctDct);
    assert!(cul > 0);
    assert!(!dc_neg);
    assert!(!dc_zero);
}

fn with_ac_case() {
    let mut enc = MsacEncoder::new();
    let mut cdf = uniform_context();
    let mut coeffs = vec![0i32; 64];
    coeffs[0] = 5;
    coeffs[1] = -2;
    coeffs[8] = 1;
    let (cul, _dc_neg, dc_zero) =
        encode_transform_block(&mut enc, &mut cdf, &coeffs, &DEFAULT_SCAN_8X8, false, false, 1, 0, 0, 0, TxType::DctDct);
    assert!(cul > 0);
    assert!(!dc_zero);
    let bytes = enc.finalize();
    assert!(!bytes.is_empty());
}

#[test]
fn encode_transform_block_all_zero() {
    all_zero_case();
}

#[test]
fn tile_encode_transform_block_all_zero() {
    all_zero_case();
}

#[test]
fn encode_transform_block_dc_only() {
    dc_only_case();
}

#[test]
fn tile_encode_transform_block_dc_only() {
    dc_only_case();
}

#[test]
fn encode_transform_block_with_ac() {
    with_ac_case();
}

#[test]
fn tile_encode_transform_block_with_ac() {
    with_ac_case();
}

#[test]
fn empty_block_codes_only_its_skip_flag() {
    let mut enc = MsacEncoder::new();
    let mut cdf = uniform_context();
    let coeffs = vec![0i32; 16];
    encode_transform_block(&mut enc, &mut cdf, &coeffs, &DEFAULT_SCAN_4X4, false, false, 2, 5, 0, 0, TxType::DctDct);
    let mut direct = MsacEncoder::new();
    let mut skip = vec![16384u16, 0];
    direct.encode_bool(true, &mut skip);
    assert_eq!(enc.finalize(), direct.finalize());
    assert_eq!(cdf[2 * 13 + 5], skip);
    assert_eq!(cdf[0], vec![16384u16, 0]);
}

#[test]
fn cumulative_level_sums_magnitudes_and_caps_at_63() {
    let mut coeffs = vec![0i32; 16];
    coeffs[0] = -3;
    coeffs[1] = 4;
    coeffs[4] = 2;
    let mut enc = MsacEncoder::new();
    let mut cdf = uniform_context();
    let r = encode_transform_block(&mut enc, &mut cdf, &coeffs, &DEFAULT_SCAN_4X4, true, false, 0, 0, 1, 0, TxType::DctDct);
    assert_eq!(r, (9, true, false));
    coeffs[5] = 100;
    let mut enc = MsacEncoder::new();
    let mut cdf = uniform_context();
    let r = encode_transform_block(&mut enc, &mut cdf, &coeffs, &DEFAULT_SCAN_4X4, false, true, 0, 0, 2, 0, TxType::DctDct);
    assert_eq!(r, (63, true, false));
}
