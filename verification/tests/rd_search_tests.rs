use wav1c::dct::TxType;
use wav1c::directional::predict_directional_z1;
use wav1c::rd_search::{compute_rd_cost, select_best_intra_mode, select_best_txtype};
use wav1c::tile::DR_INTRA_DERIVATIVE;

const DC_DQ: u32 = 140;
const AC_DQ: u32 = 155;

#[test]
fn mode_selection_picks_dc_for_solid() {
    let above = [128u8; 8];
    let left = [128u8; 8];
    let block = [128u8; 64];
    let (mode, _) = select_best_intra_mode(&block, &above, &left, 128, true, true, 8, 8, DC_DQ, AC_DQ);
    assert_eq!(mode, 0);
}

#[test]
fn mode_selection_picks_v_for_vertical_pattern() {
    let above = [10u8, 20, 30, 40, 50, 60, 70, 80];
    let left = [128u8; 8];
    let mut block = [0u8; 64];
    for r in 0..8 {
        for c in 0..8 {
            block[r * 8 + c] = above[c];
        }
    }
    let (mode, _) = select_best_intra_mode(&block, &above, &left, 128, true, true, 8, 8, DC_DQ, AC_DQ);
    assert_eq!(mode, 1);
}

#[test]
fn mode_selection_picks_h_for_horizontal_pattern() {
    let above = [128u8; 8];
    let left = [10u8, 20, 30, 40, 50, 60, 70, 80];
    let mut block = [0u8; 64];
    for r in 0..8 {
        for c in 0..8 {
            block[r * 8 + c] = left[r];
        }
    }
    let (mode, _) = select_best_intra_mode(&block, &above, &left, 128, true, true, 8, 8, DC_DQ, AC_DQ);
    assert_eq!(mode, 2);
}

#[test]
fn rd_cost_zero_for_perfect_prediction() {
    let source = [128u8; 64];
    let prediction = [128u8; 64];
    let cost = compute_rd_cost(&source, &prediction, DC_DQ, AC_DQ, TxType::DctDct);
    assert_eq!(cost, 0);
}

#[test]
fn rd_cost_higher_for_worse_prediction() {
    let mut source = [0u8; 64];
    for r in 0..8 {
        for c in 0..8 {
            source[r * 8 + c] = (100 + r * 10 + c * 5) as u8;
        }
    }
    let good_pred = source;
    let mut bad_pred = [0u8; 64];
    for i in 0..64 {
        bad_pred[i] = 255 - source[i];
    }
    let good_cost = compute_rd_cost(&source, &good_pred, DC_DQ, AC_DQ, TxType::DctDct);
    let bad_cost = compute_rd_cost(&source, &bad_pred, DC_DQ, AC_DQ, TxType::DctDct);
    assert!(good_cost < bad_cost);
}

#[test]
fn mode_selection_considers_directional() {
    let mut above = [128u8; 16];
    let left = [128u8; 16];
    for (i, pixel) in above.iter_mut().enumerate() {
        *pixel = (i * 16).min(255) as u8;
    }
    let mut block = [0u8; 64];
    let dx = DR_INTRA_DERIVATIVE[22] as i32;
    let d45_pred = predict_directional_z1(&above, 8, 8, dx);
    block.copy_from_slice(&d45_pred);
    let (mode, _) = select_best_intra_mode(&block, &above, &left, 128, true, true, 8, 8, DC_DQ, AC_DQ);
    assert!((0..=12).contains(&mode));
}

#[test]
fn mode_selection_without_neighbours_is_dc() {
    let block: Vec<u8> = (0..64u8).collect();
    assert_eq!(select_best_intra_mode(&block, &[], &[], 0, false, false, 8, 8, DC_DQ, AC_DQ), (0, 0));
}

#[test]
fn rd_cost_of_flat_offset_counts_dc_coefficient() {
    let source = [100u8; 64];
    let prediction = [80u8; 64];
    let cost = compute_rd_cost(&source, &prediction, DC_DQ, AC_DQ, TxType::DctDct);
    let lambda = (AC_DQ as u64 * AC_DQ as u64) >> 2;
    assert!(cost >= lambda);
}

#[test]
fn best_txtype_for_perfect_prediction_is_dct() {
    let source = [77u8; 64];
    assert_eq!(select_best_txtype(&source, &source, DC_DQ, AC_DQ), TxType::DctDct);
}
