use wav1c::tile::{
    eob_to_bin, gather_left_partition_prob, gather_top_partition_prob, predict_dc, predict_h,
    predict_paeth, predict_smooth, predict_v, TileContext, DR_INTRA_DERIVATIVE,
    INTRA_MODE_CONTEXT, SM_WEIGHTS,
};

#[test]
fn tile_sb_grid_calculations() {
    let w = 100u32;
    let h = 100u32;
    let mi_cols = 2 * w.div_ceil(8);
    let mi_rows = 2 * h.div_ceil(8);
    assert_eq!(mi_cols, 26);
    assert_eq!(mi_rows, 26);

    let sb_cols = mi_cols.div_ceil(16);
    let sb_rows = mi_rows.div_ceil(16);
    assert_eq!(sb_cols, 2);
    assert_eq!(sb_rows, 2);
}

#[test]
fn tile_partition_ctx_initial_is_zero() {
    let ctx = TileContext::new(16);
    assert_eq!(ctx.partition_ctx(0, 0, 1), 0);
}

#[test]
fn tile_partition_ctx_updates_correctly() {
    let mut ctx = TileContext::new(32);
    ctx.update_partition_ctx(0, 0, 2, 32, 32);
    let ctx_at_bl1 = ctx.partition_ctx(0, 0, 1);
    assert_eq!(ctx_at_bl1, 3);
}

#[test]
fn tile_skip_ctx_updates() {
    let mut ctx = TileContext::new(32);
    assert_eq!(ctx.skip_ctx(0, 0), 0);
    ctx.update_skip_ctx(0, 0, 1, 32, 32, true);
    assert!(ctx.skip_ctx(0, 0) > 0);
}

#[test]
fn tile_gather_top_partition_prob_returns_valid() {
    let pc = [
        12631u16, 11221, 9690, 3202, 2931, 2507, 2244, 1876, 1044, 0, 0, 0, 0, 0, 0, 0,
    ];
    let prob = gather_top_partition_prob(&pc, 1);
    assert!(prob > 0);
}

#[test]
fn tile_gather_left_partition_prob_returns_valid() {
    let pc = [
        12631u16, 11221, 9690, 3202, 2931, 2507, 2244, 1876, 1044, 0, 0, 0, 0, 0, 0, 0,
    ];
    let prob = gather_left_partition_prob(&pc, 1);
    assert!(prob > 0);
}

#[test]
fn tile_dc_prediction_no_neighbors() {
    let ctx = TileContext::new(32);
    assert_eq!(ctx.dc_prediction(0, 0, 1, 0), 128);
}

#[test]
fn tile_dc_prediction_top_only() {
    let mut ctx = TileContext::new(32);
    for i in 0..8 {
        ctx.above_recon_y[i] = 200;
    }
    assert_eq!(ctx.dc_prediction(0, 2, 4, 0), 200);
}

#[test]
fn tile_dc_prediction_both() {
    let mut ctx = TileContext::new(32);
    for i in 0..8 {
        ctx.above_recon_y[8 + i] = 200;
    }
    for i in 0..8 {
        ctx.left_recon_y[8 + i] = 100;
    }
    assert_eq!(ctx.dc_prediction(2, 2, 4, 0), 150);
}

#[test]
fn tile_is_inter_ctx_no_neighbors() {
    let ctx = TileContext::new(32);
    assert_eq!(ctx.is_inter_ctx(0, 0), 0);
}

#[test]
fn tile_is_inter_ctx_both_intra_neighbors() {
    let mut ctx = TileContext::new(32);
    ctx.above_intra[2] = true;
    ctx.left_intra[2] = true;
    assert_eq!(ctx.is_inter_ctx(2, 2), 3);
}

#[test]
fn tile_is_inter_ctx_both_inter_neighbors() {
    let mut ctx = TileContext::new(32);
    ctx.above_intra[2] = false;
    ctx.left_intra[2] = false;
    assert_eq!(ctx.is_inter_ctx(2, 2), 0);
}

#[test]
fn tile_is_inter_ctx_one_intra_neighbor() {
    let mut ctx = TileContext::new(32);
    ctx.above_intra[2] = true;
    ctx.left_intra[2] = false;
    assert_eq!(ctx.is_inter_ctx(2, 2), 1);
}

#[test]
fn tile_is_inter_ctx_top_only_inter() {
    let ctx = TileContext::new(32);
    assert_eq!(ctx.is_inter_ctx(0, 2), 0);
}

#[test]
fn tile_is_inter_ctx_top_only_intra() {
    let mut ctx = TileContext::new(32);
    ctx.above_intra[0] = true;
    assert_eq!(ctx.is_inter_ctx(0, 2), 2);
}

#[test]
fn tile_newmv_ctx_no_neighbors() {
    let ctx = TileContext::new(32);
    assert_eq!(ctx.newmv_ctx(0, 0), 0);
}

#[test]
fn tile_newmv_ctx_left_only() {
    let mut ctx = TileContext::new(32);
    ctx.above_intra[16] = false;
    ctx.left_intra[0] = false;
    assert_eq!(ctx.newmv_ctx(16, 0), 3);
}

#[test]
fn tile_newmv_ctx_top_only() {
    let ctx = TileContext::new(32);
    assert_eq!(ctx.newmv_ctx(0, 16), 3);
}

#[test]
fn tile_newmv_ctx_both_neighbors() {
    let ctx = TileContext::new(64);
    assert_eq!(ctx.newmv_ctx(16, 16), 5);
}

#[test]
fn tile_newmv_ctx_intra_neighbor_not_counted() {
    let mut ctx = TileContext::new(64);
    ctx.above_intra[16] = true;
    assert_eq!(ctx.newmv_ctx(16, 16), 3);
}

#[test]
fn newmv_ctx_neighbor_used_newmv_one_side() {
    let mut ctx = TileContext::new(64);
    ctx.above_newmv[16] = true;
    assert_eq!(ctx.newmv_ctx(16, 16), 4);
}

#[test]
fn newmv_ctx_neighbor_used_newmv_both_sides() {
    let mut ctx = TileContext::new(64);
    ctx.above_newmv[16] = true;
    ctx.left_newmv[16] = true;
    assert_eq!(ctx.newmv_ctx(16, 16), 4);
}

#[test]
fn newmv_ctx_neighbor_used_newmv_left_only() {
    let mut ctx = TileContext::new(32);
    ctx.above_intra[16] = false;
    ctx.left_intra[0] = false;
    ctx.left_newmv[0] = true;
    assert_eq!(ctx.newmv_ctx(16, 0), 2);
}

#[test]
fn tile_eob_to_bin_values() {
    assert_eq!(eob_to_bin(0), 0);
    assert_eq!(eob_to_bin(1), 1);
    assert_eq!(eob_to_bin(2), 2);
    assert_eq!(eob_to_bin(3), 2);
    assert_eq!(eob_to_bin(4), 3);
    assert_eq!(eob_to_bin(7), 3);
    assert_eq!(eob_to_bin(8), 4);
    assert_eq!(eob_to_bin(15), 4);
    assert_eq!(eob_to_bin(16), 5);
    assert_eq!(eob_to_bin(31), 5);
    assert_eq!(eob_to_bin(32), 6);
    assert_eq!(eob_to_bin(63), 6);
}

#[test]
fn intra_mode_context_mapping() {
    assert_eq!(INTRA_MODE_CONTEXT[0], 0);
    assert_eq!(INTRA_MODE_CONTEXT[1], 1);
    assert_eq!(INTRA_MODE_CONTEXT[2], 2);
    assert_eq!(INTRA_MODE_CONTEXT[9], 0);
    assert_eq!(INTRA_MODE_CONTEXT[10], 1);
    assert_eq!(INTRA_MODE_CONTEXT[11], 2);
    assert_eq!(INTRA_MODE_CONTEXT[12], 0);
}

#[test]
fn smooth_weights_correct_for_size_4() {
    assert_eq!(SM_WEIGHTS[4], 255);
    assert_eq!(SM_WEIGHTS[5], 149);
    assert_eq!(SM_WEIGHTS[6], 85);
    assert_eq!(SM_WEIGHTS[7], 64);
}

#[test]
fn smooth_weights_correct_for_size_8() {
    assert_eq!(SM_WEIGHTS[8], 255);
    assert_eq!(SM_WEIGHTS[9], 197);
    assert_eq!(SM_WEIGHTS[14], 37);
    assert_eq!(SM_WEIGHTS[15], 32);
}

#[test]
fn v_pred_copies_above_row() {
    let above = [10u8, 20, 30, 40];
    let result = predict_v(&above, 4, 4);
    for r in 0..4 {
        for c in 0..4 {
            assert_eq!(result[r * 4 + c], above[c]);
        }
    }
}

#[test]
fn h_pred_copies_left_column() {
    let left = [50u8, 60, 70, 80];
    let result = predict_h(&left, 4, 4);
    for r in 0..4 {
        for c in 0..4 {
            assert_eq!(result[r * 4 + c], left[r]);
        }
    }
}

#[test]
fn paeth_pred_uniform_neighbors() {
    let above = [100u8; 8];
    let left = [100u8; 8];
    let result = predict_paeth(&above, &left, 100, 8, 8);
    for &p in &result {
        assert_eq!(p, 100);
    }
}

#[test]
fn paeth_pred_vertical_edge() {
    let above = [200u8; 4];
    let left = [100u8; 4];
    let result = predict_paeth(&above, &left, 100, 4, 4);
    for &p in &result {
        assert_eq!(p, 200);
    }
}

#[test]
fn smooth_pred_corners() {
    let above = [255u8, 255, 255, 255];
    let left = [0u8, 0, 0, 0];
    let result = predict_smooth(&above, &left, 4, 4);
    assert_eq!(result[0], 128);
}

#[test]
fn dc_pred_block_matches_scalar() {
    let above = [100u8, 120, 140, 160, 100, 120, 140, 160];
    let left = [80u8, 90, 100, 110, 80, 90, 100, 110];
    let result = predict_dc(&above, &left, true, true, 8, 8);
    let expected = {
        let sum: u32 = above.iter().chain(left.iter()).map(|&x| x as u32).sum();
        ((sum + 8) / 16) as u8
    };
    for &p in &result {
        assert_eq!(p, expected);
    }
}

#[test]
fn mode_context_initialized_to_dc() {
    let ctx = TileContext::new(16);
    for &m in &ctx.above_mode {
        assert_eq!(m, 0);
    }
    for &m in &ctx.left_mode {
        assert_eq!(m, 0);
    }
}

#[test]
fn dr_intra_derivative_key_values() {
    assert_eq!(DR_INTRA_DERIVATIVE[22], 64);
    assert_eq!(DR_INTRA_DERIVATIVE[33], 27);
    assert_eq!(DR_INTRA_DERIVATIVE[11], 151);
}
