use wav1c::motion::{
    add_candidate, decompose_mv_diff, extract_block, get_drl_context, interpolate_block, motion_search_block,
    predict_mv, subpel_refine, BlockMv, MvCandidate,
};

#[test]
fn mv_diff_decompose_one_pixel() {
    let (cl, up, fp) = decompose_mv_diff(8);
    assert_eq!((cl, up, fp), (0, 0, 3));
}

#[test]
fn mv_diff_decompose_two_pixels() {
    let (cl, up, fp) = decompose_mv_diff(16);
    assert_eq!((cl, up, fp), (0, 1, 3));
}

#[test]
fn mv_diff_decompose_three_pixels() {
    let (cl, up, fp) = decompose_mv_diff(24);
    assert_eq!((cl, up, fp), (1, 2, 3));
}

#[test]
fn mv_diff_roundtrip() {
    for diff in (2u32..=128).step_by(2) {
        let (cl, up, fp) = decompose_mv_diff(diff);
        let _ = cl;
        let reconstructed = ((up << 3) | (fp << 1) | 1) + 1;
        assert_eq!(reconstructed, diff, "diff={diff}");
    }
}

#[test]
fn mv_diff_class_of_large_integer_parts() {
    assert_eq!(decompose_mv_diff(1), (0, 0, 0));
    assert_eq!(decompose_mv_diff(8 * 7 + 1), (2, 7, 0));
    assert_eq!(decompose_mv_diff(8 * 1024 + 1), (10, 1024, 0));
}

#[test]
fn motion_search_finds_shifted_block() {
    let mut reference = vec![128u8; 64 * 64];
    for r in 10..18 {
        for c in 14..22 {
            reference[r * 64 + c] = 200;
        }
    }
    let mut source = vec![128u8; 64 * 64];
    for r in 10..18 {
        for c in 10..18 {
            source[r * 64 + c] = 200;
        }
    }
    let (dx, dy) = motion_search_block(&source, &reference, 64, 64, 10, 10, 8);
    assert_eq!((dx, dy), (4, 0));
}

#[test]
fn motion_search_zero_when_same() {
    let reference = vec![200u8; 64 * 64];
    let source = vec![200u8; 64 * 64];
    let (dx, dy) = motion_search_block(&source, &reference, 64, 64, 10, 10, 8);
    assert_eq!((dx, dy), (0, 0));
}

#[test]
fn motion_search_block_outside_frame_gives_zero() {
    let reference = vec![0u8; 16 * 16];
    let source = vec![255u8; 16 * 16];
    assert_eq!(motion_search_block(&source, &reference, 16, 16, 12, 0, 8), (0, 0));
}

#[test]
fn motion_search_prefers_shorter_vector_on_ties() {
    let reference = vec![90u8; 64 * 64];
    let mut source = vec![90u8; 64 * 64];
    source[20 * 64 + 20] = 91;
    assert_eq!(motion_search_block(&source, &reference, 64, 64, 16, 16, 8), (0, 0));
}

#[test]
fn mv_prediction_no_neighbors() {
    let mi_cols = 10u32;
    let mi_rows = 10u32;
    let block_mvs = vec![BlockMv::default(); (mi_cols * mi_rows) as usize];
    let (px, py, cands) = predict_mv(&block_mvs, mi_cols, mi_rows, 0, 0);
    assert_eq!((px, py), (0, 0));
    assert!(cands.is_empty());
}

#[test]
fn mv_prediction_from_left_neighbor() {
    let mi_cols = 10u32;
    let mi_rows = 10u32;
    let mut block_mvs = vec![BlockMv::default(); (mi_cols * mi_rows) as usize];
    for row in 2..4u32 {
        for col in 0..2u32 {
            let idx = (row * mi_cols + col) as usize;
            block_mvs[idx] = BlockMv { mv_x: 16, mv_y: 8, ref_frame: 0 };
        }
    }
    let (px, py, _) = predict_mv(&block_mvs, mi_cols, mi_rows, 2, 2);
    assert_eq!((px, py), (16, 8));
}

#[test]
fn mv_prediction_from_above_neighbor() {
    let mi_cols = 10u32;
    let mi_rows = 10u32;
    let mut block_mvs = vec![BlockMv::default(); (mi_cols * mi_rows) as usize];
    for row in 0..2u32 {
        for col in 2..4u32 {
            let idx = (row * mi_cols + col) as usize;
            block_mvs[idx] = BlockMv { mv_x: 24, mv_y: -16, ref_frame: 0 };
        }
    }
    let (px, py, _) = predict_mv(&block_mvs, mi_cols, mi_rows, 2, 2);
    assert_eq!((px, py), (24, -16));
}

#[test]
fn mv_prediction_weights_and_orders_candidates() {
    let mi_cols = 10u32;
    let mi_rows = 10u32;
    let mut block_mvs = vec![BlockMv::default(); (mi_cols * mi_rows) as usize];
    block_mvs[(mi_cols + 2) as usize] = BlockMv { mv_x: 8, mv_y: 0, ref_frame: 0 };
    block_mvs[(2 * mi_cols + 1) as usize] = BlockMv { mv_x: 4, mv_y: 4, ref_frame: 0 };
    block_mvs[(3 * mi_cols + 1) as usize] = BlockMv { mv_x: 4, mv_y: 4, ref_frame: 0 };
    let (px, py, cands) = predict_mv(&block_mvs, mi_cols, mi_rows, 2, 2);
    assert_eq!((px, py), (4, 4));
    assert_eq!(
        cands,
        vec![MvCandidate { mv_x: 4, mv_y: 4, weight: 644 }, MvCandidate { mv_x: 8, mv_y: 0, weight: 642 }]
    );
}

#[test]
fn add_candidate_merges_equal_vectors() {
    let mut cands = Vec::new();
    add_candidate(&mut cands, 1, 2, 2);
    add_candidate(&mut cands, 3, 4, 2);
    add_candidate(&mut cands, 1, 2, 5);
    assert_eq!(cands, vec![MvCandidate { mv_x: 1, mv_y: 2, weight: 7 }, MvCandidate { mv_x: 3, mv_y: 4, weight: 2 }]);
}

#[test]
fn drl_context_computation() {
    let cands = vec![MvCandidate { mv_x: 8, mv_y: 0, weight: 644 }, MvCandidate { mv_x: 16, mv_y: 0, weight: 642 }];
    assert_eq!(get_drl_context(&cands, 0), 0);

    let cands2 = vec![MvCandidate { mv_x: 8, mv_y: 0, weight: 644 }, MvCandidate { mv_x: 16, mv_y: 0, weight: 4 }];
    assert_eq!(get_drl_context(&cands2, 0), 1);

    let single = vec![MvCandidate { mv_x: 8, mv_y: 0, weight: 644 }];
    assert_eq!(get_drl_context(&single, 0), 2);
}

#[test]
fn drl_context_without_boost() {
    let cands = vec![MvCandidate { mv_x: 8, mv_y: 0, weight: 4 }, MvCandidate { mv_x: 16, mv_y: 0, weight: 2 }];
    assert_eq!(get_drl_context(&cands, 0), 2);
    let cands2 = vec![MvCandidate { mv_x: 8, mv_y: 0, weight: 4 }, MvCandidate { mv_x: 16, mv_y: 0, weight: 700 }];
    assert_eq!(get_drl_context(&cands2, 0), 0);
}

#[test]
fn extract_block_repeats_frame_edges() {
    let plane: Vec<u8> = (0..16u8).collect();
    let block = extract_block(&plane, 4, 2, 2, 4, 4, 4);
    assert_eq!(block, vec![10, 11, 11, 11, 14, 15, 15, 15, 14, 15, 15, 15, 14, 15, 15, 15]);
}

#[test]
fn interpolate_block_whole_pixel_is_a_copy() {
    let reference: Vec<u8> = (0..64u8).map(|v| v * 3).collect();
    let out = interpolate_block(&reference, 8, 8, 1, 2, 0, 0, 4);
    let mut want = Vec::new();
    for r in 0..4 {
        for c in 0..4 {
            want.push(reference[(2 + r) * 8 + 1 + c]);
        }
    }
    assert_eq!(out, want);
}

#[test]
fn interpolate_block_flat_reference_stays_flat() {
    let reference = vec![77u8; 32 * 32];
    for (px, py) in [(3u32, 0u32), (0, 5), (2, 6)] {
        let out = interpolate_block(&reference, 32, 32, 4, 4, px, py, 8);
        assert!(out.iter().all(|&v| v == 77));
    }
}

#[test]
fn interpolate_block_half_pixel_between_columns() {
    let mut reference = vec![0u8; 16 * 16];
    for r in 0..16 {
        for c in 8..16 {
            reference[r * 16 + c] = 128;
        }
    }
    let out = interpolate_block(&reference, 16, 16, 7, 4, 4, 0, 4);
    assert_eq!(out[0], 64);
}

#[test]
fn subpel_refine_keeps_exact_match() {
    let mut frame = vec![0u8; 32 * 32];
    for (i, v) in frame.iter_mut().enumerate() {
        *v = ((i * 7) % 251) as u8;
    }
    assert_eq!(subpel_refine(&frame, &frame, 32, 32, 8, 8, 8, 0, 0), (0, 0));
}
