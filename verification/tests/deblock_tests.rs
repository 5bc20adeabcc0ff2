use wav1c::deblock::{
    apply_loop_filter, calc_e, calc_i, loop_filter_edge, loop_filter_params_for_qidx, qp_to_filter_level,
    LoopFilterParams,
};
use wav1c::y4m::FramePixels;

#[test]
fn zero_qp_returns_zero_level() {
    let lfp = loop_filter_params_for_qidx(0);
    assert_eq!(lfp.y_vert_level, 0);
    assert_eq!(lfp.y_horiz_level, 0);
}

#[test]
fn high_qp_returns_nonzero_level() {
    let lfp = loop_filter_params_for_qidx(128);
    assert!(lfp.y_vert_level > 0, "level should be non-zero for QP=128");
    assert!(lfp.y_vert_level <= 63);
}

#[test]
fn level_increases_with_qp() {
    let l1 = loop_filter_params_for_qidx(64).y_vert_level;
    let l2 = loop_filter_params_for_qidx(128).y_vert_level;
    let l3 = loop_filter_params_for_qidx(200).y_vert_level;
    assert!(l2 > l1, "level should increase QP=64→128");
    assert!(l3 > l2, "level should increase QP=128→200");
}

#[test]
fn eih_matches_dav1d_for_sharpness_zero() {
    // For sharpness=0 and level L: I = max(L, 1), E = 2*(L+2) + max(L, 1)
    // For L=37: I=37, E=2*39+37=115
    assert_eq!(calc_i(37, 0), 37);
    assert_eq!(calc_e(37, 0), 115);
    assert_eq!(calc_i(1, 0), 1);
    assert_eq!(calc_e(1, 0), 2 * 3 + 1);
}

#[test]
fn apply_loop_filter_no_op_for_zero_levels() {
    let mut frame = FramePixels::solid(64, 64, 128, 128, 128);
    let copy = frame.clone();
    let lfp = LoopFilterParams {
        y_vert_level: 0,
        y_horiz_level: 0,
        uv_vert_level: 0,
        uv_horiz_level: 0,
        sharpness: 0,
        delta_enabled: false,
        delta_update: false,
    };
    apply_loop_filter(&mut frame, &lfp);
    assert_eq!(frame.y, copy.y);
}

#[test]
fn apply_loop_filter_modifies_pixels_near_edge() {
    let mut frame = FramePixels::solid(64, 64, 128, 128, 128);
    for y in 0..64 {
        for x in 0..32 {
            frame.y[y * 64 + x] = 64;
        }
    }
    let original: Vec<u16> = frame.y.clone();
    let lfp = LoopFilterParams {
        y_vert_level: 30,
        y_horiz_level: 30,
        uv_vert_level: 30,
        uv_horiz_level: 30,
        sharpness: 0,
        delta_enabled: true,
        delta_update: false,
    };
    apply_loop_filter(&mut frame, &lfp);
    assert_ne!(
        frame.y, original,
        "filter should modify pixels near a block edge"
    );
}

#[test]
fn qp_to_filter_level_boundaries() {
    assert_eq!(qp_to_filter_level(0), 0);
    assert_eq!(qp_to_filter_level(4), 0);
    assert!(qp_to_filter_level(8) > 0);
    assert!(qp_to_filter_level(255) <= 63);
}


#[test]
fn flat_row_survives_six_wide_filter() {
    let mut plane = [100u16; 8];
    loop_filter_edge(&mut plane, 8, 4, 0, false, 115, 37, 2, 6, 255, 0);
    assert_eq!(plane, [100u16; 8]);
}

#[test]
fn six_wide_filter_smooths_a_small_step() {
    // p2 p1 p0 | q0 q1 q2 = 100 100 100 | 104 104 104
    let mut plane = [100u16, 100, 100, 100, 104, 104, 104, 104];
    loop_filter_edge(&mut plane, 8, 4, 0, false, 115, 37, 2, 6, 255, 0);
    // p1 = (300 + 200 + 200 + 104 + 4) >> 3 = 101, p0 = (100 + 200 + 200 + 208 + 104 + 4) >> 3 = 102,
    // q0 = (100 + 200 + 208 + 208 + 104 + 4) >> 3 = 103, q1 = (100 + 208 + 208 + 312 + 4) >> 3 = 104
    assert_eq!(plane, [100u16, 100, 101, 102, 103, 104, 104, 104]);
}

#[test]
fn zero_levels_ignore_sharpness() {
    let mut frame = FramePixels::solid(16, 16, 128, 128, 128);
    let copy = frame.clone();
    let lfp = LoopFilterParams {
        y_vert_level: 0,
        y_horiz_level: 0,
        uv_vert_level: 0,
        uv_horiz_level: 0,
        sharpness: 200,
        delta_enabled: false,
        delta_update: false,
    };
    apply_loop_filter(&mut frame, &lfp);
    assert_eq!(frame.y, copy.y);
    assert_eq!(frame.u, copy.u);
}

#[test]
fn eight_wide_filter_weighs_second_tap_by_nine() {
    let mut plane = [100u16; 8];
    loop_filter_edge(&mut plane, 8, 4, 0, false, 115, 37, 2, 8, 255, 0);
    assert_eq!(plane, [100u16, 100, 113, 100, 100, 100, 100, 100]);
}
