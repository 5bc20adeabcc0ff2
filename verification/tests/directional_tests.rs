use std::collections::HashSet;
use wav1c::directional::{
    generate_directional_prediction, generate_prediction, predict_directional_z1, predict_directional_z2,
    predict_directional_z3,
};
use wav1c::tile::DR_INTRA_DERIVATIVE;

#[test]
fn z1_d45_produces_diagonal() {
    let above = [10u8, 20, 30, 40, 50, 60, 70, 80, 90, 100, 110, 120, 130, 140, 150, 160];
    let dx = DR_INTRA_DERIVATIVE[22] as i32;
    let result = predict_directional_z1(&above, 8, 8, dx);
    assert_eq!(result.len(), 64);
    assert_eq!(result[0], above[1]);
    for &p in &result {
        assert!((10..=160).contains(&p));
    }
}

#[test]
fn z1_d67_uses_above() {
    let above = [100u8; 16];
    let dx = DR_INTRA_DERIVATIVE[33] as i32;
    let result = predict_directional_z1(&above, 8, 8, dx);
    assert_eq!(result.len(), 64);
    for &p in &result {
        assert_eq!(p, 100);
    }
}

#[test]
fn z3_d203_produces_output() {
    let left = [10u8, 20, 30, 40, 50, 60, 70, 80, 90, 100, 110, 120, 130, 140, 150, 160];
    let dy = DR_INTRA_DERIVATIVE[33] as i32;
    let result = predict_directional_z3(&left, 8, 8, dy);
    assert_eq!(result.len(), 64);
    for &p in &result {
        assert!((10..=160).contains(&p));
    }
}

#[test]
fn z3_uniform_left() {
    let left = [128u8; 16];
    let dy = DR_INTRA_DERIVATIVE[33] as i32;
    let result = predict_directional_z3(&left, 8, 8, dy);
    for &p in &result {
        assert_eq!(p, 128);
    }
}

#[test]
fn z2_d135_uniform_neighbors() {
    let above = [100u8; 16];
    let left = [100u8; 16];
    let dx = DR_INTRA_DERIVATIVE[22] as i32;
    let dy = DR_INTRA_DERIVATIVE[22] as i32;
    let result = predict_directional_z2(&above, &left, 100, 8, 8, dx, dy);
    assert_eq!(result.len(), 64);
    for &p in &result {
        assert_eq!(p, 100);
    }
}

#[test]
fn z2_d113_produces_valid_output() {
    let above = [200u8; 16];
    let left = [50u8; 16];
    let dx = DR_INTRA_DERIVATIVE[33] as i32;
    let dy = DR_INTRA_DERIVATIVE[11] as i32;
    let result = predict_directional_z2(&above, &left, 200, 8, 8, dx, dy);
    assert_eq!(result.len(), 64);
    for &p in &result {
        assert!((50..=200).contains(&p));
    }
}

#[test]
fn z2_d157_produces_valid_output() {
    let above = [200u8; 16];
    let left = [50u8; 16];
    let dx = DR_INTRA_DERIVATIVE[11] as i32;
    let dy = DR_INTRA_DERIVATIVE[33] as i32;
    let result = predict_directional_z2(&above, &left, 200, 8, 8, dx, dy);
    assert_eq!(result.len(), 64);
    for &p in &result {
        assert!((50..=200).contains(&p));
    }
}

#[test]
fn generate_prediction_routes_directional_modes() {
    let above = [100u8; 16];
    let left = [100u8; 16];
    for mode in 3..=8u8 {
        let pred = generate_prediction(mode, 0, &above, &left, 100, true, true, 8, 8);
        assert_eq!(pred.len(), 64);
        for &p in &pred {
            assert_eq!(p, 100);
        }
    }
}

#[test]
fn directional_z1_output_varies() {
    let mut above = [0u8; 16];
    for (i, pixel) in above.iter_mut().enumerate() {
        *pixel = (i * 17).min(255) as u8;
    }
    let dx = DR_INTRA_DERIVATIVE[22] as i32;
    let result = predict_directional_z1(&above, 8, 8, dx);
    assert_eq!(result.len(), 64);
    let unique: HashSet<u8> = result.iter().copied().collect();
    assert!(unique.len() > 1);
}

#[test]
fn directional_z3_output_varies() {
    let mut left = [0u8; 16];
    for (i, pixel) in left.iter_mut().enumerate() {
        *pixel = (i * 17).min(255) as u8;
    }
    let dy = DR_INTRA_DERIVATIVE[33] as i32;
    let result = predict_directional_z3(&left, 8, 8, dy);
    assert_eq!(result.len(), 64);
    let unique: HashSet<u8> = result.iter().copied().collect();
    assert!(unique.len() > 1);
}

#[test]
fn z1_exact_values_of_first_row() {
    let above: Vec<u8> = (0..16u8).map(|v| v * 10).collect();
    let result = predict_directional_z1(&above, 4, 4, 32);
    assert_eq!(&result[0..4], &[5, 15, 25, 35]);
    assert_eq!(&result[4..8], &[10, 20, 30, 40]);
}

#[test]
fn z1_repeats_last_usable_pixel() {
    let above: Vec<u8> = (0..16u8).map(|v| v * 10).collect();
    let result = predict_directional_z1(&above, 4, 4, 1023);
    assert_eq!(result[0], 70);
}

#[test]
fn directional_at_90_and_180_copies_edges() {
    let above = [1u8, 2, 3, 4];
    let left = [5u8, 6, 7, 8];
    let v = generate_directional_prediction(90, &above, &left, 9, true, true, 4, 4);
    assert_eq!(&v[0..8], &[1, 2, 3, 4, 1, 2, 3, 4]);
    let h = generate_directional_prediction(180, &above, &left, 9, true, true, 4, 4);
    assert_eq!(&h[0..8], &[5, 5, 5, 5, 6, 6, 6, 6]);
}
