use wav1c::coef::{
    ANGLE_DELTA_BASE, BASE_TOK_BASE, CDF_COUNT, DC_SIGN_BASE, EOB_BASE_TOK_BASE, EOB_BIN_64_BASE, EOB_HI_BIT_BASE,
    KF_Y_MODE_BASE, TXTP_INTRA2_BASE, UV_MODE_BASE,
};
use wav1c::intra::TileEncoder;

fn symbols_of(slot: usize) -> usize {
    if slot < TXTP_INTRA2_BASE {
        1
    } else if slot < EOB_BIN_64_BASE {
        4
    } else if slot < EOB_HI_BIT_BASE {
        6
    } else if slot < EOB_BASE_TOK_BASE {
        1
    } else if slot < BASE_TOK_BASE {
        2
    } else if slot < DC_SIGN_BASE {
        3
    } else if slot < KF_Y_MODE_BASE {
        1
    } else if slot < ANGLE_DELTA_BASE {
        12
    } else if slot < UV_MODE_BASE {
        6
    } else if slot < UV_MODE_BASE + 13 {
        12
    } else {
        13
    }
}

fn uniform_context() -> Vec<Vec<u16>> {
    (0..CDF_COUNT)
        .map(|s| {
            let n = symbols_of(s);
            let mut c: Vec<u16> = (1..=n).map(|i| (32768 - 32768 * i / (n + 1)) as u16).collect();
            c.push(0);
            c
        })
        .collect()
}

fn flat_planes(w: u32, h: u32, luma: u8, chroma: u8) -> (Vec<u8>, Vec<u8>, Vec<u8>) {
    let cw = (w + 1) / 2;
    let ch = (h + 1) / 2;
    (vec![luma; (w * h) as usize], vec![chroma; (cw * ch) as usize], vec![chroma; (cw * ch) as usize])
}

#[test]
fn new_tile_encoder_starts_grey() {
    let (y, u, v) = flat_planes(17, 9, 40, 60);
    let t = TileEncoder::new(17, 9, y, u, v, 8, 8, uniform_context());
    assert_eq!(t.mi_cols, 6);
    assert_eq!(t.mi_rows, 4);
    assert!(t.recon_y.iter().all(|&p| p == 128));
    assert_eq!(t.recon_u.len(), 9 * 5);
    assert!(t.recon_v.iter().all(|&p| p == 128));
}

#[test]
fn mid_grey_block_is_skipped_and_reconstructed_exactly() {
    let (y, u, v) = flat_planes(16, 16, 128, 128);
    let mut t = TileEncoder::new(16, 16, y, u, v, 8, 8, uniform_context());
    t.encode_block(0, 0, 3);
    assert!(t.recon_y.iter().all(|&p| p == 128));
    assert!(t.recon_u.iter().all(|&p| p == 128));
    assert_eq!(t.ctx.above_skip[0], 1);
    assert_eq!(t.ctx.above_skip[1], 1);
    assert_eq!(t.ctx.left_skip[0], 1);
    assert!(!t.enc.finalize().is_empty());
}

#[test]
fn bright_block_is_coded_and_reconstructed_near_the_source() {
    let (y, u, v) = flat_planes(16, 16, 200, 90);
    let mut t = TileEncoder::new(16, 16, y, u, v, 4, 4, uniform_context());
    t.encode_block(0, 0, 3);
    assert_eq!(t.ctx.above_skip[0], 0);
    for r in 0..8usize {
        for c in 0..8usize {
            let p = t.recon_y[r * 16 + c] as i32;
            assert!((p - 200).abs() <= 4, "luma sample {} at ({}, {})", p, r, c);
        }
        for c in 8..16usize {
            assert_eq!(t.recon_y[r * 16 + c], 128);
        }
    }
    for r in 0..4usize {
        for c in 0..4usize {
            let p = t.recon_u[r * 8 + c] as i32;
            assert!((p - 90).abs() <= 4, "chroma sample {} at ({}, {})", p, r, c);
        }
    }
    assert_eq!(t.ctx.above_recon_y[0..8], t.recon_y[7 * 16..7 * 16 + 8]);
    assert!(!t.enc.finalize().is_empty());
}

#[test]
fn second_block_reads_the_first_blocks_edges() {
    let (y, u, v) = flat_planes(16, 8, 200, 128);
    let mut t = TileEncoder::new(16, 8, y, u, v, 4, 4, uniform_context());
    t.encode_block(0, 0, 4);
    t.encode_block(2, 0, 4);
    for r in 0..8usize {
        for c in 8..16usize {
            let p = t.recon_y[r * 16 + c] as i32;
            assert!((p - 200).abs() <= 4, "luma sample {} at ({}, {})", p, r, c);
        }
    }
}

#[test]
fn skip_block_fills_the_dc_prediction_from_its_neighbour() {
    let (y, u, v) = flat_planes(16, 8, 200, 128);
    let mut t = TileEncoder::new(16, 8, y, u, v, 4, 4, uniform_context());
    t.encode_block(0, 0, 4);
    t.encode_skip_block(2, 0, 4);
    let p = t.recon_y[8];
    assert!((p as i32 - 200).abs() <= 4);
    for r in 0..8usize {
        for c in 8..16usize {
            assert_eq!(t.recon_y[r * 16 + c], p);
        }
    }
    assert_eq!(t.ctx.above_skip[2], 1);
    assert_eq!(t.ctx.above_mode[2], 0);
    assert_eq!(t.ctx.above_recon_y[8..16], [p; 8]);
}
