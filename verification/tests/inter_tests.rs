use wav1c::coef::{
    ANGLE_DELTA_BASE, BASE_TOK_BASE, CDF_COUNT, DC_SIGN_BASE, DRL_BASE, EOB_BASE_TOK_BASE, EOB_BIN_64_BASE,
    EOB_HI_BIT_BASE, KF_Y_MODE_BASE, MV_COMP_BASE, MV_JOINT_SLOT, PARTITION_BASE, TXTP_INTRA2_BASE, UV_MODE_BASE,
};
use wav1c::inter::InterTileEncoder;
use wav1c::inter_tile::encode_inter_tile_with_recon;
use wav1c::msac::MsacEncoder;

fn symbols_of(slot: usize) -> usize {
    if slot < TXTP_INTRA2_BASE {
        1
    } else if slot < EOB_BIN_64_BASE {
        4
    } else if slot < EOB_HI_BIT_BASE {
        6
    } else if slot < EOB_BASE_TOK_BASE {
        1
    } else if slot < BASE_TOK_BASE {
        2
    } else if slot < DC_SIGN_BASE {
        3
    } else if slot < KF_Y_MODE_BASE {
        1
    } else if slot < ANGLE_DELTA_BASE {
        12
    } else if slot < UV_MODE_BASE {
        6
    } else if slot < UV_MODE_BASE + 13 {
        12
    } else if slot < DRL_BASE {
        13
    } else if slot < MV_JOINT_SLOT {
        1
    } else if slot == MV_JOINT_SLOT {
        3
    } else if slot >= PARTITION_BASE + 16 {
        3
    } else if slot >= PARTITION_BASE {
        9
    } else {
        match (slot - MV_COMP_BASE) % 16 {
            1 => 10,
            3 | 4 | 15 => 3,
            _ => 1,
        }
    }
}

fn uniform_context() -> Vec<Vec<u16>> {
    (0..CDF_COUNT)
        .map(|s| {
            let n = symbols_of(s);
            let mut c: Vec<u16> = (1..=n).map(|i| (32768 - 32768 * i / (n + 1)) as u16).collect();
            c.push(0);
            c
        })
        .collect()
}

fn gradient(w: u32, h: u32) -> (Vec<u8>, Vec<u8>, Vec<u8>) {
    let y: Vec<u8> = (0..w * h).map(|i| (i % 251) as u8).collect();
    let cw = (w + 1) / 2;
    let ch = (h + 1) / 2;
    let u: Vec<u8> = (0..cw * ch).map(|i| (i * 3 % 256) as u8).collect();
    let v: Vec<u8> = (0..cw * ch).map(|i| (255 - i % 256) as u8).collect();
    (y, u, v)
}

#[test]
fn skip_block_copies_the_reference_and_codes_seven_bits() {
    let (y, u, v) = gradient(24, 20);
    let mut t = InterTileEncoder::new(24, 20, y.clone(), u.clone(), v.clone(), y.clone(), u.clone(), v.clone(), 8, 8, uniform_context());
    t.encode_inter_skip_block(0, 0, 3);
    for r in 0..20usize {
        for c in 0..24usize {
            let want = if r < 16 && c < 16 { y[r * 24 + c] } else { 128 };
            assert_eq!(t.recon_y[r * 24 + c], want);
        }
    }
    for r in 0..10usize {
        for c in 0..12usize {
            let want = if r < 8 && c < 8 { u[r * 12 + c] } else { 128 };
            assert_eq!(t.recon_u[r * 12 + c], want);
        }
    }
    // 4x4 units: 6 columns, 6 rows; the block covers units 0..4 in both directions.
    for row in 0..6usize {
        for col in 0..6usize {
            let mv = t.block_mvs[row * 6 + col];
            let inside = row < 4 && col < 4;
            assert_eq!(mv.ref_frame, if inside { 0 } else { -1 });
        }
    }
    assert_eq!(t.ctx.above_skip[0], 1);
    assert_eq!(t.ctx.above_recon_y[0..16], y[15 * 24..15 * 24 + 16]);

    let mut direct = MsacEncoder::new();
    direct.set_cdf_updates(false);
    for &b in &[true, true, false, false, false, true, false] {
        let mut cdf = vec![16384u16, 0];
        direct.encode_bool(b, &mut cdf);
    }
    assert_eq!(t.enc.finalize(), direct.finalize());
}

#[test]
fn skip_block_at_the_frame_edge_stays_inside() {
    let (y, u, v) = gradient(20, 12);
    let mut t = InterTileEncoder::new(20, 12, y.clone(), u.clone(), v.clone(), y.clone(), u, v, 8, 8, uniform_context());
    t.encode_inter_skip_block(4, 0, 2);
    for r in 0..12usize {
        for c in 0..20usize {
            let want = if c >= 16 { y[r * 20 + c] } else { 128 };
            assert_eq!(t.recon_y[r * 20 + c], want);
        }
    }
}

fn ramp(w: u32, h: u32, shift: u32) -> Vec<u8> {
    let mut p = Vec::new();
    for y in 0..h {
        for x in 0..w {
            let sx = if x + shift < w { x + shift } else { w - 1 };
            p.push(((y * w + sx) % 251) as u8);
        }
    }
    p
}

#[test]
fn static_block_is_skipped_at_the_zero_vector() {
    let y = ramp(24, 24, 0);
    let c = vec![100u8; 12 * 12];
    let mut t = InterTileEncoder::new(24, 24, y.clone(), c.clone(), c.clone(), y.clone(), c.clone(), c.clone(), 8, 8, uniform_context());
    t.encode_inter_block(2, 2, 4);
    for r in 8..16usize {
        for col in 8..16usize {
            assert_eq!(t.recon_y[r * 24 + col], y[r * 24 + col]);
        }
    }
    assert_eq!(t.recon_y[0], 128);
    let mv = t.block_mvs[2 * 6 + 2];
    assert_eq!((mv.mv_x, mv.mv_y, mv.ref_frame), (0, 0, 0));
    assert_eq!(t.ctx.above_skip[2], 1);
    assert!(!t.ctx.above_newmv[2]);
    assert!(!t.ctx.above_intra[2]);
}

#[test]
fn moved_block_codes_its_motion_vector() {
    let reference = ramp(24, 24, 0);
    let source = ramp(24, 24, 2);
    let c = vec![100u8; 12 * 12];
    let mut t = InterTileEncoder::new(24, 24, source.clone(), c.clone(), c.clone(), reference, c.clone(), c.clone(), 8, 8, uniform_context());
    t.encode_inter_block(0, 0, 4);
    // The search finds the two-pixel shift; on a linear ramp the filter at
    // one and a half pixels predicts the samples as exactly, and the shorter
    // vector wins the tie.
    for unit in [0, 1, 6, 7] {
        let mv = t.block_mvs[unit];
        assert_eq!((mv.mv_x, mv.mv_y, mv.ref_frame), (12, 0, 0));
    }
    assert_eq!(t.block_mvs[2].ref_frame, -1);
    assert!(t.ctx.above_newmv[0]);
    for r in 0..8usize {
        for col in 0..8usize {
            assert_eq!(t.recon_y[r * 24 + col], source[r * 24 + col]);
        }
    }
    assert!(!t.enc.finalize().is_empty());
}

#[test]
fn static_tile_is_copied_from_the_reference() {
    let y = ramp(24, 24, 0);
    let c = vec![90u8; 12 * 12];
    let (bytes, ry, ru, rv) = encode_inter_tile_with_recon(24, 24, y.clone(), c.clone(), c.clone(), y.clone(), c.clone(), c.clone(), 8, 8, uniform_context());
    assert!(!bytes.is_empty());
    assert_eq!(ry, y);
    assert_eq!(ru, c);
    assert_eq!(rv, c);
}

#[test]
fn moved_tile_codes_more_than_a_static_one() {
    let reference = ramp(24, 24, 0);
    let source = ramp(24, 24, 2);
    let c = vec![90u8; 12 * 12];
    let (still, _, _, _) = encode_inter_tile_with_recon(24, 24, reference.clone(), c.clone(), c.clone(), reference.clone(), c.clone(), c.clone(), 8, 8, uniform_context());
    let (moved, ry, _, _) = encode_inter_tile_with_recon(24, 24, source.clone(), c.clone(), c.clone(), reference, c.clone(), c.clone(), 8, 8, uniform_context());
    assert!(moved.len() > still.len());
    assert_eq!(ry.len(), source.len());
}
