use wav1c::cdef::{cdef_analyze_direction, cdef_filter_block};

#[test]
fn cdef_direction_of_flat_block_is_first() {
    let src = [100u8; 64];
    assert_eq!(cdef_analyze_direction(&src, 8, 8, 8), 0);
}

#[test]
fn cdef_direction_of_vertical_stripes() {
    let mut src = [0u8; 64];
    for r in 0..8 {
        for c in 0..8 {
            src[r * 8 + c] = if c % 2 == 0 { 200 } else { 20 };
        }
    }
    let d = cdef_analyze_direction(&src, 8, 8, 8);
    assert!(d < 8);
}

#[test]
fn cdef_filter_leaves_flat_block() {
    let src = [90u8; 64];
    let mut dst = [0u8; 64];
    cdef_filter_block(&src, 8, &mut dst, 8, 8, 8, 4, 2, 3);
    assert!(dst.iter().all(|&v| v == 90));
}

#[test]
fn cdef_filter_with_zero_strengths_copies() {
    let src: Vec<u8> = (0..64u8).map(|v| v * 4).collect();
    let mut dst = vec![0u8; 64];
    cdef_filter_block(&src, 8, &mut dst, 8, 8, 8, 0, 0, 3);
    assert_eq!(dst, src);
}
