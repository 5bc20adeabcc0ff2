use wav1c::scan::{DEFAULT_SCAN_16X16, DEFAULT_SCAN_4X4, DEFAULT_SCAN_8X8};

#[test]
fn scan_scan_4x4_dc_is_first() {
    assert_eq!(DEFAULT_SCAN_4X4[0], 0);
}

#[test]
fn scan_scan_8x8_dc_is_first() {
    assert_eq!(DEFAULT_SCAN_8X8[0], 0);
}

#[test]
fn scan_scan_4x4_has_correct_length() {
    assert_eq!(DEFAULT_SCAN_4X4.len(), 16);
}

#[test]
fn scan_scan_8x8_has_correct_length() {
    assert_eq!(DEFAULT_SCAN_8X8.len(), 64);
}

#[test]
fn scan_scan_4x4_covers_all_positions() {
    let mut seen = [false; 16];
    for &pos in &DEFAULT_SCAN_4X4 {
        assert!((pos as usize) < 16);
        assert!(!seen[pos as usize]);
        seen[pos as usize] = true;
    }
    assert!(seen.iter().all(|&s| s));
}

#[test]
fn scan_scan_8x8_covers_all_positions() {
    let mut seen = [false; 64];
    for &pos in &DEFAULT_SCAN_8X8 {
        assert!((pos as usize) < 64);
        assert!(!seen[pos as usize]);
        seen[pos as usize] = true;
    }
    assert!(seen.iter().all(|&s| s));
}

#[test]
fn scan_16x16_dc_is_first() {
    assert_eq!(DEFAULT_SCAN_16X16[0], 0);
}

#[test]
fn scan_16x16_has_correct_length() {
    assert_eq!(DEFAULT_SCAN_16X16.len(), 256);
}

#[test]
fn scan_16x16_covers_all_positions() {
    let mut seen = [false; 256];
    for &pos in &DEFAULT_SCAN_16X16 {
        assert!((pos as usize) < 256);
        assert!(!seen[pos as usize]);
        seen[pos as usize] = true;
    }
    assert!(seen.iter().all(|&s| s));
}

