use wav1c::fps::{Fps, FpsError};

#[test]
fn new_accepts_valid_num_den() {
    let fps = Fps::new(30, 1).unwrap();
    assert_eq!(fps.num, 30);
    assert_eq!(fps.den, 1);
}

#[test]
fn new_rejects_zero_num() {
    let err = Fps::new(0, 1).unwrap_err();
    assert_eq!(err, FpsError::ZeroNum);
}

#[test]
fn new_rejects_zero_den() {
    let err = Fps::new(1, 0).unwrap_err();
    assert_eq!(err, FpsError::ZeroDen);
}

#[test]
fn new_normalizes_ratio() {
    let fps = Fps::new(60, 2).unwrap();
    assert_eq!(fps, Fps { num: 30, den: 1 });
}

#[test]
fn keeps_non_reducible_ratio() {
    let fps = Fps::new(30_000, 1_001).unwrap();
    assert_eq!(fps, Fps { num: 30_000, den: 1_001 });
}

#[test]
fn zero_num_checked_before_zero_den() {
    assert_eq!(Fps::new(0, 0).unwrap_err(), FpsError::ZeroNum);
}

#[test]
fn from_int_is_over_one() {
    assert_eq!(Fps::from_int(24).unwrap(), Fps { num: 24, den: 1 });
    assert_eq!(Fps::from_int(0).unwrap_err(), FpsError::ZeroNum);
}

#[test]
fn default_is_twenty_five() {
    assert_eq!(Fps::default(), Fps { num: 25, den: 1 });
}

#[test]
fn reduced_fraction_keeps_value() {
    let fps = Fps::new(48_000, 1_600).unwrap();
    assert_eq!(fps, Fps { num: 30, den: 1 });
    let fps = Fps::new(12, 18).unwrap();
    assert_eq!(fps, Fps { num: 2, den: 3 });
}
