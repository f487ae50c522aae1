use liters::cancel::{check_flag, CancelToken};
use liters::error::StorageError;

#[test]
fn sticky_and_idempotent() {
    let t = CancelToken::new();
    assert!(!t.is_cancelled());
    assert!(t.check().is_ok());

    let clone = t.clone();
    clone.cancel();
    clone.cancel();
    assert!(t.is_cancelled());
    assert!(matches!(t.check(), Err(StorageError::Cancelled)));
}

#[test]
fn a_flag_is_answered_by_its_value() {
    assert!(check_flag(false).is_ok());
    assert!(matches!(check_flag(true), Err(StorageError::Cancelled)));
}
