use athena::cell::{BorrowError, BorrowState};

#[test]
fn new_guard_is_free() {
    let guard = BorrowState::new();
    assert_eq!(guard, BorrowState::Free);
    assert!(guard.is_free());
    assert!(guard.is_readable());
}

#[test]
fn shared_borrows_count() {
    let mut guard = BorrowState::new();
    assert_eq!(guard.try_borrow(), Ok(()));
    assert_eq!(guard, BorrowState::Shared(1));
    assert_eq!(guard.try_borrow(), Ok(()));
    assert_eq!(guard, BorrowState::Shared(2));
    assert!(guard.is_readable());
    assert!(!guard.is_free());
    assert!(guard.release());
    assert_eq!(guard, BorrowState::Shared(1));
    assert!(guard.release());
    assert_eq!(guard, BorrowState::Free);
    assert!(!guard.release());
    assert_eq!(guard, BorrowState::Free);
}

#[test]
fn exclusive_borrow_excludes_everybody() {
    let mut guard = BorrowState::new();
    assert_eq!(guard.try_borrow_mut(), Ok(()));
    assert_eq!(guard, BorrowState::Exclusive);
    assert!(!guard.is_readable());
    assert_eq!(guard.try_borrow(), Err(BorrowError::AlreadyBorrowed));
    assert_eq!(guard.try_borrow_mut(), Err(BorrowError::AlreadyBorrowed));
    assert_eq!(guard, BorrowState::Exclusive);
    assert!(!guard.release());
    assert!(guard.release_mut());
    assert_eq!(guard, BorrowState::Free);
    assert!(!guard.release_mut());
}

#[test]
fn shared_borrow_excludes_exclusive() {
    let mut guard = BorrowState::new();
    assert_eq!(guard.try_borrow(), Ok(()));
    assert_eq!(guard.try_borrow_mut(), Err(BorrowError::AlreadyBorrowed));
    assert_eq!(guard, BorrowState::Shared(1));
}

#[test]
fn shared_count_does_not_wrap() {
    let mut guard = BorrowState::Shared(usize::MAX);
    assert_eq!(guard.try_borrow(), Err(BorrowError::AlreadyBorrowed));
    assert_eq!(guard, BorrowState::Shared(usize::MAX));
    let mut below = BorrowState::Shared(usize::MAX - 1);
    assert_eq!(below.try_borrow(), Ok(()));
    assert_eq!(below, BorrowState::Shared(usize::MAX));
}
