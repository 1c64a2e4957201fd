use focus_keeper::lock::{hash_password, is_currently_locked, LockError, LockResult, LockState, UnlockOutcome};

fn with_password(p: &str) -> LockState {
    let mut s = LockState::new();
    s.set_password(p).unwrap();
    s
}

#[test]
fn password_flow() {
    let mut s = LockState::new();
    assert_eq!(s.set_password("abc"), Err(LockError::ValidationFailure));
    assert!(!s.has_password());
    assert_eq!(s.set_password("abcd"), Ok(()));
    assert_eq!(s.verify_password("abcd"), Ok(()));
    assert_eq!(s.verify_password("wrong"), Err(LockError::WrongPassword));
    assert_eq!(s.change_password("abcd", "xyz0"), Ok(()));
    assert_eq!(s.verify_password("xyz0"), Ok(()));
    assert_eq!(s.verify_password("abcd"), Err(LockError::WrongPassword));
}

#[test]
fn verify_without_password() {
    let s = LockState::new();
    assert_eq!(s.verify_password("abcd"), Err(LockError::NoPasswordSet));
}

#[test]
fn change_password_errors() {
    let mut s = LockState::new();
    assert_eq!(s.change_password("abcd", "xyz0"), Err(LockError::NoPasswordSet));
    let mut s = with_password("abcd");
    assert_eq!(s.change_password("abcd", "xy"), Err(LockError::ValidationFailure));
    assert_eq!(s.change_password("nope", "xyz0"), Err(LockError::WrongPassword));
    assert_eq!(s.verify_password("abcd"), Ok(()));
}

#[test]
fn password_length_counts_characters() {
    let mut s = LockState::new();
    assert_eq!(s.set_password("密码"), Err(LockError::ValidationFailure));
    assert_eq!(s.set_password("密码密码"), Ok(()));
}

#[test]
fn hash_is_salted_hex_and_stable() {
    let h = hash_password("abcd");
    assert_ne!(h, "abcd");
    assert!(!h.is_empty() && h.len() <= 16);
    assert!(h.chars().all(|c| c.is_ascii_hexdigit() && !c.is_ascii_uppercase()));
    assert_eq!(h, hash_password("abcd"));
    assert_ne!(h, hash_password("wrong"));
}

#[test]
fn lock_needs_password() {
    let mut s = LockState::new();
    assert_eq!(s.lock_focus_at(1, 100), Err(LockError::NoPasswordSet));
    assert!(!s.is_locked);
}

#[test]
fn lock_timer() {
    let mut s = with_password("abcd");
    assert_eq!(s.lock_focus_at(1, 1_000), Ok(()));
    assert_eq!(s.lock_end_time, Some(1_060));
    let info = s.get_lock_state_at(1_000);
    assert!(info.is_locked);
    assert_eq!(info.remaining_seconds, Some(60));
    assert!(info.has_password);
    let info = s.get_lock_state_at(1_059);
    assert_eq!(info.remaining_seconds, Some(1));
    assert!(s.is_locked_at(1_059));
    assert!(!s.is_locked_at(1_060));
    let mut later = with_password("abcd");
    later.lock_focus_at(1, 1_000).unwrap();
    assert_eq!(later.unlock_at("anything", 1_060), Ok(UnlockOutcome::Expired));
    assert!(!later.is_locked && later.lock_end_time.is_none());
    let info = s.get_lock_state_at(1_061);
    assert!(!info.is_locked);
    assert_eq!(info.remaining_seconds, None);
    assert!(!s.is_locked && s.lock_end_time.is_none());
}

#[test]
fn lock_duration_overflow_is_refused() {
    let mut s = with_password("abcd");
    assert_eq!(s.lock_focus_at(u64::MAX, 1), Err(LockError::ValidationFailure));
    assert!(!s.is_locked);
}

#[test]
fn unlock_with_password() {
    let mut s = with_password("abcd");
    assert_eq!(s.unlock_at("abcd", 5), Ok(UnlockOutcome::NotLocked));
    s.lock_focus_at(30, 1_000).unwrap();
    assert_eq!(s.unlock_at("wrong", 1_010), Err(LockError::WrongPassword));
    assert!(s.is_locked_at(1_010));
    assert_eq!(s.unlock_at("abcd", 1_010), Ok(UnlockOutcome::Unlocked));
    assert!(!s.is_locked_at(1_010));
}

#[test]
fn current_lock_follows_the_clock() {
    let mut s = with_password("abcd");
    assert!(!is_currently_locked(&mut s));
    let mut t = with_password("abcd");
    t.lock_focus(5).unwrap();
    assert!(is_currently_locked(&mut t));
    assert!(t.get_lock_state().is_locked);
    assert_eq!(t.unlock("abcd"), Ok(UnlockOutcome::Unlocked));
    assert!(!is_currently_locked(&mut t));
    // a lock that lapsed long ago is cleared when it is observed
    let mut old = with_password("abcd");
    old.lock_focus_at(1, 0).unwrap();
    assert!(old.is_locked);
    assert!(!is_currently_locked(&mut old));
    assert!(!old.is_locked && old.lock_end_time.is_none());
}

#[test]
fn lock_result_constructors() {
    let ok = LockResult::success("done");
    assert!(ok.success);
    assert_eq!(ok.message, "done");
    let err = LockResult::error("no");
    assert!(!err.success);
    assert_eq!(err.message, "no");
}
