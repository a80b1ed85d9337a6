use zap_vault::auth::{AuthConfig, AuthService, SessionState};
use zap_vault::error::ZapError;

#[test]
fn session_ticks_down_and_locks() {
    let mut s = SessionState::new();
    s.unlock([1u8; 32], 5);
    assert!(s.is_unlocked);
    assert_eq!(s.time_left_seconds, 300);
    for _ in 0..299 {
        s.tick();
    }
    assert!(s.is_unlocked);
    assert_eq!(s.time_left_seconds, 1);
    s.tick();
    assert!(!s.is_unlocked);
    assert_eq!(s.master_key, None);
    assert_eq!(s.time_left_seconds, 0);
    s.tick();
    assert!(!s.is_unlocked);
}

#[test]
fn lock_is_idempotent_and_reset_timer_only_when_open() {
    let mut s = SessionState::default();
    s.reset_timer(10);
    assert_eq!(s.time_left_seconds, 0);
    s.unlock([2u8; 32], 5);
    s.reset_timer(10);
    assert_eq!(s.time_left_seconds, 600);
    s.lock();
    s.lock();
    assert!(!s.is_unlocked);
    assert!(s.master_key.is_none());
    assert!(s.last_activity.is_none());
}

#[test]
fn auth_config_timeout_bounds() {
    let mut c = AuthConfig::new([0u8; 32]);
    assert!(c.is_first_time_setup());
    assert_eq!(c.session_timeout_minutes, 5);
    assert!(matches!(c.set_timeout_minutes(4), Err(ZapError::AuthError(_))));
    assert!(matches!(c.set_timeout_minutes(61), Err(ZapError::AuthError(_))));
    assert!(c.set_timeout_minutes(60).is_ok());
    assert_eq!(c.session_timeout_minutes, 60);
    assert!(c.set_timeout_minutes(5).is_ok());
}

#[test]
fn first_unlock_then_wrong_password_on_reload() {
    let mut a = AuthService::new();
    assert_eq!(a.initialize(None).unwrap(), true);
    assert_eq!(a.unlock("correctpassword").unwrap(), true);
    assert!(a.is_unlocked());
    assert!(a.get_master_key().is_some());
    let saved = a.get_config().unwrap();
    assert!(saved.master_password_hash.is_some());

    let mut reloaded = AuthService::new();
    assert_eq!(reloaded.initialize(Some(saved.duplicate())).unwrap(), false);
    assert!(matches!(reloaded.unlock("wrongpass"), Err(ZapError::IncorrectPassword)));
    assert!(!reloaded.is_unlocked());
    assert_eq!(reloaded.unlock("correctpassword").unwrap(), false);
    assert_eq!(reloaded.get_master_key(), a.get_master_key());
}

#[test]
fn unlock_rejects_blank_short_and_uninitialised() {
    let mut a = AuthService::new();
    assert!(matches!(a.unlock("password1"), Err(ZapError::AuthError(_))));
    a.initialize(None).unwrap();
    assert!(matches!(a.unlock("   "), Err(ZapError::AuthError(_))));
    assert!(matches!(a.unlock(""), Err(ZapError::AuthError(_))));
    assert!(matches!(a.unlock("short"), Err(ZapError::AuthError(_))));
    assert!(!a.is_unlocked());
}

#[test]
fn timeout_expiry_through_service() {
    let mut a = AuthService::new();
    a.initialize(None).unwrap();
    a.unlock("correctpassword").unwrap();
    assert_eq!(a.get_session_time_left(), 300);
    for _ in 0..300 {
        a.tick_session();
    }
    assert!(!a.is_unlocked());
    assert!(a.get_master_key().is_none());
}

#[test]
fn set_timeout_resets_open_session() {
    let mut a = AuthService::new();
    a.initialize(None).unwrap();
    assert!(matches!(a.set_timeout_minutes(3), Err(ZapError::AuthError(_))));
    a.unlock("correctpassword").unwrap();
    a.tick_session();
    a.set_timeout_minutes(10).unwrap();
    assert_eq!(a.get_session_time_left(), 600);
    assert!(a.is_unlocked());
    assert_eq!(a.get_config().unwrap().session_timeout_minutes, 10);
    a.lock();
    assert!(!a.is_unlocked());
    a.set_timeout_minutes(20).unwrap();
    assert_eq!(a.get_session_time_left(), 0);
}
