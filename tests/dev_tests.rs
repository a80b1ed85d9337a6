use zap_vault::app_state::AppState;
use zap_vault::dev::{DevService, DevSession};
use zap_vault::dev_state::DevState;
use zap_vault::error::ZapError;

fn vault_with_dev_box() -> (AppState, String) {
    let mut app = AppState::new();
    app.initialize().unwrap();
    app.unlock("correctpassword").unwrap();
    let b = app.create_box("backend".to_string(), None, vec![], true).unwrap();
    app.create_secret(b.clone(), "DB_URL".to_string(), "postgres://x".to_string()).unwrap();
    app.create_secret(b.clone(), "TOKEN".to_string(), "abc".to_string()).unwrap();
    (app, b)
}

#[test]
fn create_session_reencrypts_under_session_key() {
    let (mut app, b) = vault_with_dev_box();
    let dev = DevState::new();
    let s = dev.create_session(&mut app, "backend-dev".to_string(), b.clone()).unwrap();
    assert_eq!(s.secrets_count(), 2);
    assert!(app.storage.session_exists("backend-dev"));
    let master = app.get_master_key().unwrap();
    assert_ne!(s.session_key, master);
    let svc = DevService::new();
    for (name, data) in &s.encrypted_secrets {
        let plain = svc.decrypt_secret_for_cli(data, &s.session_key).unwrap();
        if name == "DB_URL" {
            assert_eq!(plain, "postgres://x");
        } else {
            assert_eq!(plain, "abc");
        }
        assert!(svc.decrypt_secret_for_cli(data, &master).is_err());
    }
    let hex = s.session_key_hex();
    assert_eq!(hex.len(), 64);
    assert_eq!(dev.validate_session_key(&hex).unwrap(), s.session_key);
}

#[test]
fn deleted_file_drops_session_on_listing() {
    let (mut app, b) = vault_with_dev_box();
    let dev = DevState::new();
    dev.create_session(&mut app, "one".to_string(), b.clone()).unwrap();
    dev.create_session(&mut app, "two".to_string(), b.clone()).unwrap();
    let both = vec!["one".to_string(), "two".to_string()];
    assert_eq!(dev.get_all_sessions(&mut app, &both).unwrap().len(), 2);
    let only_two = vec!["two".to_string()];
    let live = dev.get_all_sessions(&mut app, &only_two).unwrap();
    assert_eq!(live.len(), 1);
    assert_eq!(live[0].session_name, "two");
    assert!(live[0].is_active);
    assert!(!app.storage.session_exists("one"));
    assert!(app.storage.session_exists("two"));
    assert_eq!(dev.get_session_info(&mut app, "two", false).unwrap().map(|i| i.session_name), None);
    assert!(!app.storage.session_exists("two"));
    assert_eq!(dev.has_any_sessions(&mut app, &both).unwrap(), false);
}

#[test]
fn session_name_and_box_checks() {
    let (mut app, b) = vault_with_dev_box();
    let dev = DevState::new();
    assert!(matches!(dev.create_session(&mut app, "Bad Name".to_string(), b.clone()), Err(ZapError::InvalidSessionName(_))));
    assert!(matches!(dev.create_session(&mut app, "".to_string(), b.clone()), Err(ZapError::InvalidSessionName(_))));
    assert!(matches!(dev.create_session(&mut app, "a".repeat(31), b.clone()), Err(ZapError::InvalidSessionName(_))));
    assert!(dev.validate_session_name(&"a".repeat(30)).is_ok());
    let plain = app.create_box("plain".to_string(), None, vec![], false).unwrap();
    assert!(matches!(dev.create_session(&mut app, "p".to_string(), plain), Err(ZapError::InvalidDevBox(_))));
    let empty = app.create_box("empty".to_string(), None, vec![], true).unwrap();
    assert!(matches!(dev.create_session(&mut app, "e".to_string(), empty), Err(ZapError::InvalidDevBox(_))));
    assert!(matches!(dev.create_session(&mut app, "x".to_string(), "nobox".to_string()), Err(ZapError::BoxNotFound(_))));
    app.lock();
    assert!(matches!(dev.create_session(&mut app, "late".to_string(), b), Err(ZapError::SessionExpired)));
}

#[test]
fn session_key_hex_must_be_32_bytes() {
    let dev = DevState::new();
    assert!(matches!(dev.validate_session_key("abcd"), Err(ZapError::InvalidSessionKey)));
    assert!(matches!(dev.validate_session_key(&"zz".repeat(32)), Err(ZapError::InvalidSessionKey)));
    assert!(matches!(dev.validate_session_key(&"0".repeat(63)), Err(ZapError::InvalidSessionKey)));
    assert!(matches!(dev.validate_session_key(&"00".repeat(33)), Err(ZapError::InvalidSessionKey)));
    let k = dev.validate_session_key(&"0aFF".repeat(16)).unwrap();
    assert_eq!(k[0], 0x0a);
    assert_eq!(k[1], 0xff);
}

#[test]
fn stop_and_clear_sessions() {
    let (mut app, b) = vault_with_dev_box();
    let dev = DevState::new();
    dev.create_session(&mut app, "one".to_string(), b.clone()).unwrap();
    dev.create_session(&mut app, "two".to_string(), b.clone()).unwrap();
    assert_eq!(dev.stop_session(&mut app, "one".to_string()).unwrap(), Some("backend".to_string()));
    assert_eq!(dev.stop_session(&mut app, "one".to_string()).unwrap(), None);
    assert_eq!(dev.is_session_name_available(&app, "one").unwrap(), true);
    assert_eq!(dev.is_session_name_available(&app, "two").unwrap(), false);
    assert_eq!(dev.clear_all_sessions(&mut app).unwrap(), vec!["two".to_string()]);
    assert_eq!(app.storage.get_all_dev_sessions().len(), 0);
    let boxes = dev.get_available_dev_boxes(&app).unwrap();
    assert_eq!(boxes.len(), 1);
    assert_eq!(boxes[0].secrets_count, 2);
    let stats = dev.get_dev_stats(&mut app, &vec![]).unwrap();
    assert_eq!(stats.total_boxes, 1);
    assert_eq!(stats.active_sessions_count, 0);
}

#[test]
fn dev_session_record_accessors() {
    let s = DevSession::new("n".to_string(), "b".to_string(), "box".to_string(), [0u8; 32], vec![]);
    assert_eq!(s.secrets_count(), 0);
    assert_eq!(s.session_key_hex(), "0".repeat(64));
}

#[test]
fn session_name_in_use_is_refused() {
    let (mut app, b) = vault_with_dev_box();
    let dev = DevState::new();
    let first = dev.create_session(&mut app, "dup".to_string(), b.clone()).unwrap();
    let r = dev.create_session(&mut app, "dup".to_string(), b.clone());
    assert!(matches!(r, Err(ZapError::SessionAlreadyExists(_))));
    let stored = app.storage.get_dev_session_by_name("dup").unwrap();
    assert_eq!(stored.session_key, first.session_key);
    assert_eq!(stored.box_id, b);
}
