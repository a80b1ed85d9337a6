use zap_vault::app_state::AppState;
use zap_vault::error::ZapError;
use zap_vault::settings::Settings;
use zap_vault::vault_box::Box;

fn unlocked() -> AppState {
    let mut app = AppState::new();
    assert_eq!(app.initialize().unwrap(), true);
    assert_eq!(app.unlock("correctpassword").unwrap(), true);
    app
}

fn count_of(app: &AppState, box_id: &str) -> usize {
    app.storage.secrets.iter().filter(|s| s.box_id == box_id).count()
}

#[test]
fn duplicate_box_name_conflicts() {
    let mut app = unlocked();
    app.create_box("api-keys".to_string(), None, vec![], false).unwrap();
    let r = app.create_box("api-keys".to_string(), Some("again".to_string()), vec![], true);
    assert!(matches!(r, Err(ZapError::BoxAlreadyExists(_))));
    assert_eq!(app.storage.boxes.len(), 1);
}

#[test]
fn rename_to_existing_name_fails_and_name_frees_after_delete() {
    let mut app = unlocked();
    let a = app.create_box("alpha".to_string(), None, vec![], false).unwrap();
    let b = app.create_box("beta".to_string(), None, vec![], false).unwrap();
    let r = app.update_box(&b, Some("alpha".to_string()), None, None, None);
    assert!(matches!(r, Err(ZapError::BoxAlreadyExists(_))));
    assert_eq!(app.get_box(&b).unwrap().name, "beta");
    app.delete_box(&a).unwrap();
    app.update_box(&b, Some("alpha".to_string()), None, None, None).unwrap();
    assert_eq!(app.get_box(&b).unwrap().name, "alpha");
    assert_eq!(app.storage.get_box_id_by_name("alpha"), Some(b.clone()));
    assert_eq!(app.storage.get_box_id_by_name("beta"), None);
    app.create_box("beta".to_string(), None, vec![], false).unwrap();
}

#[test]
fn box_validation_errors() {
    let mut app = unlocked();
    assert!(matches!(app.create_box("   ".to_string(), None, vec![], false), Err(ZapError::ValidationError(_))));
    assert!(matches!(app.create_box("x".repeat(51), None, vec![], false), Err(ZapError::ValidationError(_))));
    assert!(app.create_box("x".repeat(50), None, vec![], false).is_ok());
    assert!(matches!(
        app.create_box("d".to_string(), Some("y".repeat(76)), vec![], false),
        Err(ZapError::ValidationError(_))
    ));
    let six: Vec<String> = (0..6).map(|i| format!("t{}", i)).collect();
    assert!(matches!(app.create_box("t".to_string(), None, six, false), Err(ZapError::InvalidTags(_))));
    assert!(matches!(
        app.create_box("t".to_string(), None, vec!["Prod".to_string()], false),
        Err(ZapError::InvalidTags(_))
    ));
    assert!(matches!(
        app.create_box("t".to_string(), None, vec!["a".repeat(16)], false),
        Err(ZapError::InvalidTags(_))
    ));
    assert!(matches!(
        app.create_box("t".to_string(), None, vec!["db".to_string(), "db".to_string()], false),
        Err(ZapError::InvalidTags(_))
    ));
    assert!(Box::validate_tags(&vec!["a-1".to_string(), "b".repeat(15)]).is_ok());
}

#[test]
fn capacity_is_seventy_five() {
    let mut app = unlocked();
    let b = app.create_box("full".to_string(), None, vec![], false).unwrap();
    for i in 0..75 {
        app.create_secret(b.clone(), format!("secret-{}", i), "v".to_string()).unwrap();
    }
    assert_eq!(app.get_box(&b).unwrap().secrets_count, 75);
    let r = app.create_secret(b.clone(), "one-more".to_string(), "v".to_string());
    assert!(matches!(r, Err(ZapError::ValidationError(_))));
    assert_eq!(count_of(&app, &b), 75);
}

#[test]
fn copy_over_capacity_is_refused_before_any_copy() {
    let mut app = unlocked();
    let src = app.create_box("src".to_string(), None, vec![], false).unwrap();
    let dst = app.create_box("dst".to_string(), None, vec![], false).unwrap();
    let mut ids = Vec::new();
    for i in 0..3 {
        ids.push(app.create_secret(src.clone(), format!("s{}x", i), "v".to_string()).unwrap());
    }
    for i in 0..73 {
        app.create_secret(dst.clone(), format!("d{}x", i), "v".to_string()).unwrap();
    }
    let before = app.storage.secrets.len();
    let r = app.copy_secrets_to_box(ids.clone(), dst.clone());
    assert!(matches!(r, Err(ZapError::ValidationError(_))));
    assert_eq!(app.storage.secrets.len(), before);
    assert_eq!(app.get_box(&dst).unwrap().secrets_count, 73);
    let copied = app.copy_secrets_to_box(ids[0..2].to_vec(), dst.clone()).unwrap();
    assert_eq!(copied.len(), 2);
    assert_eq!(app.get_box(&dst).unwrap().secrets_count, 75);
}

#[test]
fn copy_skips_existing_names() {
    let mut app = unlocked();
    let a = app.create_box("a".to_string(), None, vec![], false).unwrap();
    let b = app.create_box("b".to_string(), None, vec![], false).unwrap();
    let s1 = app.create_secret(a.clone(), "TOKEN".to_string(), "one".to_string()).unwrap();
    let s2 = app.create_secret(a.clone(), "OTHER".to_string(), "two".to_string()).unwrap();
    app.create_secret(b.clone(), "TOKEN".to_string(), "mine".to_string()).unwrap();
    let copied = app.copy_secrets_to_box(vec![s1, s2, "missing".to_string()], b.clone()).unwrap();
    assert_eq!(copied, vec!["OTHER".to_string()]);
    assert_eq!(app.get_box(&b).unwrap().secrets_count, 2);
    let found = app.storage.get_secret_by_name_in_box("OTHER", &b).unwrap();
    assert_eq!(app.reveal_secret_value(&found.id).unwrap(), "two");
}

#[test]
fn counts_follow_creates_deletes_and_copies() {
    let mut app = unlocked();
    let a = app.create_box("a".to_string(), None, vec![], false).unwrap();
    let b = app.create_box("b".to_string(), None, vec![], false).unwrap();
    let mut ids = Vec::new();
    for i in 0..5 {
        ids.push(app.create_secret(a.clone(), format!("k{}k", i), "v".to_string()).unwrap());
    }
    app.delete_secret(&ids[0]).unwrap();
    app.delete_selected_secrets(vec![ids[1].clone(), "nope".to_string()]).unwrap();
    app.copy_secrets_to_box(vec![ids[2].clone(), ids[3].clone()], b.clone()).unwrap();
    for id in [&a, &b] {
        assert_eq!(app.get_box(id).unwrap().secrets_count, count_of(&app, id));
    }
    assert_eq!(app.get_box(&a).unwrap().secrets_count, 3);
    assert_eq!(app.get_box(&b).unwrap().secrets_count, 2);
}

#[test]
fn secret_names_unique_per_box_and_validated() {
    let mut app = unlocked();
    let a = app.create_box("a".to_string(), None, vec![], false).unwrap();
    app.create_secret(a.clone(), "DB_URL".to_string(), "x".to_string()).unwrap();
    assert!(matches!(
        app.create_secret(a.clone(), "DB_URL".to_string(), "y".to_string()),
        Err(ZapError::SecretAlreadyExistsInBox(_))
    ));
    assert!(matches!(app.create_secret(a.clone(), "x".to_string(), "y".to_string()), Err(ZapError::ValidationError(_))));
    assert!(matches!(
        app.create_secret(a.clone(), "bad\u{7}name".to_string(), "y".to_string()),
        Err(ZapError::ValidationError(_))
    ));
    assert!(app.create_secret(a.clone(), "tab\tname".to_string(), "y".to_string()).is_ok());
    assert!(matches!(
        app.create_secret("nobox".to_string(), "NAME".to_string(), "y".to_string()),
        Err(ZapError::BoxNotFound(_))
    ));
}

#[test]
fn update_and_reveal_secret() {
    let mut app = unlocked();
    let a = app.create_box("a".to_string(), None, vec![], false).unwrap();
    let id = app.create_secret(a.clone(), "API".to_string(), "first".to_string()).unwrap();
    app.update_secret(&id, Some("API_KEY".to_string()), Some("second".to_string())).unwrap();
    assert_eq!(app.reveal_secret_value(&id).unwrap(), "second");
    assert_eq!(app.storage.get_secret(&id).unwrap().name, "API_KEY");
    let stored = app.storage.get_secret(&id).unwrap();
    assert_ne!(stored.encrypted_value.cipher, b"second".to_vec());
    assert!(matches!(app.reveal_secret_value("missing"), Err(ZapError::SecretNotFound(_))));
}

#[test]
fn search_scenario() {
    let mut app = unlocked();
    app.create_box("api-keys".to_string(), None, vec!["prod".to_string(), "db".to_string()], false).unwrap();
    app.create_box("other".to_string(), None, vec!["dev".to_string()], false).unwrap();
    let r = app.search_boxes_global("", &vec!["prod".to_string()]).unwrap();
    assert_eq!(r.len(), 1);
    assert_eq!(r[0].name, "api-keys");
    let r = app.search_boxes_global("keys", &vec![]).unwrap();
    assert_eq!(r.len(), 1);
    assert_eq!(r[0].name, "api-keys");
    let r = app.search_boxes_global("KEYS", &vec![]).unwrap();
    assert_eq!(r.len(), 1);
    let r = app.search_boxes_global("zzz", &vec!["staging".to_string()]).unwrap();
    assert!(r.is_empty());
    let r = app.search_boxes_global("  ", &vec![]).unwrap();
    assert_eq!(r.len(), 2);
    let r = app.search_boxes_global("zzz", &vec!["dev".to_string()]).unwrap();
    assert_eq!(r.len(), 1);
    assert_eq!(r[0].name, "other");
}

#[test]
fn secret_search_in_box() {
    let mut app = unlocked();
    let a = app.create_box("a".to_string(), None, vec![], false).unwrap();
    app.create_secret(a.clone(), "Stripe Key".to_string(), "v".to_string()).unwrap();
    app.create_secret(a.clone(), "DB_PASSWORD".to_string(), "v".to_string()).unwrap();
    assert_eq!(app.search_secrets_in_box(&a, "stripe").unwrap().len(), 1);
    assert_eq!(app.search_secrets_in_box(&a, "").unwrap().len(), 2);
    assert_eq!(app.search_secrets_in_box(&a, "zzz").unwrap().len(), 0);
}

#[test]
fn expired_session_blocks_domain_calls() {
    let mut app = unlocked();
    let a = app.create_box("a".to_string(), None, vec![], false).unwrap();
    let mut running = true;
    let mut seconds = 0;
    while running {
        running = app.tick_timer();
        seconds += 1;
    }
    assert_eq!(seconds, 300);
    assert!(app.is_locked());
    assert!(matches!(app.get_master_key(), Err(ZapError::SessionExpired)));
    assert!(matches!(app.get_all_boxes(), Err(ZapError::SessionExpired)));
    assert!(matches!(app.get_box(&a), Err(ZapError::SessionExpired)));
    assert!(matches!(app.create_box("b".to_string(), None, vec![], false), Err(ZapError::SessionExpired)));
    assert!(matches!(app.create_secret(a.clone(), "NAME".to_string(), "v".to_string()), Err(ZapError::SessionExpired)));
    assert!(matches!(app.delete_box(&a), Err(ZapError::SessionExpired)));
    assert!(matches!(app.search_boxes_global("", &vec![]), Err(ZapError::SessionExpired)));
    assert!(app.storage.logs.iter().any(|l| l.action == "Session_Expired"));
}

#[test]
fn unlock_wrong_password_after_reload() {
    let mut app = unlocked();
    let config = app.storage.load_auth_config().unwrap();
    let mut reloaded = AppState::new();
    reloaded.storage.save_auth_config(&config);
    assert_eq!(reloaded.initialize().unwrap(), false);
    assert!(matches!(reloaded.unlock("wrongpass"), Err(ZapError::IncorrectPassword)));
    assert_eq!(reloaded.unlock("correctpassword").unwrap(), false);
    app.lock();
    assert!(app.is_locked());
}

#[test]
fn settings_update_applies_timeout() {
    let mut app = unlocked();
    assert_eq!(app.get_settings().password_timeout_minutes, 5);
    let r = app.update_settings(Settings { password_timeout_minutes: 61, theme: "dark".to_string() });
    assert!(matches!(r, Err(ZapError::AuthError(_))));
    app.update_settings(Settings { password_timeout_minutes: 10, theme: "light".to_string() }).unwrap();
    assert_eq!(app.get_session_time_left(), 600);
    assert_eq!(app.storage.load_auth_config().unwrap().session_timeout_minutes, 10);
    assert_eq!(app.get_settings().theme, "light");
}

#[test]
fn logs_and_clear_with_password() {
    let mut app = unlocked();
    app.create_box("a".to_string(), None, vec![], false).unwrap();
    let logs = app.get_all_logs().unwrap();
    assert!(logs.iter().any(|l| l.action == "Create_Box" && l.message == "Box 'a' created"));
    assert!(matches!(app.clear_all_logs("wrongpass"), Err(ZapError::IncorrectPassword)));
    let n = app.clear_all_logs("correctpassword").unwrap();
    assert_eq!(n, logs.len());
    assert_eq!(app.storage.count_log_entries(), 0);
}

#[test]
fn vault_stats_count() {
    let mut app = unlocked();
    let a = app.create_box("a".to_string(), None, vec![], true).unwrap();
    app.create_box("b".to_string(), None, vec![], false).unwrap();
    app.create_secret(a.clone(), "NAME".to_string(), "v".to_string()).unwrap();
    let s = app.get_vault_stats().unwrap();
    assert_eq!(s.total_boxes, 2);
    assert_eq!(s.dev_boxes, 1);
    assert_eq!(s.total_secrets, 1);
}

#[test]
fn bulk_delete_boxes_skips_missing() {
    let mut app = unlocked();
    let a = app.create_box("a".to_string(), None, vec![], false).unwrap();
    let b = app.create_box("b".to_string(), None, vec![], false).unwrap();
    let out = app.delete_selected_boxes(vec![a.clone(), "missing".to_string()]).unwrap();
    assert_eq!(out.done, vec!["a".to_string()]);
    assert_eq!(out.failed, vec!["missing".to_string()]);
    assert!(app.get_box(&b).is_ok());
    assert!(matches!(app.get_box(&a), Err(ZapError::BoxNotFound(_))));
}

#[test]
fn bulk_delete_secrets_reports_missing() {
    let mut app = unlocked();
    let a = app.create_box("a".to_string(), None, vec![], false).unwrap();
    let s1 = app.create_secret(a.clone(), "ONE1".to_string(), "v".to_string()).unwrap();
    let s2 = app.create_secret(a.clone(), "TWO2".to_string(), "v".to_string()).unwrap();
    let out = app.delete_selected_secrets(vec![s1.clone(), "ghost".to_string(), s1.clone(), s2]).unwrap();
    assert_eq!(out.done, vec!["ONE1".to_string(), "TWO2".to_string()]);
    assert_eq!(out.failed, vec!["ghost".to_string(), s1]);
    assert_eq!(app.get_box(&a).unwrap().secrets_count, 0);
}

#[test]
fn update_secret_keeps_others() {
    let mut app = unlocked();
    let a = app.create_box("a".to_string(), None, vec![], false).unwrap();
    let s1 = app.create_secret(a.clone(), "ONE1".to_string(), "first".to_string()).unwrap();
    let s2 = app.create_secret(a.clone(), "TWO2".to_string(), "second".to_string()).unwrap();
    assert!(matches!(
        app.update_secret(&s1, Some("TWO2".to_string()), None),
        Err(ZapError::SecretAlreadyExistsInBox(_))
    ));
    app.update_secret(&s1, None, Some("changed".to_string())).unwrap();
    assert_eq!(app.reveal_secret_value(&s1).unwrap(), "changed");
    assert_eq!(app.reveal_secret_value(&s2).unwrap(), "second");
    assert!(matches!(app.update_secret("nope", None, None), Err(ZapError::SecretNotFound(_))));
}

#[test]
fn update_box_fields() {
    let mut app = unlocked();
    let a = app.create_box("a".to_string(), None, vec![], false).unwrap();
    let b = app.create_box("b".to_string(), None, vec![], false).unwrap();
    app.update_box(&a, None, Some(Some("desc".to_string())), Some(vec!["x1".to_string()]), Some(true)).unwrap();
    let got = app.get_box(&a).unwrap();
    assert_eq!(got.description, Some("desc".to_string()));
    assert_eq!(got.tags, vec!["x1".to_string()]);
    assert!(got.dev_mode);
    assert_eq!(app.get_box(&b).unwrap().description, None);
    assert!(matches!(app.update_box("nope", None, None, None, None), Err(ZapError::BoxNotFound(_))));
}

#[test]
fn settings_out_of_range_change_nothing() {
    let mut app = unlocked();
    app.update_settings(Settings { password_timeout_minutes: 20, theme: "dark".to_string() }).unwrap();
    let r = app.update_settings(Settings { password_timeout_minutes: 261, theme: "x".to_string() });
    assert!(matches!(r, Err(ZapError::AuthError(_))));
    assert_eq!(app.get_settings().password_timeout_minutes, 20);
    assert_eq!(app.storage.load_auth_config().unwrap().session_timeout_minutes, 20);
}
