use zap_vault::app_state::AppState;
use zap_vault::envfile::{env_var_name, env_var_to_secret_name, parse_env_content};
use zap_vault::error::ZapError;
use zap_vault::import_export::{BoxExport, ImportResult, SecretExport, VaultExport};
use zap_vault::secret::{EncryptedData, Secret};

fn unlocked() -> AppState {
    let mut app = AppState::new();
    app.initialize().unwrap();
    app.unlock("correctpassword").unwrap();
    app
}

fn pairs(text: &str) -> Vec<(String, String)> {
    parse_env_content(text)
}

#[test]
fn env_parsing_rules() {
    let text = "# comment\n\nDB_URL=postgres://x\n  KEY = value with spaces  \r\nQUOTED=\"say \\\"hi\\\"\"\nSINGLE='abc'\nNOEQUALS\n=novalue\nLAST=1";
    let p = pairs(text);
    assert_eq!(
        p,
        vec![
            ("DB_URL".to_string(), "postgres://x".to_string()),
            ("KEY".to_string(), "value with spaces".to_string()),
            ("QUOTED".to_string(), "say \"hi\"".to_string()),
            ("SINGLE".to_string(), "abc".to_string()),
            ("LAST".to_string(), "1".to_string()),
        ]
    );
    assert!(pairs("").is_empty());
    assert!(pairs("# only\n\n").is_empty());
    assert_eq!(pairs("A=b=c"), vec![("A".to_string(), "b=c".to_string())]);
    assert_eq!(pairs("Q=\""), vec![("Q".to_string(), "\"".to_string())]);
}

#[test]
fn env_names_both_ways() {
    assert_eq!(env_var_to_secret_name("DB_URL"), "Db Url");
    assert_eq!(env_var_to_secret_name("API"), "Api");
    assert_eq!(env_var_to_secret_name("A__B"), "A  B");
    assert_eq!(env_var_to_secret_name(""), "");
    assert_eq!(env_var_name("Db Url", None), "DB_URL");
    assert_eq!(env_var_name("  stripe--key!! ", None), "STRIPE_KEY");
    assert_eq!(env_var_name("token", Some("my app")), "MY_APP_TOKEN");
    let s = Secret::new("b".to_string(), "api key".to_string(), EncryptedData::empty()).unwrap();
    assert_eq!(s.to_env_var_name(Some("prod")), "PROD_API_KEY");
}

#[test]
fn import_result_summary() {
    let mut r = ImportResult::new();
    assert!(!r.has_errors());
    r.boxes_imported = 2;
    r.secrets_imported = 15;
    r.add_error("x".to_string());
    assert!(r.has_errors());
    assert_eq!(r.success_summary(), "Imported 2 boxes with 15 secrets");
    assert_eq!(ImportResult::new().success_summary(), "Imported 0 boxes with 0 secrets");
}

#[test]
fn export_then_import_vault() {
    let mut app = unlocked();
    let b = app.create_box("api-keys".to_string(), Some("keys".to_string()), vec!["prod".to_string()], true).unwrap();
    app.create_secret(b.clone(), "STRIPE".to_string(), "sk_live".to_string()).unwrap();
    app.create_secret(b.clone(), "OTHER".to_string(), "two words".to_string()).unwrap();
    let export = app.export_vault().unwrap();
    assert_eq!(export.version, "1.0");
    assert_eq!(export.total_boxes, 1);
    assert_eq!(export.total_secrets, 2);
    assert_eq!(export.boxes[0].secrets[0].value, "sk_live");

    let mut other = AppState::new();
    other.initialize().unwrap();
    other.unlock("anotherpassword").unwrap();
    let result = other.import_vault(export).unwrap();
    assert_eq!(result.boxes_imported, 1);
    assert_eq!(result.secrets_imported, 2);
    let id = other.storage.get_box_id_by_name("api-keys").unwrap();
    let found = other.storage.get_secret_by_name_in_box("OTHER", &id).unwrap();
    assert_eq!(other.reveal_secret_value(&found.id).unwrap(), "two words");
    assert_eq!(other.get_box(&id).unwrap().secrets_count, 2);
}

#[test]
fn import_vault_skips_existing_and_rejects_empty() {
    let mut app = unlocked();
    app.create_box("taken".to_string(), None, vec![], false).unwrap();
    let empty = VaultExport { version: "1.0".to_string(), total_boxes: 0, total_secrets: 0, boxes: vec![] };
    assert!(matches!(app.import_vault(empty), Err(ZapError::StorageError(_))));
    let data = VaultExport {
        version: "1.0".to_string(),
        total_boxes: 2,
        total_secrets: 1,
        boxes: vec![
            BoxExport { name: "taken".to_string(), description: None, tags: vec![], dev_mode: false, secrets: vec![] },
            BoxExport {
                name: "fresh".to_string(),
                description: None,
                tags: vec!["BAD TAG".to_string()],
                dev_mode: false,
                secrets: vec![SecretExport { name: "A1".to_string(), value: "v".to_string() }],
            },
        ],
    };
    let r = app.import_vault(data).unwrap();
    assert_eq!(r.boxes_imported, 0);
    assert_eq!(r.errors.len(), 1);
}

#[test]
fn import_env_into_box() {
    let mut app = unlocked();
    let b = app.create_box("env".to_string(), None, vec![], false).unwrap();
    app.create_secret(b.clone(), "Db Url".to_string(), "old".to_string()).unwrap();
    let r = app.import_env_to_box("DB_URL=x\nAPI_KEY=\"k y\"\nX=1\n", b.clone()).unwrap();
    assert_eq!(r.secrets_imported, 1);
    assert_eq!(r.errors.len(), 2);
    let s = app.storage.get_secret_by_name_in_box("Api Key", &b).unwrap();
    assert_eq!(app.reveal_secret_value(&s.id).unwrap(), "k y");
    assert_eq!(app.get_box(&b).unwrap().secrets_count, 2);
    assert!(matches!(app.import_env_to_box("# nothing\n", b.clone()), Err(ZapError::StorageError(_))));
    assert!(matches!(app.import_env_to_box("A=1", "missing".to_string()), Err(ZapError::BoxNotFound(_))));
}

#[test]
fn import_env_over_capacity() {
    let mut app = unlocked();
    let b = app.create_box("full".to_string(), None, vec![], false).unwrap();
    for i in 0..74 {
        app.create_secret(b.clone(), format!("s{}x", i), "v".to_string()).unwrap();
    }
    let r = app.import_env_to_box("AA=1\nBB=2\n", b.clone());
    assert!(matches!(r, Err(ZapError::BoxCapacityExceeded)));
    assert_eq!(app.get_box(&b).unwrap().secrets_count, 74);
}

#[test]
fn export_box_as_env_text() {
    let mut app = unlocked();
    let b = app.create_box("web".to_string(), Some("frontend".to_string()), vec!["prod".to_string(), "db".to_string()], false).unwrap();
    assert!(matches!(app.export_box_as_env(b.clone(), None), Err(ZapError::StorageError(_))));
    app.create_secret(b.clone(), "db url".to_string(), "postgres://x".to_string()).unwrap();
    app.create_secret(b.clone(), "greeting".to_string(), "say \"hi\"".to_string()).unwrap();
    let text = app.export_box_as_env(b.clone(), Some("app".to_string())).unwrap();
    assert!(text.starts_with("# Box: web\n# Description: frontend\n# Tags: prod, db\n# Exported: "));
    assert!(text.ends_with("\n\nAPP_DB_URL=postgres://x\nAPP_GREETING=\"say \\\"hi\\\"\"\n"));
}

#[test]
fn ids_are_fresh() {
    let mut app = unlocked();
    let a = app.create_box("a".to_string(), None, vec![], false).unwrap();
    let b = app.create_box("b".to_string(), None, vec![], false).unwrap();
    assert_ne!(a, b);
    assert_eq!(a.len(), 36);
}
