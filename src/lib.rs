//! An encrypted, box-organised secret vault: crypto primitives, a session
//! state machine guarding the master key, an indexed store with uniqueness and
//! count invariants, and the dev-session hand-off protocol.
pub mod error;
pub mod text;
pub mod secret;
pub mod crypto;
pub mod stamp;
pub mod auth;
pub mod vault_box;
pub mod store;
pub mod log;
pub mod settings;
pub mod dev;
pub mod app_state;
pub mod dev_state;
pub mod import_export;
pub mod envfile;
