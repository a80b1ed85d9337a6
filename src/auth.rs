use crate::crypto::{argon2_check, argon2_key, CryptoService, ARGON2_MAX_INPUT};
use vstd::string::StringSliceAdditionalSpecFns;
use crate::error::ZapError;
use crate::stamp::now_seconds;
use crate::text::{trimmed, trimmed_len};
use vstd::prelude::*;

verus! {

/// In-memory lock state: whether the vault is open, the countdown, and the
/// master key while open.
#[derive(Debug)]
pub struct SessionState {
    pub is_unlocked: bool,
    pub time_left_seconds: u32,
    pub master_key: Option<[u8; 32]>,
    pub last_activity: Option<i64>,
}

/// The key is held exactly while the session is open, and a closed session
/// has no time left.
pub open spec fn session_inv(s: SessionState) -> bool {
    &&& s.is_unlocked <==> s.master_key is Some
    &&& !s.is_unlocked ==> s.time_left_seconds == 0
}

/// The closed session.
pub open spec fn locked_state() -> SessionState {
    SessionState { is_unlocked: false, time_left_seconds: 0, master_key: None, last_activity: None }
}

/// The session after one second has passed.
pub open spec fn ticked(s: SessionState) -> SessionState {
    if s.is_unlocked && s.time_left_seconds > 0 {
        if s.time_left_seconds == 1 {
            locked_state()
        } else {
            SessionState { time_left_seconds: (s.time_left_seconds - 1) as u32, ..s }
        }
    } else {
        s
    }
}

/// The session after `n` seconds have passed.
pub open spec fn after_ticks(s: SessionState, n: nat) -> SessionState
    decreases n,
{
    if n == 0 {
        s
    } else {
        after_ticks(ticked(s), (n - 1) as nat)
    }
}

/// An open session with `t` seconds left is closed, its key dropped, after
/// `t` further seconds.
pub proof fn lemma_ticks_expire(s: SessionState, t: nat)
    requires
        s.is_unlocked,
        s.time_left_seconds == t,
        t > 0,
    ensures
        after_ticks(s, t) == locked_state(),
    decreases t,
{
    if t == 1 {
        assert(after_ticks(locked_state(), 0) == locked_state());
    } else {
        let n = ticked(s);
        assert(n.is_unlocked && n.time_left_seconds == t - 1);
        lemma_ticks_expire(n, (t - 1) as nat);
    }
}

/// Unlocking with a timeout of `minutes` and then letting `minutes * 60`
/// seconds pass leaves the session locked with no master key.
pub proof fn lemma_session_lifecycle(s: SessionState, key: [u8; 32], minutes: u32)
    requires
        1 <= minutes <= 60,
        s.is_unlocked,
        s.master_key == Some(key),
        s.time_left_seconds == minutes * 60,
    ensures
        !after_ticks(s, (minutes * 60) as nat).is_unlocked,
        after_ticks(s, (minutes * 60) as nat).master_key is None,
{
    lemma_ticks_expire(s, (minutes * 60) as nat);
}

impl SessionState {
    pub fn new() -> (r: Self)
        ensures
            r == locked_state(),
    {
        SessionState { is_unlocked: false, time_left_seconds: 0, master_key: None, last_activity: None }
    }

    /// Opens the session with `master_key` for `timeout_minutes`.
    pub fn unlock(&mut self, master_key: [u8; 32], timeout_minutes: u32)
        requires
            timeout_minutes * 60 <= u32::MAX,
        ensures
            final(self).is_unlocked,
            final(self).master_key == Some(master_key),
            final(self).time_left_seconds == timeout_minutes * 60,
            final(self).last_activity is Some,
    {
        self.is_unlocked = true;
        self.master_key = Some(master_key);
        self.time_left_seconds = timeout_minutes * 60;
        self.last_activity = Some(now_seconds());
    }

    /// Closes the session and drops the key; idempotent.
    pub fn lock(&mut self)
        ensures
            *final(self) == locked_state(),
    {
        self.is_unlocked = false;
        self.time_left_seconds = 0;
        self.master_key = None;
        self.last_activity = None;
    }

    /// One second passes; reaching zero locks.
    pub fn tick(&mut self)
        ensures
            *final(self) == ticked(*old(self)),
    {
        if self.is_unlocked && self.time_left_seconds > 0 {
            self.time_left_seconds = self.time_left_seconds - 1;
            if self.time_left_seconds == 0 {
                self.lock();
            }
        }
    }

    /// Restarts the countdown of an open session.
    pub fn reset_timer(&mut self, timeout_minutes: u32)
        requires
            timeout_minutes * 60 <= u32::MAX,
        ensures
            old(self).is_unlocked ==> final(self).time_left_seconds == timeout_minutes * 60
                && final(self).last_activity is Some && final(self).is_unlocked
                && final(self).master_key == old(self).master_key,
            !old(self).is_unlocked ==> *final(self) == *old(self),
    {
        if self.is_unlocked {
            self.time_left_seconds = timeout_minutes * 60;
            self.last_activity = Some(now_seconds());
        }
    }
}

impl Default for SessionState {
    fn default() -> (r: Self)
        ensures
            r == locked_state(),
    {
        Self::new()
    }
}

/// Persisted authentication settings: the timeout, the password hash once
/// set, and the vault's fixed salt.
#[derive(Debug)]
pub struct AuthConfig {
    pub session_timeout_minutes: u8,
    pub master_password_hash: Option<String>,
    pub salt: [u8; 32],
}

pub open spec fn timeout_ok(m: int) -> bool {
    5 <= m <= 60
}

pub fn copy_opt_string(s: &Option<String>) -> (r: Option<String>)
    ensures
        r == *s,
{
    match s {
        Some(x) => Some(x.clone()),
        None => None,
    }
}

impl AuthConfig {
    pub fn new(salt: [u8; 32]) -> (r: Self)
        ensures
            r.session_timeout_minutes == 5,
            r.master_password_hash is None,
            r.salt == salt,
    {
        AuthConfig { session_timeout_minutes: 5, master_password_hash: None, salt }
    }

    pub fn is_first_time_setup(&self) -> (r: bool)
        ensures
            r == self.master_password_hash is None,
    {
        self.master_password_hash.is_none()
    }

    pub fn set_timeout_minutes(&mut self, minutes: u8) -> (r: Result<(), ZapError>)
        ensures
            timeout_ok(minutes as int) <==> r is Ok,
            r is Ok ==> (*final(self) == AuthConfig { session_timeout_minutes: minutes, ..*old(self) }),
            r is Err ==> (*final(self) == *old(self)),
            (r matches Err(e) ==> e is AuthError),
    {
        if minutes < 5 || minutes > 60 {
            return Err(ZapError::AuthError("Session timeout must be between 5 and 60 minutes".to_string()));
        }
        self.session_timeout_minutes = minutes;
        Ok(())
    }

    /// A field-by-field copy.
    pub fn duplicate(&self) -> (r: Self)
        ensures
            r == *self,
    {
        AuthConfig {
            session_timeout_minutes: self.session_timeout_minutes,
            master_password_hash: copy_opt_string(&self.master_password_hash),
            salt: self.salt,
        }
    }
}

/// What the interface shows of the session.
#[derive(Debug)]
pub struct SessionInfo {
    pub is_locked: bool,
    pub time_left_seconds: u32,
}

/// A non-blank password offered while no password is set.
pub open spec fn first_use(c: Option<AuthConfig>, password: Seq<char>) -> bool {
    c matches Some(c) && c.master_password_hash is None && trimmed(password).len() > 0
}

/// A non-blank password offered against a stored hash.
pub open spec fn returning(c: Option<AuthConfig>, password: Seq<char>) -> bool {
    c matches Some(c) && c.master_password_hash is Some && trimmed(password).len() > 0
}

/// `after` is `before` with a hash of `password` stored.
pub open spec fn set_up(before: AuthConfig, after: Option<AuthConfig>, password: Seq<char>) -> bool {
    after matches Some(n) && n.master_password_hash matches Some(h) && argon2_check(password, h@)
        == Some(true) && n.salt == before.salt && n.session_timeout_minutes
        == before.session_timeout_minutes
}

/// The authentication state machine: configuration, session and key custody.
pub struct AuthService {
    pub session: SessionState,
    pub config: Option<AuthConfig>,
    pub crypto: CryptoService,
}

impl AuthService {
    pub open spec fn inv(&self) -> bool {
        session_inv(self.session)
    }

    pub fn new() -> (r: Self)
        ensures
            r.session == locked_state(),
            r.config is None,
            r.inv(),
    {
        AuthService { session: SessionState::new(), config: None, crypto: CryptoService::new() }
    }

    /// Installs `config`, or a fresh one with a new random salt; reports
    /// whether no password has been set yet.
    pub fn initialize(&mut self, config: Option<AuthConfig>) -> (r: Result<bool, ZapError>)
        requires
            old(self).inv(),
        ensures
            final(self).inv(),
            final(self).session == old(self).session,
            config matches Some(c) ==> final(self).config == Some(c) && r == Ok::<bool, ZapError>(c.master_password_hash is None),
            config is None ==> r == Ok::<bool, ZapError>(true),
            config is None ==> (final(self).config matches Some(c) && c.master_password_hash is None
                && c.session_timeout_minutes == 5),
    {
        match config {
            Some(c) => {
                let first = c.is_first_time_setup();
                self.config = Some(c);
                Ok(first)
            },
            None => {
                let salt = self.crypto.generate_salt();
                self.config = Some(AuthConfig::new(salt));
                Ok(true)
            },
        }
    }

    /// Opens the vault with `password`. On first use it sets the password
    /// (at least eight characters) and reports `true`; afterwards the password
    /// must match the stored hash, and it reports `false`.
    pub fn unlock(&mut self, password: &str) -> (r: Result<bool, ZapError>)
        requires
            old(self).inv(),
        ensures
            final(self).inv(),
            trimmed(password@).len() == 0 ==> (r matches Err(ZapError::AuthError(_))),
            trimmed(password@).len() == 0 ==> final(self).config == old(self).config,
            old(self).config is None ==> (r matches Err(ZapError::AuthError(_))),
            old(self).config is None ==> final(self).config == old(self).config,
            first_use(old(self).config, password@) && password@.len() < 8 ==> final(self).config == old(self).config,
            first_use(old(self).config, password@) && password@.len() >= 8 && password.spec_bytes().len()
                <= ARGON2_MAX_INPUT ==> r == Ok::<bool, ZapError>(true),
            returning(old(self).config, password@) && argon2_check(
                password@,
                old(self).config.unwrap().master_password_hash.unwrap()@,
            ) == Some(true) && password.spec_bytes().len() <= ARGON2_MAX_INPUT ==> r == Ok::<bool, ZapError>(false),
            r is Err ==> final(self).session == old(self).session,
            r is Ok ==> old(self).config is Some && trimmed(password@).len() > 0,
            r matches Ok(first) ==> first == old(self).config.unwrap().master_password_hash is None,
            r is Ok ==> final(self).session.is_unlocked,
            r is Ok ==> (final(self).session.master_key matches Some(k)
                && k@ == argon2_key(password@, old(self).config.unwrap().salt@)),
            r is Ok ==> final(self).session.time_left_seconds
                == old(self).config.unwrap().session_timeout_minutes as u32 * 60,
            first_use(old(self).config, password@) && password@.len() < 8
                ==> (r matches Err(ZapError::AuthError(_))),
            first_use(old(self).config, password@) && r is Ok ==> set_up(
                old(self).config.unwrap(),
                final(self).config,
                password@,
            ),
            returning(old(self).config, password@) ==> final(self).config == old(self).config,
            returning(old(self).config, password@) && argon2_check(
                password@,
                old(self).config.unwrap().master_password_hash.unwrap()@,
            ) == Some(false) ==> (r matches Err(ZapError::IncorrectPassword)),
            returning(old(self).config, password@) && argon2_check(
                password@,
                old(self).config.unwrap().master_password_hash.unwrap()@,
            ) is None ==> (r matches Err(ZapError::CryptoError(_))),
            returning(old(self).config, password@) && r is Ok ==> argon2_check(
                password@,
                old(self).config.unwrap().master_password_hash.unwrap()@,
            ) == Some(true),
    {
        if trimmed_len(password) == 0 {
            return Err(ZapError::AuthError("Password cannot be empty".to_string()));
        }
        let cfg = match self.config.take() {
            Some(c) => c,
            None => {
                return Err(ZapError::AuthError("Auth not initialized".to_string()));
            },
        };
        let mut cfg = cfg;
        let timeout_minutes = cfg.session_timeout_minutes as u32;
        if cfg.master_password_hash.is_none() {
            if password.unicode_len() < 8 {
                self.config = Some(cfg);
                return Err(ZapError::AuthError("Password must be at least 8 characters".to_string()));
            }
            let hash = match self.crypto.hash_password(password) {
                Ok(h) => h,
                Err(e) => {
                    self.config = Some(cfg);
                    return Err(e);
                },
            };
            cfg.master_password_hash = Some(hash);
            let derived = self.crypto.derive_key(password, &cfg.salt);
            self.config = Some(cfg);
            let master_key = derived?;
            self.session.unlock(master_key, timeout_minutes);
            Ok(true)
        } else {
            let verified = match &cfg.master_password_hash {
                Some(stored) => self.crypto.verify_password(password, stored.as_str()),
                None => Ok(false),
            };
            let derived = self.crypto.derive_key(password, &cfg.salt);
            self.config = Some(cfg);
            match verified {
                Err(e) => {
                    return Err(e);
                },
                Ok(false) => {
                    return Err(ZapError::IncorrectPassword);
                },
                Ok(true) => {},
            }
            let master_key = derived?;
            self.session.unlock(master_key, timeout_minutes);
            Ok(false)
        }
    }

    pub fn lock(&mut self)
        ensures
            final(self).session == locked_state(),
            final(self).config == old(self).config,
            final(self).inv(),
    {
        self.session.lock();
    }

    pub fn is_unlocked(&self) -> (r: bool)
        ensures
            r == self.session.is_unlocked,
    {
        self.session.is_unlocked
    }

    pub fn get_session_time_left(&self) -> (r: u32)
        ensures
            r == self.session.time_left_seconds,
    {
        self.session.time_left_seconds
    }

    /// One second of the countdown.
    pub fn tick_session(&mut self)
        requires
            old(self).inv(),
        ensures
            final(self).session == ticked(old(self).session),
            final(self).config == old(self).config,
            final(self).inv(),
    {
        self.session.tick();
    }

    pub fn get_master_key(&self) -> (r: Option<[u8; 32]>)
        ensures
            r == self.session.master_key,
    {
        self.session.master_key
    }

    pub fn get_config(&self) -> (r: Option<AuthConfig>)
        ensures
            r == self.config,
    {
        match &self.config {
            Some(c) => Some(c.duplicate()),
            None => None,
        }
    }

    /// Sets the timeout (5 to 60 minutes) and restarts an open session's
    /// countdown with it; never locks.
    pub fn set_timeout_minutes(&mut self, minutes: u8) -> (r: Result<(), ZapError>)
        requires
            old(self).inv(),
        ensures
            final(self).inv(),
            r is Ok <==> timeout_ok(minutes as int),
            r is Err ==> (*final(self) == *old(self)),
            (r matches Err(e) ==> e is AuthError),
            r is Ok ==> (old(self).config matches Some(c) ==> final(self).config == Some(
                AuthConfig { session_timeout_minutes: minutes, ..c },
            )),
            r is Ok ==> (old(self).config is None ==> final(self).config is None),
            (r is Ok && old(self).config is Some && old(self).session.is_unlocked) ==> (
                final(self).session.is_unlocked
                && final(self).session.time_left_seconds == minutes as u32 * 60
                && final(self).session.master_key == old(self).session.master_key),
            (r is Ok && (old(self).config is None || !old(self).session.is_unlocked))
                ==> final(self).session == old(self).session,
    {
        if minutes < 5 || minutes > 60 {
            return Err(ZapError::AuthError("Timeout must be between 5 and 60 minutes".to_string()));
        }
        match &mut self.config {
            Some(c) => {
                c.session_timeout_minutes = minutes;
                if self.session.is_unlocked {
                    self.session.reset_timer(minutes as u32);
                }
            },
            None => {},
        }
        Ok(())
    }
}

} // verus!
