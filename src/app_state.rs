use crate::auth::{first_use, returning, ticked, AuthConfig, AuthService, SessionInfo};
use crate::crypto::ARGON2_MAX_INPUT;
use vstd::string::StringSliceAdditionalSpecFns;
use crate::crypto::{argon2_check, encrypts, opened, CryptoService, AEAD_MAX_PLAINTEXT};
use crate::error::ZapError;
use crate::log::{join3, LogEntry};
use crate::import_export::{env_pair_ok, box_fresh, export_secret_ok, name_stored, env_imported, export_box_valid, imported_from, all_open, box_secret_total, env_body, exported_box, exported_secrets, ImportExportService, ImportResult, VaultExport};
use crate::envfile::{env_secret_name, parse_env};
use crate::secret::{secret_name_ok, Secret};
use crate::settings::Settings;
use crate::store::{
    box_pos, box_views, count_in, has_box, has_box_named, has_secret, listed, name_conflict, name_taken,
    search_result, secret_hits, secret_pos, copied_from, deleted_from, box_deleted_from, BulkOutcome, secret_views, secrets_of, StorageService, VaultStats,
};
use crate::text::lower_of;
use crate::text::{trimmed, trimmed_len};
use crate::vault_box::{BoxView, 
    box_name_ok, opt_description_ok, opt_view, strings_view, tags_ok, Box, MAX_SECRETS_PER_BOX,
};
use vstd::prelude::*;
use vstd::utf8::encode_utf8;

verus! {

pub open spec fn is_expired<T>(r: Result<T, ZapError>) -> bool {
    r matches Err(ZapError::SessionExpired)
}

/// `password` passes the check against `config`: a stored hash must match.
pub open spec fn password_accepted(config: Option<AuthConfig>, password: Seq<char>) -> bool {
    match config {
        Some(c) => match c.master_password_hash {
            Some(h) => argon2_check(password, h@) == Some(true),
            None => true,
        },
        None => false,
    }
}

/// The vault as one owner sees it: store, crypto and the session state
/// machine. Every domain operation checks the session first.
pub struct AppState {
    pub storage: StorageService,
    pub crypto: CryptoService,
    pub auth: AuthService,
    pub import_export: ImportExportService,
}

impl AppState {
    pub open spec fn inv(&self) -> bool {
        self.storage.wf() && self.storage.sessions_ok() && self.auth.inv()
    }

    pub open spec fn unlocked(&self) -> bool {
        self.auth.session.is_unlocked
    }

    pub open spec fn master(&self) -> Seq<u8> {
        self.auth.session.master_key.unwrap()@
    }

    /// The store's vault tables and session records are as they were.
    pub open spec fn same_data(&self, other: &AppState) -> bool {
        &&& self.storage.boxes@ == other.storage.boxes@
        &&& self.storage.secrets@ == other.storage.secrets@
        &&& self.storage.sessions@ == other.storage.sessions@
    }

    /// An empty vault, locked and not yet initialised.
    pub fn new() -> (r: Self)
        ensures
            r.inv(),
            !r.unlocked(),
            r.storage.boxes@.len() == 0 && r.storage.secrets@.len() == 0,
    {
        AppState {
            storage: StorageService::new(),
            crypto: CryptoService::new(),
            auth: AuthService::new(),
            import_export: ImportExportService::new(),
        }
    }

    /// A locked vault over an existing store.
    pub fn with_storage(storage: StorageService) -> (r: Self)
        requires
            storage.wf(),
            storage.sessions_ok(),
        ensures
            r.inv(),
            !r.unlocked(),
            r.storage == storage,
    {
        AppState { storage, crypto: CryptoService::new(), auth: AuthService::new(), import_export: ImportExportService::new() }
    }

    fn ensure_unlocked(&self) -> (r: Result<(), ZapError>)
        ensures
            r is Ok <==> self.unlocked(),
            r is Err ==> is_expired(r),
    {
        if self.auth.is_unlocked() {
            Ok(())
        } else {
            Err(ZapError::SessionExpired)
        }
    }

    /// Loads the persisted authentication settings into the state machine;
    /// reports whether no password is set yet.
    pub fn initialize(&mut self) -> (r: Result<bool, ZapError>)
        requires
            old(self).inv(),
        ensures
            final(self).inv(),
            final(self).same_data(old(self)),
            final(self).auth.session == old(self).auth.session,
            old(self).storage.auth_config matches Some(c) ==> r == Ok::<bool, ZapError>(c.master_password_hash is None)
                && final(self).auth.config == Some(c),
            old(self).storage.auth_config is None ==> r == Ok::<bool, ZapError>(true),
    {
        self.storage.log("App_Start".to_string(), "Application started".to_string(), None);
        let config = self.storage.load_auth_config();
        self.auth.initialize(config)
    }

    /// Opens the vault; on first use the new configuration is persisted.
    pub fn unlock(&mut self, password: &str) -> (r: Result<bool, ZapError>)
        requires
            old(self).inv(),
        ensures
            final(self).inv(),
            final(self).same_data(old(self)),
            trimmed(password@).len() == 0 ==> (r matches Err(ZapError::AuthError(_))),
            r is Ok ==> final(self).unlocked(),
            r is Ok ==> final(self).master() == crate::crypto::argon2_key(password@, old(self).auth.config.unwrap().salt@),
            r is Err ==> final(self).auth.session == old(self).auth.session,
            r == Ok::<bool, ZapError>(true) ==> final(self).storage.auth_config == final(self).auth.config,
            trimmed(password@).len() == 0 ==> final(self).auth.config == old(self).auth.config,
            first_use(old(self).auth.config, password@) && password@.len() >= 8 && password.spec_bytes().len()
                <= ARGON2_MAX_INPUT ==> r == Ok::<bool, ZapError>(true),
            returning(old(self).auth.config, password@) && argon2_check(
                password@,
                old(self).auth.config.unwrap().master_password_hash.unwrap()@,
            ) == Some(true) && password.spec_bytes().len() <= ARGON2_MAX_INPUT ==> r == Ok::<bool, ZapError>(false),
            (old(self).auth.config matches Some(c) && c.master_password_hash matches Some(h) && trimmed(password@).len() > 0
                && argon2_check(password@, h@) == Some(false)) ==> (r matches Err(ZapError::IncorrectPassword)),
    {
        let first = self.auth.unlock(password)?;
        if first {
            match self.auth.get_config() {
                Some(c) => self.storage.save_auth_config(&c),
                None => {},
            }
        }
        self.storage.log("Session_Unlock".to_string(), "User session unlocked".to_string(), None);
        Ok(first)
    }

    /// Closes the vault and drops the master key.
    pub fn lock(&mut self)
        requires
            old(self).inv(),
        ensures
            final(self).inv(),
            final(self).same_data(old(self)),
            !final(self).unlocked(),
            final(self).auth.session.master_key is None,
    {
        self.auth.lock();
        self.storage.log("Session_Lock".to_string(), "User session locked".to_string(), None);
    }

    pub fn is_locked(&self) -> (r: bool)
        ensures
            r == !self.unlocked(),
    {
        !self.auth.is_unlocked()
    }

    /// One second of the session timer. Returns whether the session is still
    /// open; the second that closes it is recorded in the audit log.
    pub fn tick_timer(&mut self) -> (r: bool)
        requires
            old(self).inv(),
        ensures
            final(self).inv(),
            final(self).same_data(old(self)),
            final(self).auth.session == ticked(old(self).auth.session),
            r == final(self).unlocked(),
            old(self).unlocked() && !r ==> final(self).storage.logs@.len() == old(self).storage.logs@.len() + 1,
            !(old(self).unlocked() && !r) ==> final(self).storage.logs@ == old(self).storage.logs@,
    {
        let was = self.auth.is_unlocked();
        self.auth.tick_session();
        let still = self.auth.is_unlocked();
        if was && !still {
            self.storage.log("Session_Expired".to_string(), "Session expired due to inactivity".to_string(), None);
        }
        still
    }

    /// Checks `password` against the stored hash (no hash: accepted).
    pub fn verify_password(&self, password: &str) -> (r: Result<(), ZapError>)
        ensures
            trimmed(password@).len() == 0 ==> (r matches Err(ZapError::AuthError(_))),
            trimmed(password@).len() > 0 ==> (r is Ok <==> password_accepted(self.auth.config, password@)),
    {
        if trimmed_len(password) == 0 {
            return Err(ZapError::AuthError("Password cannot be empty".to_string()));
        }
        match &self.auth.config {
            None => Err(ZapError::AuthError("Auth not initialized".to_string())),
            Some(c) => match &c.master_password_hash {
                None => Ok(()),
                Some(h) => {
                    let ok = self.crypto.verify_password(password, h.as_str())?;
                    if ok {
                        Ok(())
                    } else {
                        Err(ZapError::IncorrectPassword)
                    }
                },
            },
        }
    }

    /// The current master key, or `SessionExpired`.
    pub fn get_master_key(&self) -> (r: Result<[u8; 32], ZapError>)
        ensures
            r is Ok <==> self.auth.session.master_key is Some,
            r matches Ok(k) ==> self.auth.session.master_key == Some(k),
            r is Err ==> is_expired(r),
    {
        match self.auth.get_master_key() {
            Some(k) => Ok(k),
            None => Err(ZapError::SessionExpired),
        }
    }

    pub fn get_session_time_left(&self) -> (r: u32)
        ensures
            r == self.auth.session.time_left_seconds,
    {
        self.auth.get_session_time_left()
    }

    pub fn get_session_info(&self) -> (r: SessionInfo)
        ensures
            r.is_locked == !self.unlocked(),
            r.time_left_seconds == self.auth.session.time_left_seconds,
    {
        SessionInfo { is_locked: self.is_locked(), time_left_seconds: self.get_session_time_left() }
    }

    pub fn get_all_boxes(&self) -> (r: Result<Vec<Box>, ZapError>)
        ensures
            !self.unlocked() ==> is_expired(r),
            self.unlocked() ==> (r matches Ok(v) && box_views(v@) == box_views(self.storage.boxes@)),
    {
        self.ensure_unlocked()?;
        Ok(self.storage.get_all_boxes())
    }

    pub fn get_box(&self, box_id: &str) -> (r: Result<Box, ZapError>)
        requires
            self.inv(),
        ensures
            !self.unlocked() ==> is_expired(r),
            self.unlocked() ==> (r is Ok <==> has_box(self.storage.boxes@, box_id@)),
            r matches Ok(b) ==> b.id@ == box_id@ && b.secrets_count == count_in(self.storage.secrets@, box_id@),
    {
        self.ensure_unlocked()?;
        self.storage.get_box(box_id)
    }
}


/// The fields of a partial box update are all valid.
pub open spec fn box_fields_ok(
    name: Option<String>,
    description: Option<Option<String>>,
    tags: Option<Vec<String>>,
) -> bool {
    &&& name matches Some(n) ==> box_name_ok(n@)
    &&& description matches Some(d) ==> opt_description_ok(opt_view(d))
    &&& tags matches Some(t) ==> tags_ok(strings_view(t@))
}

/// The fields of a new box are all valid.
pub open spec fn box_fields_valid(name: String, description: Option<String>, tags: Vec<String>) -> bool {
    box_name_ok(name@) && opt_description_ok(opt_view(description)) && tags_ok(strings_view(tags@))
}

/// A partial update of secret `i` of `ss` that the store accepts: a new
/// name is valid and unused by another secret of its box, and a new value is
/// within the cipher's bound.
pub open spec fn secret_update_ok(name: Option<String>, value: Option<String>, ss: Seq<Secret>, i: int) -> bool {
    &&& name matches Some(n) ==> secret_name_ok(n@) && (n@ == ss[i].name@ || !name_taken(ss, ss[i].box_id@, n@))
    &&& value matches Some(v) ==> encode_utf8(v@).len() <= AEAD_MAX_PLAINTEXT
}

/// `n` is box `o` after a partial update: each given field replaced, the
/// rest (id included) kept.
pub open spec fn box_updated(
    o: BoxView,
    name: Option<String>,
    description: Option<Option<String>>,
    tags: Option<Vec<String>>,
    dev_mode: Option<bool>,
    n: BoxView,
) -> bool {
    &&& n.id == o.id
    &&& n.name == (match name {
        Some(x) => x@,
        None => o.name,
    })
    &&& n.description == (match description {
        Some(d) => opt_view(d),
        None => o.description,
    })
    &&& n.tags == (match tags {
        Some(t) => strings_view(t@),
        None => o.tags,
    })
    &&& n.dev_mode == (match dev_mode {
        Some(d) => d,
        None => o.dev_mode,
    })
    &&& n.created_at == o.created_at
}

/// A new name that another box already has.
pub open spec fn rename_conflict(name: Option<String>, bs: Seq<Box>, id: Seq<char>) -> bool {
    name matches Some(n) && name_conflict(bs, n@, id)
}

/// A new name, if any, is carried by some box.
pub open spec fn named_in(name: Option<String>, bs: Seq<Box>) -> bool {
    name matches Some(n) ==> has_box_named(bs, n@)
}

impl AppState {
    /// Creates a box; returns its id.
    pub fn create_box(
        &mut self,
        name: String,
        description: Option<String>,
        tags: Vec<String>,
        dev_mode: bool,
    ) -> (r: Result<String, ZapError>)
        requires
            old(self).inv(),
        ensures
            r is Ok ==> final(self).storage.logs@.len() == old(self).storage.logs@.len() + 1,
            final(self).inv(),
            final(self).auth == old(self).auth,
            !old(self).unlocked() ==> is_expired(r),
            old(self).unlocked() && !box_name_ok(name@) ==> (r matches Err(ZapError::ValidationError(_))),
            old(self).unlocked() && box_name_ok(name@) && opt_description_ok(opt_view(description)) && !tags_ok(
                strings_view(tags@),
            ) ==> (r matches Err(ZapError::InvalidTags(_))),
            old(self).unlocked() && box_fields_valid(name, description, tags) && has_box_named(old(self).storage.boxes@, name@)
                ==> (r matches Err(ZapError::BoxAlreadyExists(_))),
            old(self).unlocked() && box_fields_valid(name, description, tags) && !has_box_named(old(self).storage.boxes@, name@)
                ==> r is Ok,
            r is Err ==> final(self).same_data(old(self)),
            r matches Ok(id) ==> !has_box(old(self).storage.boxes@, id@) && final(self).storage.boxes@.len()
                == old(self).storage.boxes@.len() + 1 && box_views(final(self).storage.boxes@).drop_last() == box_views(
                old(self).storage.boxes@,
            ) && ({
                let b = final(self).storage.boxes@.last();
                &&& b.id@ == id@
                &&& b.name@ == name@
                &&& opt_view(b.description) == opt_view(description)
                &&& b@.tags == strings_view(tags@)
                &&& b.dev_mode == dev_mode
            }),
            r is Ok ==> final(self).storage.secrets@ == old(self).storage.secrets@,
    {
        self.ensure_unlocked()?;
        let log_name = name.clone();
        let mut new_box = Box::new(name, description, tags, dev_mode)?;
        let fresh = self.storage.fresh_box_id(new_box.id.clone());
        new_box.id = fresh;
        let ghost ob = self.storage.boxes@;
        proof {
            assert forall|j: int| 0 <= j < ob.len() && (#[trigger] ob[j]).name@ == new_box.name@ implies ob[j].id@ != new_box.id@ by {
                assert(!box_pos(ob, new_box.id@, j));
            }
            if has_box_named(ob, new_box.name@) {
                let j = choose|j: int| 0 <= j < ob.len() && (#[trigger] ob[j]).name@ == new_box.name@;
                assert(name_conflict(ob, new_box.name@, new_box.id@));
            }
        }
        self.storage.save_box(&new_box)?;
        proof {
            let n = ob.len() as int;
            assert(box_views(self.storage.boxes@).len() == self.storage.boxes@.len());
            assert(box_views(self.storage.boxes@)[n] == self.storage.boxes@[n]@);
            assert(box_pos(self.storage.boxes@, new_box.id@, n));
            assert(self.storage.boxes@[n].name@ == name@);
            assert(box_views(self.storage.boxes@).drop_last() =~= box_views(ob));
            assert(self.storage.boxes@.last() == self.storage.boxes@[n]);
        }
        self.storage.log("Create_Box".to_string(), join3("Box '", log_name.as_str(), "' created"), None);
        Ok(new_box.id)
    }

    /// Applies a partial update to box `box_id`; a new name must be free.
    pub fn update_box(
        &mut self,
        box_id: &str,
        name: Option<String>,
        description: Option<Option<String>>,
        tags: Option<Vec<String>>,
        dev_mode: Option<bool>,
    ) -> (r: Result<(), ZapError>)
        requires
            old(self).inv(),
        ensures
            r is Ok ==> final(self).storage.logs@.len() == old(self).storage.logs@.len() + 1,
            final(self).inv(),
            final(self).auth == old(self).auth,
            !old(self).unlocked() ==> is_expired(r),
            old(self).unlocked() && !has_box(old(self).storage.boxes@, box_id@) ==> (r matches Err(ZapError::BoxNotFound(_))),
            old(self).unlocked() && has_box(old(self).storage.boxes@, box_id@) && !box_fields_ok(name, description, tags)
                ==> r is Err,
            (old(self).unlocked() && has_box(old(self).storage.boxes@, box_id@) && box_fields_ok(name, description, tags)
                && rename_conflict(name, old(self).storage.boxes@, box_id@)) ==> (r matches Err(ZapError::BoxAlreadyExists(_))),
            (old(self).unlocked() && has_box(old(self).storage.boxes@, box_id@) && box_fields_ok(name, description, tags)
                && !rename_conflict(name, old(self).storage.boxes@, box_id@)) ==> r is Ok,
            r is Err ==> final(self).same_data(old(self)),
            r is Ok ==> has_box(final(self).storage.boxes@, box_id@) && final(self).storage.boxes@.len()
                == old(self).storage.boxes@.len() && final(self).storage.secrets@ == old(self).storage.secrets@,
            r is Ok ==> named_in(name, final(self).storage.boxes@),
            forall|i: int| r is Ok && #[trigger] box_pos(old(self).storage.boxes@, box_id@, i) ==> box_views(
                final(self).storage.boxes@,
            ) == box_views(old(self).storage.boxes@).update(i, final(self).storage.boxes@[i]@) && box_updated(
                old(self).storage.boxes@[i]@,
                name,
                description,
                tags,
                dev_mode,
                final(self).storage.boxes@[i]@,
            ),
    {
        self.ensure_unlocked()?;
        let mut b = self.storage.get_box(box_id)?;
        let ghost ob = self.storage.boxes@;
        let ghost bi = choose|i: int| box_pos(ob, box_id@, i) && b@ == ob[i]@;
        proof {
            assert forall|j: int| box_pos(ob, box_id@, j) implies j == bi by {
                if j < bi {
                    assert(ob[j].id@ != ob[bi].id@);
                } else if j > bi {
                    assert(ob[bi].id@ != ob[j].id@);
                }
            }
        }
        let old_name = b.name.clone();
        b.update_fields(name, description, tags, dev_mode)?;
        proof {
            assert(has_box(ob, b.id@)) by {
                assert(box_pos(ob, b.id@, bi));
            }
        }
        self.storage.update_box(&b)?;
        proof {
            assert(box_views(self.storage.boxes@).len() == self.storage.boxes@.len());
            assert(box_views(self.storage.boxes@)[bi] == self.storage.boxes@[bi]@);
            assert(box_pos(self.storage.boxes@, box_id@, bi));
            assert(self.storage.boxes@[bi].name@ == b.name@);
        }
        self.storage.log("Update_Box".to_string(), join3("Box '", old_name.as_str(), "' updated"), None);
        Ok(())
    }

    /// Deletes box `box_id`; its name becomes free.
    pub fn delete_box(&mut self, box_id: &str) -> (r: Result<(), ZapError>)
        requires
            old(self).inv(),
        ensures
            r is Ok ==> final(self).storage.logs@.len() == old(self).storage.logs@.len() + 1,
            final(self).inv(),
            final(self).auth == old(self).auth,
            !old(self).unlocked() ==> is_expired(r),
            old(self).unlocked() ==> (r is Ok <==> has_box(old(self).storage.boxes@, box_id@)),
            r is Err ==> final(self).same_data(old(self)),
            r is Ok ==> !has_box(final(self).storage.boxes@, box_id@) && final(self).storage.secrets@ == old(self).storage.secrets@,
            forall|i: int| r is Ok && box_pos(old(self).storage.boxes@, box_id@, i) ==> !has_box_named(
                final(self).storage.boxes@,
                #[trigger] old(self).storage.boxes@[i].name@,
            ),
    {
        self.ensure_unlocked()?;
        let b = self.storage.get_box(box_id)?;
        let ghost ob = self.storage.boxes@;
        self.storage.delete_box(box_id)?;
        proof {
            assert forall|i: int| box_pos(ob, box_id@, i) implies !has_box_named(self.storage.boxes@, #[trigger] ob[i].name@) by {
                crate::store::lemma_name_freed(ob, i);
            }
        }
        self.storage.log("Delete_Box".to_string(), join3("Box '", b.name.as_str(), "' deleted"), None);
        Ok(())
    }

    /// Deletes each listed box that exists; returns the names deleted.
    pub fn delete_selected_boxes(&mut self, box_ids: Vec<String>) -> (r: Result<BulkOutcome, ZapError>)
        requires
            old(self).inv(),
        ensures
            final(self).inv(),
            final(self).auth == old(self).auth,
            !old(self).unlocked() ==> is_expired(r) && final(self).same_data(old(self)),
            old(self).unlocked() ==> r is Ok,
            r matches Ok(o) ==> o.done@.len() + o.failed@.len() == box_ids@.len() && (forall|q: int|
                0 <= q < o.done@.len() ==> box_deleted_from(old(self).storage.boxes@, box_ids@, (#[trigger] o.done@[q])@))
                && (forall|q: int| 0 <= q < o.failed@.len() ==> listed(box_ids@, (#[trigger] o.failed@[q])@)
                && !has_box(final(self).storage.boxes@, o.failed@[q]@)),
            r is Ok ==> forall|k: int| 0 <= k < box_ids@.len() ==> !has_box(final(self).storage.boxes@, (#[trigger] box_ids@[k])@),
            r is Ok ==> final(self).storage.secrets@ == old(self).storage.secrets@,
    {
        self.ensure_unlocked()?;
        let outcome = self.storage.delete_selected_boxes(&box_ids);
        self.storage.log("Delete_Boxes_Bulk".to_string(), "Bulk deleted boxes".to_string(), None);
        Ok(outcome)
    }

    pub fn get_secrets_by_box_id(&self, box_id: &str) -> (r: Result<Vec<Secret>, ZapError>)
        ensures
            !self.unlocked() ==> is_expired(r),
            self.unlocked() ==> (r matches Ok(v) && secret_views(v@) == secrets_of(self.storage.secrets@, box_id@)),
    {
        self.ensure_unlocked()?;
        Ok(self.storage.get_secrets_by_box_id(box_id))
    }

    pub fn get_all_secrets(&self) -> (r: Result<Vec<Secret>, ZapError>)
        ensures
            !self.unlocked() ==> is_expired(r),
            self.unlocked() ==> (r matches Ok(v) && secret_views(v@) == secret_views(self.storage.secrets@)),
    {
        self.ensure_unlocked()?;
        Ok(self.storage.get_all_secrets())
    }

    /// Encrypts `value` under the master key and stores it as a new secret of
    /// box `box_id`; a full box refuses it. Returns the new id.
    pub fn create_secret(&mut self, box_id: String, name: String, value: String) -> (r: Result<String, ZapError>)
        requires
            old(self).inv(),
        ensures
            r is Ok ==> final(self).storage.logs@.len() == old(self).storage.logs@.len() + 1,
            final(self).inv(),
            final(self).auth == old(self).auth,
            !old(self).unlocked() ==> is_expired(r),
            old(self).unlocked() && !has_box(old(self).storage.boxes@, box_id@) ==> (r matches Err(ZapError::BoxNotFound(_))),
            old(self).unlocked() && has_box(old(self).storage.boxes@, box_id@) && count_in(old(self).storage.secrets@, box_id@)
                >= MAX_SECRETS_PER_BOX ==> (r matches Err(ZapError::ValidationError(_))),
            old(self).unlocked() && name_taken(old(self).storage.secrets@, box_id@, name@) ==> r is Err,
            old(self).unlocked() && has_box(old(self).storage.boxes@, box_id@) && count_in(old(self).storage.secrets@, box_id@)
                < MAX_SECRETS_PER_BOX && encode_utf8(value@).len() <= AEAD_MAX_PLAINTEXT && secret_name_ok(name@)
                && !name_taken(old(self).storage.secrets@, box_id@, name@) ==> r is Ok,
            r is Err ==> final(self).same_data(old(self)),
            r is Ok ==> count_in(final(self).storage.secrets@, box_id@) == count_in(old(self).storage.secrets@, box_id@) + 1
                && count_in(final(self).storage.secrets@, box_id@) <= MAX_SECRETS_PER_BOX,
            r matches Ok(id) ==> final(self).storage.secrets@.drop_last() == old(self).storage.secrets@ && ({
                let s = final(self).storage.secrets@.last();
                &&& s.id@ == id@
                &&& s.box_id@ == box_id@
                &&& s.name@ == name@
                &&& encrypts(value@, old(self).master(), s.encrypted_value)
            }),
    {
        self.ensure_unlocked()?;
        let b = self.storage.get_box(box_id.as_str())?;
        b.can_add_secret()?;
        let key = self.get_master_key()?;
        let encrypted = self.crypto.encrypt(value.as_str(), &key)?;
        let log_name = name.clone();
        let mut secret = Secret::new(box_id, name, encrypted)?;
        let fresh = self.storage.fresh_secret_id(secret.id.clone());
        secret.id = fresh;
        let id = secret.id.clone();
        self.storage.save_secret(&secret)?;
        self.storage.log("Create_Secret".to_string(), join3("Secret '", log_name.as_str(), "' created"), None);
        Ok(id)
    }

    /// Renames and/or re-encrypts secret `secret_id`.
    pub fn update_secret(&mut self, secret_id: &str, name: Option<String>, value: Option<String>) -> (r: Result<
        (),
        ZapError,
    >)
        requires
            old(self).inv(),
        ensures
            r is Ok ==> final(self).storage.logs@.len() == old(self).storage.logs@.len() + 1,
            final(self).inv(),
            final(self).auth == old(self).auth,
            !old(self).unlocked() ==> is_expired(r),
            old(self).unlocked() && !has_secret(old(self).storage.secrets@, secret_id@) ==> (r matches Err(ZapError::SecretNotFound(_))),
            r is Err ==> final(self).same_data(old(self)),
            r is Ok ==> final(self).storage.boxes@ == old(self).storage.boxes@ && final(self).storage.secrets@.len()
                == old(self).storage.secrets@.len(),
            r is Ok ==> exists|i: int| secret_pos(final(self).storage.secrets@, secret_id@, i) && ({
                let s = final(self).storage.secrets@[i];
                &&& s.box_id@ == old(self).storage.secrets@[i].box_id@
                &&& name matches Some(n) ==> s.name@ == n@
                &&& value matches Some(v) ==> encrypts(v@, old(self).master(), s.encrypted_value)
            }),
            forall|i: int| r is Ok && #[trigger] secret_pos(old(self).storage.secrets@, secret_id@, i) ==> secret_views(
                final(self).storage.secrets@,
            ) == secret_views(old(self).storage.secrets@).update(i, final(self).storage.secrets@[i]@),
            forall|i: int| old(self).unlocked() && #[trigger] secret_pos(old(self).storage.secrets@, secret_id@, i)
                && has_box(old(self).storage.boxes@, old(self).storage.secrets@[i].box_id@) && secret_update_ok(
                name,
                value,
                old(self).storage.secrets@,
                i,
            ) ==> r is Ok,
    {
        self.ensure_unlocked()?;
        let mut secret = self.storage.get_secret(secret_id)?;
        let b = self.storage.get_box(secret.box_id.as_str())?;
        let old_name = secret.name.clone();
        let ghost os = self.storage.secrets@;
        let ghost si = choose|i: int| secret_pos(os, secret_id@, i) && secret@ == os[i]@;
        proof {
            assert forall|j: int| secret_pos(os, secret_id@, j) implies j == si by {
                if j < si {
                    assert(os[j].id@ != os[si].id@);
                } else if j > si {
                    assert(os[si].id@ != os[j].id@);
                }
            }
        }
        let encrypted = match &value {
            Some(v) => {
                let key = self.get_master_key()?;
                Some(self.crypto.encrypt(v.as_str(), &key)?)
            },
            None => None,
        };
        let ghost enc = encrypted;
        secret.update_fields(name, encrypted)?;
        self.storage.update_secret(&secret)?;
        proof {
            assert(secret_pos(os, secret.id@, si));
            assert(secret_views(self.storage.secrets@) == secret_views(os).update(si, secret@));
            assert(secret_views(self.storage.secrets@).len() == self.storage.secrets@.len());
            assert(secret_views(os).len() == os.len());
            assert(secret_views(self.storage.secrets@)[si] == self.storage.secrets@[si]@);
            assert(secret_pos(self.storage.secrets@, secret_id@, si));
        }
        self.storage.log("Update_Secret".to_string(), join3("Secret '", old_name.as_str(), "' updated"), None);
        Ok(())
    }

    /// Deletes secret `secret_id` (its box must exist) and recounts the box.
    pub fn delete_secret(&mut self, secret_id: &str) -> (r: Result<(), ZapError>)
        requires
            old(self).inv(),
        ensures
            r is Ok ==> final(self).storage.logs@.len() == old(self).storage.logs@.len() + 1,
            final(self).inv(),
            final(self).auth == old(self).auth,
            !old(self).unlocked() ==> is_expired(r),
            old(self).unlocked() && !has_secret(old(self).storage.secrets@, secret_id@) ==> (r matches Err(ZapError::SecretNotFound(_))),
            r is Err ==> final(self).same_data(old(self)),
            r is Ok ==> !has_secret(final(self).storage.secrets@, secret_id@),
            forall|i: int| r is Ok && secret_pos(old(self).storage.secrets@, secret_id@, i) ==> ({
                let bid = old(self).storage.secrets@[i].box_id@;
                &&& count_in(final(self).storage.secrets@, bid) + 1 == count_in(old(self).storage.secrets@, bid)
                &&& final(self).storage.secrets@ == old(self).storage.secrets@.remove(i)
            }),
    {
        self.ensure_unlocked()?;
        let secret = self.storage.get_secret(secret_id)?;
        let b = self.storage.get_box(secret.box_id.as_str())?;
        let ghost os = self.storage.secrets@;
        self.storage.delete_secret(secret_id)?;
        proof {
            assert forall|i: int| secret_pos(os, secret_id@, i) implies count_in(self.storage.secrets@, #[trigger] os[i].box_id@) + 1 == count_in(os, os[i].box_id@) by {
                crate::store::lemma_count_remove(os, i, os[i].box_id@);
            }
        }
        self.storage.log("Delete_Secret".to_string(), join3("Secret '", secret.name.as_str(), "' deleted"), None);
        Ok(())
    }

    /// Deletes each listed secret that exists; returns the names deleted.
    pub fn delete_selected_secrets(&mut self, secret_ids: Vec<String>) -> (r: Result<BulkOutcome, ZapError>)
        requires
            old(self).inv(),
        ensures
            final(self).inv(),
            final(self).auth == old(self).auth,
            !old(self).unlocked() ==> is_expired(r) && final(self).same_data(old(self)),
            old(self).unlocked() ==> r is Ok,
            r matches Ok(o) ==> o.done@.len() + o.failed@.len() == secret_ids@.len() && (forall|q: int|
                0 <= q < o.done@.len() ==> deleted_from(old(self).storage.secrets@, secret_ids@, (#[trigger] o.done@[q])@))
                && (forall|q: int| 0 <= q < o.failed@.len() ==> listed(secret_ids@, (#[trigger] o.failed@[q])@)
                && !has_secret(final(self).storage.secrets@, o.failed@[q]@)),
            r is Ok ==> forall|k: int| 0 <= k < secret_ids@.len() ==> !has_secret(final(self).storage.secrets@, (#[trigger] secret_ids@[k])@),
    {
        self.ensure_unlocked()?;
        let outcome = self.storage.delete_selected_secrets(&secret_ids);
        self.storage.log("Delete_Secrets_Bulk".to_string(), "Bulk deleted secrets".to_string(), None);
        Ok(outcome)
    }

    /// Copies the listed secrets into box `target_box_id`; refused as a whole
    /// when the box would pass its capacity.
    pub fn copy_secrets_to_box(&mut self, secret_ids: Vec<String>, target_box_id: String) -> (r: Result<
        Vec<String>,
        ZapError,
    >)
        requires
            old(self).inv(),
        ensures
            final(self).inv(),
            final(self).auth == old(self).auth,
            !old(self).unlocked() ==> is_expired(r),
            old(self).unlocked() && !has_box(old(self).storage.boxes@, target_box_id@) ==> (r matches Err(ZapError::BoxNotFound(_))),
            old(self).unlocked() && has_box(old(self).storage.boxes@, target_box_id@) && count_in(old(self).storage.secrets@, target_box_id@)
                + secret_ids@.len() > MAX_SECRETS_PER_BOX ==> (r matches Err(ZapError::ValidationError(_))),
            old(self).unlocked() && has_box(old(self).storage.boxes@, target_box_id@) && count_in(old(self).storage.secrets@, target_box_id@)
                + secret_ids@.len() <= MAX_SECRETS_PER_BOX ==> r is Ok,
            r is Err ==> final(self).same_data(old(self)),
            r matches Ok(names) ==> count_in(final(self).storage.secrets@, target_box_id@) == count_in(old(self).storage.secrets@, target_box_id@)
                + names@.len() && count_in(final(self).storage.secrets@, target_box_id@) <= MAX_SECRETS_PER_BOX,
            r matches Ok(names) ==> final(self).storage.secrets@.len() == old(self).storage.secrets@.len() + names@.len()
                && final(self).storage.secrets@.subrange(0, old(self).storage.secrets@.len() as int) == old(self).storage.secrets@,
            r matches Ok(names) ==> forall|m: int|
                old(self).storage.secrets@.len() <= m < final(self).storage.secrets@.len() ==> copied_from(
                    old(self).storage.secrets@,
                    secret_ids@,
                    target_box_id@,
                    #[trigger] final(self).storage.secrets@[m],
                ) && final(self).storage.secrets@[m].name@ == names@[m - old(self).storage.secrets@.len()]@,
            r is Ok ==> forall|k: int, i: int|
                0 <= k < secret_ids@.len() && #[trigger] secret_pos(old(self).storage.secrets@, secret_ids@[k]@, i)
                    && secret_name_ok(old(self).storage.secrets@[i].name@) ==> name_taken(
                    final(self).storage.secrets@,
                    target_box_id@,
                    old(self).storage.secrets@[i].name@,
                ),
    {
        self.ensure_unlocked()?;
        let target = self.storage.get_box(target_box_id.as_str())?;
        if secret_ids.len() > MAX_SECRETS_PER_BOX || target.secrets_count > MAX_SECRETS_PER_BOX - secret_ids.len() {
            return Err(ZapError::ValidationError("Target box would exceed 75 secrets limit".to_string()));
        }
        let names = self.storage.copy_secrets_to_box(&secret_ids, target_box_id.as_str())?;
        self.storage.log("Copy_Secrets".to_string(), join3("Copied secrets to box '", target.name.as_str(), "'"), None);
        Ok(names)
    }

    /// The plaintext of secret `secret_id` under the master key.
    pub fn reveal_secret_value(&mut self, secret_id: &str) -> (r: Result<String, ZapError>)
        requires
            old(self).inv(),
        ensures
            r is Ok ==> final(self).storage.logs@.len() == old(self).storage.logs@.len() + 1,
            final(self).inv(),
            final(self).auth == old(self).auth,
            final(self).same_data(old(self)),
            !old(self).unlocked() ==> is_expired(r),
            old(self).unlocked() && !has_secret(old(self).storage.secrets@, secret_id@) ==> (r matches Err(ZapError::SecretNotFound(_))),
            r matches Ok(p) ==> exists|i: int| secret_pos(old(self).storage.secrets@, secret_id@, i)
                && opened(old(self).storage.secrets@[i].encrypted_value, old(self).master()) == Some(p@),
            forall|i: int| old(self).unlocked() && #[trigger] secret_pos(old(self).storage.secrets@, secret_id@, i)
                && has_box(old(self).storage.boxes@, old(self).storage.secrets@[i].box_id@) && opened(
                old(self).storage.secrets@[i].encrypted_value,
                old(self).master(),
            ) is Some ==> r is Ok,
    {
        self.ensure_unlocked()?;
        let secret = self.storage.get_secret(secret_id)?;
        let ghost os = self.storage.secrets@;
        proof {
            let si = choose|i: int| secret_pos(os, secret_id@, i) && secret@ == os[i]@;
            assert forall|j: int| secret_pos(os, secret_id@, j) implies j == si by {
                if j < si {
                    assert(os[j].id@ != os[si].id@);
                } else if j > si {
                    assert(os[si].id@ != os[j].id@);
                }
            }
        }
        let b = self.storage.get_box(secret.box_id.as_str())?;
        let key = self.get_master_key()?;
        let plain = self.crypto.decrypt(&secret.encrypted_value, &key)?;
        self.storage.log("Reveal_Secret".to_string(), join3("Secret '", secret.name.as_str(), "' revealed"), None);
        Ok(plain)
    }

    pub fn search_boxes_global(&self, query: &str, tags: &Vec<String>) -> (r: Result<Vec<Box>, ZapError>)
        ensures
            !self.unlocked() ==> is_expired(r),
            self.unlocked() ==> (r matches Ok(v) && box_views(v@) == search_result(self.storage.boxes@, query@, strings_view(tags@))),
    {
        self.ensure_unlocked()?;
        Ok(self.storage.search_boxes_global(query, tags))
    }

    pub fn search_secrets_in_box(&self, box_id: &str, query: &str) -> (r: Result<Vec<Secret>, ZapError>)
        ensures
            !self.unlocked() ==> is_expired(r),
            self.unlocked() && trimmed(query@).len() == 0 ==> (r matches Ok(v) && secret_views(v@) == secrets_of(self.storage.secrets@, box_id@)),
            self.unlocked() && trimmed(query@).len() > 0 ==> (r matches Ok(v) && secret_views(v@) == secret_hits(self.storage.secrets@, box_id@, lower_of(query@))),
    {
        self.ensure_unlocked()?;
        Ok(self.storage.search_secrets_in_box(box_id, query))
    }

    /// Every audit record; the viewing itself is recorded first.
    pub fn get_all_logs(&mut self) -> (r: Result<Vec<LogEntry>, ZapError>)
        requires
            old(self).inv(),
        ensures
            final(self).inv(),
            final(self).same_data(old(self)),
            !old(self).unlocked() ==> is_expired(r),
            r matches Ok(v) ==> v@.len() == old(self).storage.logs@.len() + 1,
    {
        self.ensure_unlocked()?;
        self.storage.log("View_Logs".to_string(), "Viewed audit logs".to_string(), None);
        Ok(self.storage.get_all_logs())
    }

    /// Clears the audit log after checking `password`; returns how many
    /// records there were.
    pub fn clear_all_logs(&mut self, password: &str) -> (r: Result<usize, ZapError>)
        requires
            old(self).inv(),
        ensures
            final(self).inv(),
            final(self).same_data(old(self)),
            !old(self).unlocked() ==> is_expired(r),
            old(self).unlocked() && trimmed(password@).len() > 0 ==> (r is Ok <==> password_accepted(old(self).auth.config, password@)),
            r matches Ok(n) ==> n == old(self).storage.logs@.len() && final(self).storage.logs@.len() == 0,
    {
        self.ensure_unlocked()?;
        self.verify_password(password)?;
        Ok(self.storage.clear_all_logs())
    }

    pub fn get_vault_stats(&self) -> (r: Result<VaultStats, ZapError>)
        ensures
            !self.unlocked() ==> is_expired(r),
            r matches Ok(s) ==> s.total_boxes == self.storage.boxes@.len() && s.total_secrets == self.storage.secrets@.len(),
            self.unlocked() ==> r is Ok,
    {
        self.ensure_unlocked()?;
        Ok(self.storage.get_vault_stats())
    }

    /// The stored settings; the defaults are stored first when there are none.
    pub fn get_settings(&mut self) -> (r: Settings)
        requires
            old(self).inv(),
        ensures
            final(self).inv(),
            final(self).same_data(old(self)),
            final(self).auth == old(self).auth,
            old(self).storage.settings matches Some(s) ==> r == s,
            old(self).storage.settings is None ==> r.password_timeout_minutes == 5 && final(self).storage.settings == Some(r),
    {
        self.storage.load_settings()
    }

    /// Stores `settings` and applies its timeout (5 to 60 minutes) to the
    /// session and the persisted configuration.
    pub fn update_settings(&mut self, settings: Settings) -> (r: Result<(), ZapError>)
        requires
            old(self).inv(),
        ensures
            final(self).inv(),
            final(self).same_data(old(self)),
            r is Ok <==> 5 <= settings.password_timeout_minutes <= 60,
            r is Err ==> (r matches Err(ZapError::AuthError(_))) && final(self).auth == old(self).auth,
            r is Err ==> final(self).storage.settings == old(self).storage.settings && final(self).storage.auth_config
                == old(self).storage.auth_config,
            r is Ok ==> final(self).storage.settings == Some(settings),
            r is Ok && old(self).auth.config is Some ==> final(self).storage.auth_config == final(self).auth.config
                && final(self).auth.config.unwrap().session_timeout_minutes == settings.password_timeout_minutes,
    {
        if settings.password_timeout_minutes < 5 || settings.password_timeout_minutes > 60 {
            return Err(ZapError::AuthError("Session timeout must be between 5 and 60 minutes".to_string()));
        }
        self.storage.save_settings(&settings);
        let minutes = settings.password_timeout_minutes as u8;
        self.auth.set_timeout_minutes(minutes)?;
        match self.auth.get_config() {
            Some(c) => self.storage.save_auth_config(&c),
            None => {},
        }
        self.storage.log("Update_Settings".to_string(), "Settings updated".to_string(), None);
        Ok(())
    }
}


impl AppState {
    /// The whole vault decrypted, for deliberate export.
    pub fn export_vault(&mut self) -> (r: Result<VaultExport, ZapError>)
        requires
            old(self).inv(),
        ensures
            final(self).inv(),
            final(self).same_data(old(self)),
            final(self).auth == old(self).auth,
            !old(self).unlocked() ==> is_expired(r),
            r matches Ok(e) ==> e.total_boxes == old(self).storage.boxes@.len() && e.boxes@.len()
                == old(self).storage.boxes@.len() && e.total_secrets == exported_secrets(e.boxes@),
            r matches Ok(e) ==> forall|i: int| 0 <= i < old(self).storage.boxes@.len() ==> exported_box(
                old(self).storage.boxes@[i],
                old(self).storage.secrets@,
                old(self).master(),
                #[trigger] e.boxes@[i],
            ),
            old(self).unlocked() && (forall|i: int| 0 <= i < old(self).storage.boxes@.len() ==> all_open(
                secrets_of(old(self).storage.secrets@, (#[trigger] old(self).storage.boxes@[i]).id@),
                old(self).master(),
            )) && box_secret_total(old(self).storage.boxes@, old(self).storage.secrets@) <= usize::MAX ==> r is Ok,
    {
        self.ensure_unlocked()?;
        let key = self.get_master_key()?;
        let e = self.import_export.export_vault(&self.storage, &key)?;
        self.storage.log("Export_Vault".to_string(), "Exported vault".to_string(), None);
        Ok(e)
    }

    /// Box `box_id` as `.env` text.
    pub fn export_box_as_env(&mut self, box_id: String, prefix: Option<String>) -> (r: Result<String, ZapError>)
        requires
            old(self).inv(),
        ensures
            final(self).inv(),
            final(self).same_data(old(self)),
            final(self).auth == old(self).auth,
            !old(self).unlocked() ==> is_expired(r),
            old(self).unlocked() && !has_box(old(self).storage.boxes@, box_id@) ==> (r matches Err(ZapError::BoxNotFound(_))),
            r matches Ok(text) ==> ({
                let body = env_body(
                    secrets_of(old(self).storage.secrets@, box_id@),
                    old(self).master(),
                    opt_view(prefix),
                );
                &&& text@.len() >= body.len()
                &&& text@.subrange(text@.len() - body.len(), text@.len() as int) == body
            }),
            old(self).unlocked() && has_box(old(self).storage.boxes@, box_id@) && count_in(old(self).storage.secrets@, box_id@) > 0
                && all_open(secrets_of(old(self).storage.secrets@, box_id@), old(self).master()) ==> r is Ok,
    {
        self.ensure_unlocked()?;
        let key = self.get_master_key()?;
        let text = match &prefix {
            Some(p) => self.import_export.export_box_as_env(&self.storage, box_id.as_str(), &key, Some(p.as_str()))?,
            None => self.import_export.export_box_as_env(&self.storage, box_id.as_str(), &key, None)?,
        };
        self.storage.log("Export_Box".to_string(), join3("Exported box '", box_id.as_str(), "' as .env"), prefix);
        Ok(text)
    }

    /// Adds the boxes of `data` whose names are free, with their secrets.
    pub fn import_vault(&mut self, data: VaultExport) -> (r: Result<ImportResult, ZapError>)
        requires
            old(self).inv(),
        ensures
            final(self).inv(),
            final(self).auth == old(self).auth,
            !old(self).unlocked() ==> is_expired(r),
            old(self).unlocked() && data.boxes@.len() == 0 ==> (r matches Err(ZapError::StorageError(_))),
            old(self).unlocked() && data.boxes@.len() > 0 ==> r is Ok,
            r is Err ==> final(self).same_data(old(self)),
            r matches Ok(res) ==> final(self).storage.boxes@.len() == old(self).storage.boxes@.len() + res.boxes_imported
                && final(self).storage.secrets@.len() == old(self).storage.secrets@.len() + res.secrets_imported,
            r is Ok ==> forall|i: int|
                0 <= i < data.boxes@.len() && export_box_valid(#[trigger] data.boxes@[i]) ==> has_box_named(
                    final(self).storage.boxes@,
                    data.boxes@[i].name@,
                ),
            r is Ok ==> forall|m: int|
                old(self).storage.secrets@.len() <= m < final(self).storage.secrets@.len() ==> imported_from(
                    data.boxes@,
                    old(self).master(),
                    #[trigger] final(self).storage.secrets@[m],
                ),
            r is Ok ==> forall|i: int, j: int|
                0 <= i < data.boxes@.len() && box_fresh(data.boxes@, old(self).storage.boxes@, i) && 0 <= j
                    < data.boxes@[i].secrets@.len() && export_secret_ok(#[trigger] data.boxes@[i].secrets@[j]) ==> name_stored(
                    final(self).storage.secrets@,
                    data.boxes@[i].secrets@[j].name@,
                ),
    {
        self.ensure_unlocked()?;
        let key = self.get_master_key()?;
        let result = self.import_export.import_vault(&mut self.storage, data, &key)?;
        self.storage.log("Import_Vault".to_string(), "Imported vault".to_string(), None);
        Ok(result)
    }

    /// Imports the pairs of a `.env` text into box `target_box_id`.
    pub fn import_env_to_box(&mut self, env_content: &str, target_box_id: String) -> (r: Result<ImportResult, ZapError>)
        requires
            old(self).inv(),
        ensures
            final(self).inv(),
            final(self).auth == old(self).auth,
            !old(self).unlocked() ==> is_expired(r),
            old(self).unlocked() && !has_box(old(self).storage.boxes@, target_box_id@) ==> (r matches Err(ZapError::BoxNotFound(_))),
            old(self).unlocked() && has_box(old(self).storage.boxes@, target_box_id@) && parse_env(env_content@).len() > 0
                && count_in(old(self).storage.secrets@, target_box_id@) + parse_env(env_content@).len() > MAX_SECRETS_PER_BOX
                ==> (r matches Err(ZapError::BoxCapacityExceeded)),
            r is Err ==> final(self).same_data(old(self)),
            r matches Ok(res) ==> res.secrets_imported + res.errors@.len() == parse_env(env_content@).len()
                && count_in(final(self).storage.secrets@, target_box_id@) == count_in(old(self).storage.secrets@, target_box_id@)
                + res.secrets_imported && count_in(final(self).storage.secrets@, target_box_id@) <= MAX_SECRETS_PER_BOX,
            r is Ok ==> forall|m: int|
                old(self).storage.secrets@.len() <= m < final(self).storage.secrets@.len() ==> env_imported(
                    parse_env(env_content@),
                    target_box_id@,
                    old(self).master(),
                    #[trigger] final(self).storage.secrets@[m],
                ),
            r is Ok ==> forall|k: int|
                0 <= k < parse_env(env_content@).len() && env_pair_ok(#[trigger] parse_env(env_content@)[k]) ==> name_taken(
                    final(self).storage.secrets@,
                    target_box_id@,
                    env_secret_name(parse_env(env_content@)[k].0),
                ),
    {
        self.ensure_unlocked()?;
        let key = self.get_master_key()?;
        let result = self.import_export.import_env_to_box(&mut self.storage, env_content, target_box_id.as_str(), &key)?;
        self.storage.log("Import_Env".to_string(), join3("Imported env variables to box '", target_box_id.as_str(), "'"), None);
        Ok(result)
    }
}

} // verus!
