use crate::app_state::{is_expired, AppState};
use crate::crypto::{encrypts, opened, opened_view, AEAD_MAX_PLAINTEXT};
use crate::vault_box::Box;
use vstd::utf8::encode_utf8;
use crate::secret::{EncryptedData, SecretView};
use crate::dev::{names_unique, 
    hex_decoded, hex_ok, ActiveSessionInfo, DevBoxInfo, DevService, DevSession, DevStats, MAX_SESSION_NAME,
};
use crate::error::ZapError;
use crate::log::join3;
use crate::store::{box_pos, count_in, has_box, has_session, listed, secrets_of, secret_views};
use crate::text::{is_slug, str_eq};
use crate::auth::copy_opt_string;
use vstd::prelude::*;

verus! {

/// `s` is one of `v`.
pub fn contains_str(v: &Vec<String>, s: &str) -> (r: bool)
    ensures
        r == listed(v@, s@),
{
    let mut i: usize = 0;
    while i < v.len()
        invariant
            i <= v@.len(),
            forall|k: int| 0 <= k < i ==> (#[trigger] v@[k])@ != s@,
        decreases v@.len() - i,
    {
        if str_eq(v[i].as_str(), s) {
            return true;
        }
        i += 1;
    }
    false
}

/// After reconciling against the hand-off files `present`, exactly the
/// records that had a file remain.
pub open spec fn reconciled(before: Seq<DevSession>, present: Seq<String>, after: Seq<DevSession>) -> bool {
    forall|n: Seq<char>| #[trigger] has_session(after, n) <==> has_session(before, n) && listed(present, n)
}

/// `out` carries each secret of `views`, by name, decrypted under `master`
/// and encrypted again under `key`.
pub open spec fn prepared_from(
    views: Seq<SecretView>,
    master: Seq<u8>,
    key: Seq<u8>,
    out: Seq<(String, EncryptedData)>,
) -> bool {
    &&& out.len() == views.len()
    &&& forall|i: int|
        0 <= i < views.len() ==> (#[trigger] out[i]).0@ == views[i].name && (opened_view(views[i].value, master) matches Some(
            p,
        ) && encrypts(p, key, out[i].1))
}

/// A re-encrypted session secret whose original plaintext is non-empty
/// decrypts under the session key to that plaintext: the consumer needs the
/// session key only. (An empty plaintext gives an empty ciphertext, which
/// decryption rejects as malformed.)
pub proof fn lemma_session_secret_opens(
    views: Seq<SecretView>,
    master: Seq<u8>,
    key: Seq<u8>,
    out: Seq<(String, EncryptedData)>,
    j: int,
    p: Seq<char>,
)
    requires
        prepared_from(views, master, key, out),
        0 <= j < views.len(),
        opened_view(views[j].value, master) == Some(p),
        p.len() > 0,
    ensures
        opened(out[j].1, key) == Some(p),
{
    assert(encrypts(p, key, out[j].1));
    crate::crypto::lemma_round_trip(p, key, out[j].1);
}

/// The box with id `id` has dev mode on.
pub open spec fn box_dev_ready(bs: Seq<Box>, id: Seq<char>) -> bool {
    exists|i: int| box_pos(bs, id, i) && bs[i].dev_mode
}

/// Every ciphertext of `views` decrypts under `master` to a text small
/// enough to encrypt again.
pub open spec fn views_reencryptable(views: Seq<SecretView>, master: Seq<u8>) -> bool {
    forall|j: int|
        0 <= j < views.len() ==> ((#[trigger] opened_view(views[j].value, master)) matches Some(p) && encode_utf8(p).len()
            <= AEAD_MAX_PLAINTEXT)
}

/// Some listed session is called `n`.
pub open spec fn reported(infos: Seq<ActiveSessionInfo>, n: Seq<char>) -> bool {
    exists|k: int| 0 <= k < infos.len() && (#[trigger] infos[k]).session_name@ == n
}

/// A session whose record was created and whose file was then deleted is
/// gone after the next reconciliation: its record is removed.
pub proof fn lemma_deleted_file_drops_session(
    before: Seq<DevSession>,
    present: Seq<String>,
    after: Seq<DevSession>,
    name: Seq<char>,
)
    requires
        has_session(before, name),
        !listed(present, name),
        reconciled(before, present, after),
    ensures
        !has_session(after, name),
{
}

/// The dev-session hand-off: database records reconciled against the
/// hand-off files that the external consumer may delete. File work is the
/// caller's: it passes which files exist.
pub struct DevState {
    pub dev_service: DevService,
}

impl DevState {
    pub fn new() -> (r: Self) {
        DevState { dev_service: DevService::new() }
    }

    /// Builds a session from box `box_id`, re-encrypting its secrets under a
    /// fresh session key, and stores its record. The caller then publishes
    /// the hand-off file.
    pub fn create_session(&self, app: &mut AppState, session_name: String, box_id: String) -> (r: Result<
        DevSession,
        ZapError,
    >)
        requires
            old(app).inv(),
        ensures
            final(app).inv(),
            final(app).auth == old(app).auth,
            final(app).storage.boxes@ == old(app).storage.boxes@,
            final(app).storage.secrets@ == old(app).storage.secrets@,
            !old(app).unlocked() ==> is_expired(r),
            old(app).unlocked() && !has_box(old(app).storage.boxes@, box_id@) ==> (r matches Err(ZapError::BoxNotFound(_))),
            old(app).unlocked() && has_box(old(app).storage.boxes@, box_id@) && !is_slug(session_name@, MAX_SESSION_NAME as nat)
                ==> (r matches Err(ZapError::InvalidSessionName(_))),
            old(app).unlocked() && has_box(old(app).storage.boxes@, box_id@) && is_slug(session_name@, MAX_SESSION_NAME as nat)
                && has_session(old(app).storage.sessions@, session_name@) ==> (r matches Err(ZapError::SessionAlreadyExists(_))),
            old(app).unlocked() && box_dev_ready(old(app).storage.boxes@, box_id@) && count_in(old(app).storage.secrets@, box_id@) > 0
                && is_slug(session_name@, MAX_SESSION_NAME as nat) && !has_session(old(app).storage.sessions@, session_name@)
                && views_reencryptable(secrets_of(old(app).storage.secrets@, box_id@), old(app).master()) ==> r is Ok,
            r is Ok ==> exists|k: int| 0 <= k < final(app).storage.sessions@.len() && (#[trigger] final(app).storage.sessions@[k]).session_name@
                == session_name@ && final(app).storage.sessions@[k].box_id@ == box_id@,
            r is Err ==> final(app).storage.sessions@ == old(app).storage.sessions@,
            r matches Ok(s) ==> s.session_name@ == session_name@ && s.box_id@ == box_id@,
            r matches Ok(s) ==> names_unique(s.encrypted_secrets@),
            r matches Ok(s) ==> prepared_from(
                secrets_of(old(app).storage.secrets@, box_id@),
                old(app).master(),
                s.session_key@,
                s.encrypted_secrets@,
            ),
            r is Ok ==> has_session(final(app).storage.sessions@, session_name@),
            r is Ok ==> forall|n: Seq<char>| n != session_name@ ==> (#[trigger] has_session(final(app).storage.sessions@, n)
                <==> has_session(old(app).storage.sessions@, n)),
    {
        let master_key = app.get_master_key()?;
        let box_item = app.storage.get_box(box_id.as_str())?;
        proof {
            let ob = app.storage.boxes@;
            let bi = choose|i: int| box_pos(ob, box_id@, i) && box_item@ == ob[i]@;
            assert forall|j: int| box_pos(ob, box_id@, j) implies j == bi by {
                if j < bi {
                    assert(ob[j].id@ != ob[bi].id@);
                } else if j > bi {
                    assert(ob[bi].id@ != ob[j].id@);
                }
            }
            if box_dev_ready(ob, box_id@) {
                let i = choose|i: int| box_pos(ob, box_id@, i) && ob[i].dev_mode;
                assert(i == bi);
                assert(box_item.dev_mode);
            }
        }
        self.dev_service.validate_session_name(session_name.as_str())?;
        if app.storage.session_exists(session_name.as_str()) {
            return Err(ZapError::session_already_exists(session_name.as_str()));
        }
        let box_secrets = app.storage.get_secrets_by_box_id(box_id.as_str());
        proof {
            let views = secrets_of(app.storage.secrets@, box_id@);
            assert(secret_views(box_secrets@) == views);
            assert forall|j: int| 0 <= j < box_secrets@.len() implies opened(box_secrets@[j].encrypted_value, master_key@)
                == opened_view(views[j].value, master_key@) by {
                assert(secret_views(box_secrets@)[j] == box_secrets@[j]@);
            }
            if views_reencryptable(views, master_key@) {
                assert forall|j: int| 0 <= j < box_secrets@.len() implies ((#[trigger] opened(box_secrets@[j].encrypted_value, master_key@)) matches Some(p)
                    && encode_utf8(p).len() <= AEAD_MAX_PLAINTEXT) by {
                    assert(opened(box_secrets@[j].encrypted_value, master_key@) == opened_view(views[j].value, master_key@));
                }
            }
        }
        let session = self.dev_service.create_session_from_box(session_name, &box_item, &box_secrets, &master_key)?;
        proof {
            let views = secrets_of(app.storage.secrets@, box_id@);
            assert(crate::store::secrets_unique(app.storage.secrets@));
            crate::store::lemma_secrets_of_distinct(app.storage.secrets@, box_id@);
            assert forall|a: int, b: int| 0 <= a < b < session.encrypted_secrets@.len() implies session.encrypted_secrets@[a].0@ != session.encrypted_secrets@[b].0@ by {
                assert(secret_views(box_secrets@)[a] == box_secrets@[a]@);
                assert(secret_views(box_secrets@)[b] == box_secrets@[b]@);
                assert(views[a].name != views[b].name);
            }
            assert(secret_views(box_secrets@) == views);
            assert forall|i: int| 0 <= i < views.len() implies (#[trigger] session.encrypted_secrets@[i]).0@ == views[i].name && (opened_view(views[i].value, master_key@) matches Some(p) && encrypts(p, session.session_key@, session.encrypted_secrets@[i].1)) by {
                assert(secret_views(box_secrets@)[i] == box_secrets@[i]@);
            }
        }
        app.storage.save_dev_session_by_name(session.session_name.as_str(), &session)?;
        app.storage.log(
            "Create_Dev_Session".to_string(),
            join3("Dev session '", session.session_name.as_str(), "' created"),
            None,
        );
        Ok(session)
    }
}


/// Among the first `i` of `all`, one is called `n`.
pub open spec fn seen(all: Seq<DevSession>, i: int, n: Seq<char>) -> bool {
    exists|k: int| 0 <= k < i && (#[trigger] all[k]).session_name@ == n
}

impl DevState {
    /// Removes the record of session `session_name`; returns the name of its
    /// box when there was one. The caller removes the hand-off file.
    pub fn stop_session(&self, app: &mut AppState, session_name: String) -> (r: Result<Option<String>, ZapError>)
        requires
            old(app).inv(),
        ensures
            final(app).inv(),
            final(app).auth == old(app).auth,
            final(app).storage.boxes@ == old(app).storage.boxes@,
            final(app).storage.secrets@ == old(app).storage.secrets@,
            r matches Ok(b) && (b is Some <==> has_session(old(app).storage.sessions@, session_name@)),
            !has_session(final(app).storage.sessions@, session_name@),
            forall|n: Seq<char>| n != session_name@ ==> (#[trigger] has_session(final(app).storage.sessions@, n)
                <==> has_session(old(app).storage.sessions@, n)),
    {
        let box_name = match app.storage.get_dev_session_by_name(session_name.as_str()) {
            Some(s) => Some(s.box_name),
            None => None,
        };
        app.storage.delete_dev_session_by_name(session_name.as_str());
        app.storage.log(
            "Stop_Dev_Session".to_string(),
            join3("Dev session '", session_name.as_str(), "' stopped"),
            copy_opt_string(&box_name),
        );
        Ok(box_name)
    }

    /// Removes every session record; returns their names. The caller removes
    /// the hand-off files.
    pub fn clear_all_sessions(&self, app: &mut AppState) -> (r: Result<Vec<String>, ZapError>)
        requires
            old(app).inv(),
        ensures
            final(app).inv(),
            final(app).auth == old(app).auth,
            final(app).storage.boxes@ == old(app).storage.boxes@,
            final(app).storage.secrets@ == old(app).storage.secrets@,
            final(app).storage.sessions@.len() == 0,
            r matches Ok(names) && names@.len() == old(app).storage.sessions@.len(),
    {
        let sessions = app.storage.get_all_dev_sessions();
        let mut names: Vec<String> = Vec::new();
        let mut i: usize = 0;
        while i < sessions.len()
            invariant
                i <= sessions@.len(),
                names@.len() == i,
            decreases sessions@.len() - i,
        {
            names.push(sessions[i].session_name.clone());
            i += 1;
        }
        app.storage.clear_all_dev_sessions();
        app.storage.log("Clear_All_Dev_Sessions".to_string(), "Cleared dev sessions".to_string(), None);
        Ok(names)
    }

    /// The live sessions: those whose record has a hand-off file among
    /// `present`. A record whose file is gone was ended by the consumer: it is
    /// deleted and left out.
    pub fn get_all_sessions(&self, app: &mut AppState, present: &Vec<String>) -> (r: Result<
        Vec<ActiveSessionInfo>,
        ZapError,
    >)
        requires
            old(app).inv(),
        ensures
            final(app).inv(),
            final(app).auth == old(app).auth,
            final(app).storage.boxes@ == old(app).storage.boxes@,
            final(app).storage.secrets@ == old(app).storage.secrets@,
            reconciled(old(app).storage.sessions@, present@, final(app).storage.sessions@),
            r is Ok,
            r matches Ok(v) ==> forall|n: Seq<char>| #[trigger] reported(v@, n) <==> has_session(final(app).storage.sessions@, n),
            r matches Ok(v) ==> forall|k: int| 0 <= k < v@.len() ==> (#[trigger] v@[k]).is_active,
    {
        let all = app.storage.get_all_dev_sessions();
        let ghost os = app.storage.sessions@;
        let mut out: Vec<ActiveSessionInfo> = Vec::new();
        let mut i: usize = 0;
        proof {
            assert forall|n: Seq<char>| #[trigger] has_session(os, n) implies seen(all@, all@.len() as int, n) by {
                let k = choose|k: int| 0 <= k < os.len() && (#[trigger] os[k]).session_name@ == n;
                assert(all@[k].session_name == os[k].session_name);
            }
            assert forall|n: Seq<char>| seen(all@, all@.len() as int, n) implies #[trigger] has_session(os, n) by {
                let k = choose|k: int| 0 <= k < all@.len() && (#[trigger] all@[k]).session_name@ == n;
                assert(all@[k].session_name == os[k].session_name);
                assert(os[k].session_name@ == n);
            }
        }
        while i < all.len()
            invariant
                app.inv(),
                app.auth == old(app).auth,
                app.storage.boxes@ == old(app).storage.boxes@,
                app.storage.secrets@ == old(app).storage.secrets@,
                os == old(app).storage.sessions@,
                i <= all@.len(),
                all@.len() == os.len(),
                forall|k: int| 0 <= k < all@.len() ==> (#[trigger] all@[k]).session_name == os[k].session_name,
                forall|n: Seq<char>| #[trigger] has_session(os, n) <==> seen(all@, all@.len() as int, n),
                forall|n: Seq<char>| #[trigger] has_session(app.storage.sessions@, n) <==> has_session(os, n) && (listed(present@, n)
                    || !seen(all@, i as int, n)),
                forall|n: Seq<char>| #[trigger] reported(out@, n) <==> seen(all@, i as int, n) && listed(present@, n),
                forall|k: int| 0 <= k < out@.len() ==> (#[trigger] out@[k]).is_active,
            decreases all@.len() - i,
        {
            let name = all[i].session_name.as_str();
            let ghost before = out@;
            let ghost cur = app.storage.sessions@;
            proof {
                assert forall|n: Seq<char>| seen(all@, i + 1, n) <==> seen(all@, i as int, n) || n == all@[i as int].session_name@ by {
                    if seen(all@, i + 1, n) {
                        let k = choose|k: int| 0 <= k < i + 1 && (#[trigger] all@[k]).session_name@ == n;
                        if k < i {
                            assert(seen(all@, i as int, n));
                        }
                    }
                    if n == all@[i as int].session_name@ {
                        assert(all@[i as int].session_name@ == n);
                    }
                    if seen(all@, i as int, n) {
                        let k = choose|k: int| 0 <= k < i && (#[trigger] all@[k]).session_name@ == n;
                        assert(0 <= k < i + 1);
                    }
                }
                assert(has_session(os, name@)) by {
                    assert(os[i as int].session_name@ == name@);
                }
            }
            if contains_str(present, name) {
                out.push(ActiveSessionInfo {
                    session_name: all[i].session_name.clone(),
                    box_name: all[i].box_name.clone(),
                    secrets_count: all[i].secrets_count(),
                    is_active: true,
                });
                proof {
                    assert forall|n: Seq<char>| #[trigger] reported(out@, n) <==> seen(all@, i + 1, n) && listed(present@, n) by {
                        if reported(out@, n) {
                            let k = choose|k: int| 0 <= k < out@.len() && (#[trigger] out@[k]).session_name@ == n;
                            if k < before.len() {
                                assert(out@[k] == before[k]);
                                assert(reported(before, n));
                            }
                        }
                        if seen(all@, i + 1, n) && listed(present@, n) {
                            if n == name@ {
                                assert(out@[before.len() as int].session_name@ == n);
                            } else {
                                assert(reported(before, n));
                                let k = choose|k: int| 0 <= k < before.len() && (#[trigger] before[k]).session_name@ == n;
                                assert(out@[k] == before[k]);
                            }
                        }
                    }
                }
            } else {
                app.storage.log(
                    "Cleanup_Dev_Session".to_string(),
                    join3("Session '", name, "' file missing; record removed"),
                    None,
                );
                app.storage.delete_dev_session_by_name(name);
            }
            i += 1;
        }
        Ok(out)
    }

    /// Session `session_name` when both its record and its hand-off file
    /// exist; a record without a file is deleted.
    pub fn get_session_info(&self, app: &mut AppState, session_name: &str, file_exists: bool) -> (r: Result<
        Option<ActiveSessionInfo>,
        ZapError,
    >)
        requires
            old(app).inv(),
        ensures
            final(app).inv(),
            final(app).auth == old(app).auth,
            final(app).storage.boxes@ == old(app).storage.boxes@,
            final(app).storage.secrets@ == old(app).storage.secrets@,
            r matches Ok(o) && (o is Some <==> has_session(old(app).storage.sessions@, session_name@) && file_exists),
            r matches Ok(Some(info)) ==> info.session_name@ == session_name@ && info.is_active,
            has_session(final(app).storage.sessions@, session_name@) <==> has_session(old(app).storage.sessions@, session_name@)
                && file_exists,
            forall|n: Seq<char>| n != session_name@ ==> (#[trigger] has_session(final(app).storage.sessions@, n)
                <==> has_session(old(app).storage.sessions@, n)),
    {
        match app.storage.get_dev_session_by_name(session_name) {
            Some(s) => {
                if file_exists {
                    let n = s.secrets_count();
                    Ok(Some(ActiveSessionInfo { session_name: s.session_name, box_name: s.box_name, secrets_count: n, is_active: true }))
                } else {
                    app.storage.delete_dev_session_by_name(session_name);
                    Ok(None)
                }
            },
            None => Ok(None),
        }
    }

    /// Whether any session is live (record and file), after reconciling.
    pub fn has_any_sessions(&self, app: &mut AppState, present: &Vec<String>) -> (r: Result<bool, ZapError>)
        requires
            old(app).inv(),
        ensures
            final(app).inv(),
            final(app).auth == old(app).auth,
            final(app).storage.boxes@ == old(app).storage.boxes@,
            final(app).storage.secrets@ == old(app).storage.secrets@,
            reconciled(old(app).storage.sessions@, present@, final(app).storage.sessions@),
            r matches Ok(b) && (b <==> final(app).storage.sessions@.len() > 0),
    {
        let sessions = self.get_all_sessions(app, present)?;
        proof {
            let v = sessions@;
            if v.len() > 0 {
                assert(reported(v, v[0].session_name@));
                let k = choose|k: int| 0 <= k < app.storage.sessions@.len() && (#[trigger] app.storage.sessions@[k]).session_name@ == v[0].session_name@;
            }
            if app.storage.sessions@.len() > 0 {
                let n = app.storage.sessions@[0].session_name@;
                assert(has_session(app.storage.sessions@, n));
                assert(reported(v, n));
            }
        }
        Ok(sessions.len() > 0)
    }

    /// Whether session `session_name` has both a record and a file.
    pub fn is_session_active(&self, app: &AppState, session_name: &str, file_exists: bool) -> (r: Result<bool, ZapError>)
        ensures
            r matches Ok(b) && (b <==> has_session(app.storage.sessions@, session_name@) && file_exists),
    {
        if app.storage.session_exists(session_name) {
            Ok(file_exists)
        } else {
            Ok(false)
        }
    }

    /// Boxes that can back a session: dev mode on and not empty.
    pub fn get_available_dev_boxes(&self, app: &AppState) -> (r: Result<Vec<DevBoxInfo>, ZapError>)
        requires
            app.inv(),
        ensures
            r matches Ok(v) && v@.len() <= app.storage.boxes@.len() && forall|k: int|
                0 <= k < v@.len() ==> exists|j: int|
                    0 <= j < app.storage.boxes@.len() && (#[trigger] v@[k]).id@ == app.storage.boxes@[j].id@
                        && app.storage.boxes@[j].dev_mode && app.storage.boxes@[j].secrets_count > 0
                        && v@[k].secrets_count == app.storage.boxes@[j].secrets_count,
            r matches Ok(v) && forall|j: int|
                0 <= j < app.storage.boxes@.len() && app.storage.boxes@[j].dev_mode && app.storage.boxes@[j].secrets_count > 0
                    ==> exists|k: int| 0 <= k < v@.len() && (#[trigger] v@[k]).id@ == app.storage.boxes@[j].id@,
    {
        let mut out: Vec<DevBoxInfo> = Vec::new();
        let mut i: usize = 0;
        while i < app.storage.boxes.len()
            invariant
                i <= app.storage.boxes@.len(),
                out@.len() <= i,
                forall|k: int|
                    0 <= k < out@.len() ==> exists|j: int|
                        0 <= j < app.storage.boxes@.len() && (#[trigger] out@[k]).id@ == app.storage.boxes@[j].id@
                            && app.storage.boxes@[j].dev_mode && app.storage.boxes@[j].secrets_count > 0
                            && out@[k].secrets_count == app.storage.boxes@[j].secrets_count,
                forall|j: int|
                    0 <= j < i && app.storage.boxes@[j].dev_mode && app.storage.boxes@[j].secrets_count > 0
                        ==> exists|k: int| 0 <= k < out@.len() && (#[trigger] out@[k]).id@ == app.storage.boxes@[j].id@,
            decreases app.storage.boxes@.len() - i,
        {
            let b = &app.storage.boxes[i];
            if b.can_be_dev_session() {
                let ghost before = out@;
                out.push(DevBoxInfo {
                    id: b.id.clone(),
                    name: b.name.clone(),
                    description: copy_opt_string(&b.description),
                    secrets_count: b.secrets_count,
                });
                proof {
                    assert forall|k: int| 0 <= k < out@.len() implies exists|j: int|
                        0 <= j < app.storage.boxes@.len() && (#[trigger] out@[k]).id@ == app.storage.boxes@[j].id@
                            && app.storage.boxes@[j].dev_mode && app.storage.boxes@[j].secrets_count > 0
                            && out@[k].secrets_count == app.storage.boxes@[j].secrets_count by {
                        if k < before.len() {
                            assert(out@[k] == before[k]);
                        } else {
                            assert(out@[k].id@ == app.storage.boxes@[i as int].id@);
                        }
                    }
                    assert forall|j: int|
                        0 <= j < i + 1 && app.storage.boxes@[j].dev_mode && app.storage.boxes@[j].secrets_count > 0
                            implies exists|k: int| 0 <= k < out@.len() && (#[trigger] out@[k]).id@ == app.storage.boxes@[j].id@ by {
                        if j < i {
                            let k = choose|k: int| 0 <= k < before.len() && (#[trigger] before[k]).id@ == app.storage.boxes@[j].id@;
                            assert(out@[k] == before[k]);
                        } else {
                            assert(out@[before.len() as int].id@ == app.storage.boxes@[j].id@);
                        }
                    }
                }
            }
            i += 1;
        }
        Ok(out)
    }

    /// Vault totals and the number of live sessions, after reconciling.
    pub fn get_dev_stats(&self, app: &mut AppState, present: &Vec<String>) -> (r: Result<DevStats, ZapError>)
        requires
            old(app).inv(),
        ensures
            final(app).inv(),
            final(app).storage.boxes@ == old(app).storage.boxes@,
            final(app).storage.secrets@ == old(app).storage.secrets@,
            reconciled(old(app).storage.sessions@, present@, final(app).storage.sessions@),
            r matches Ok(s) && s.total_boxes == old(app).storage.boxes@.len() && s.total_secrets
                == old(app).storage.secrets@.len() && s.secure_boxes == 0,
    {
        let stats = app.storage.get_vault_stats();
        let sessions = self.get_all_sessions(app, present)?;
        Ok(DevStats {
            total_boxes: stats.total_boxes,
            dev_boxes: stats.dev_boxes,
            secure_boxes: stats.secure_boxes,
            total_secrets: stats.total_secrets,
            active_sessions_count: sessions.len(),
        })
    }

    pub fn validate_session_name(&self, session_name: &str) -> (r: Result<(), ZapError>)
        ensures
            r is Ok <==> is_slug(session_name@, MAX_SESSION_NAME as nat),
            r is Err ==> (r matches Err(ZapError::InvalidSessionName(_))),
    {
        self.dev_service.validate_session_name(session_name)
    }

    /// A valid name that no record uses yet.
    pub fn is_session_name_available(&self, app: &AppState, session_name: &str) -> (r: Result<bool, ZapError>)
        ensures
            r is Ok <==> is_slug(session_name@, MAX_SESSION_NAME as nat),
            r matches Ok(b) ==> b == !has_session(app.storage.sessions@, session_name@),
    {
        self.validate_session_name(session_name)?;
        Ok(!app.storage.session_exists(session_name))
    }

    pub fn validate_session_key(&self, session_key_hex: &str) -> (r: Result<[u8; 32], ZapError>)
        ensures
            r is Ok <==> hex_ok(session_key_hex@) && session_key_hex@.len() == 64,
            r matches Ok(k) ==> k@ == hex_decoded(session_key_hex@),
            r is Err ==> (r matches Err(ZapError::InvalidSessionKey)),
    {
        self.dev_service.validate_session_key(session_key_hex)
    }
}

} // verus!
