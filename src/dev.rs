use crate::crypto::{encrypts, is_crypto_error, opened, CryptoService, AEAD_MAX_PLAINTEXT};
use crate::error::ZapError;
use crate::secret::{EncryptedData, Secret};
use crate::text::{is_slug, slug_match, trimmed_len};
use crate::vault_box::Box;
use vstd::prelude::*;
use vstd::utf8::encode_utf8;

verus! {

/// Most characters in a session name.
pub const MAX_SESSION_NAME: usize = 30;

/// Value of a hexadecimal digit, or -1.
pub open spec fn hex_val(c: char) -> int {
    let u = c as int;
    if 0x30 <= u <= 0x39 {
        u - 0x30
    } else if 0x61 <= u <= 0x66 {
        u - 0x61 + 10
    } else if 0x41 <= u <= 0x46 {
        u - 0x41 + 10
    } else {
        -1
    }
}

/// An even number of hexadecimal digits.
pub open spec fn hex_ok(s: Seq<char>) -> bool {
    s.len() % 2 == 0 && forall|i: int| 0 <= i < s.len() ==> hex_val(#[trigger] s[i]) >= 0
}

/// The bytes that the digit pairs of `s` spell.
pub open spec fn hex_decoded(s: Seq<char>) -> Seq<u8> {
    Seq::new(s.len() / 2, |i: int| (16 * hex_val(s[2 * i]) + hex_val(s[2 * i + 1])) as u8)
}

/// Lowercase hexadecimal digit for `n` in `0..16`.
pub open spec fn hex_digit(n: int) -> char {
    if n < 10 {
        (0x30 + n) as char
    } else {
        (0x61 + n - 10) as char
    }
}

/// Two lowercase digits per byte, high nibble first.
pub open spec fn hex_encoded(b: Seq<u8>) -> Seq<char> {
    Seq::new(
        2 * b.len(),
        |i: int|
            if i % 2 == 0 {
                hex_digit(b[i / 2] as int / 16)
            } else {
                hex_digit(b[i / 2] as int % 16)
            },
    )
}

/// Relies on `hex::decode`: it accepts exactly an even number of hex digits
/// (either case) and returns the bytes they spell.
#[verifier::external_body]
fn hex_decode(s: &str) -> (r: Option<Vec<u8>>)
    ensures
        r is Some <==> hex_ok(s@),
        r matches Some(b) ==> b@ == hex_decoded(s@),
{
    hex::decode(s).ok()
}

/// Relies on `hex::encode`: two lowercase digits per byte.
#[verifier::external_body]
fn hex_encode(b: &[u8]) -> (r: String)
    ensures
        r@ == hex_encoded(b@),
{
    hex::encode(b)
}

/// The secrets of a session are keyed by name: no two entries share one.
pub open spec fn names_unique(v: Seq<(String, EncryptedData)>) -> bool {
    forall|a: int, b: int| 0 <= a < b < v.len() ==> v[a].0@ != v[b].0@
}

/// A hand-off of one box's secrets, re-encrypted under a key of its own.
#[derive(Debug)]
pub struct DevSession {
    pub session_name: String,
    pub box_id: String,
    pub box_name: String,
    pub session_key: [u8; 32],
    pub encrypted_secrets: Vec<(String, EncryptedData)>,
}

/// Copy of a list of named ciphertexts.
pub fn copy_named(v: &Vec<(String, EncryptedData)>) -> (r: Vec<(String, EncryptedData)>)
    ensures
        r@.len() == v@.len(),
        forall|i: int| 0 <= i < v@.len() ==> (#[trigger] r@[i]).0 == v@[i].0 && r@[i].1@ == v@[i].1@,
{
    let mut r: Vec<(String, EncryptedData)> = Vec::new();
    let mut i: usize = 0;
    while i < v.len()
        invariant
            i <= v@.len(),
            r@.len() == i,
            forall|k: int| 0 <= k < i ==> (#[trigger] r@[k]).0 == v@[k].0 && r@[k].1@ == v@[k].1@,
        decreases v@.len() - i,
    {
        r.push((v[i].0.clone(), v[i].1.duplicate()));
        i += 1;
    }
    r
}

impl DevSession {
    pub fn new(
        session_name: String,
        box_id: String,
        box_name: String,
        session_key: [u8; 32],
        encrypted_secrets: Vec<(String, EncryptedData)>,
    ) -> (r: Self)
        ensures
            r.session_name == session_name,
            r.box_id == box_id,
            r.box_name == box_name,
            r.session_key == session_key,
            r.encrypted_secrets == encrypted_secrets,
    {
        DevSession { session_name, box_id, box_name, session_key, encrypted_secrets }
    }

    pub fn secrets_count(&self) -> (r: usize)
        ensures
            r == self.encrypted_secrets@.len(),
    {
        self.encrypted_secrets.len()
    }

    /// The session key in hexadecimal, as the hand-off file carries it.
    pub fn session_key_hex(&self) -> (r: String)
        ensures
            r@ == hex_encoded(self.session_key@),
    {
        hex_encode(&self.session_key)
    }

    /// A field-by-field copy.
    pub fn duplicate(&self) -> (r: Self)
        ensures
            r.session_name == self.session_name,
            r.box_id == self.box_id,
            r.box_name == self.box_name,
            r.session_key == self.session_key,
            r.encrypted_secrets@.len() == self.encrypted_secrets@.len(),
            forall|i: int|
                0 <= i < self.encrypted_secrets@.len() ==> (#[trigger] r.encrypted_secrets@[i]).0
                    == self.encrypted_secrets@[i].0 && r.encrypted_secrets@[i].1@ == self.encrypted_secrets@[i].1@,
    {
        DevSession {
            session_name: self.session_name.clone(),
            box_id: self.box_id.clone(),
            box_name: self.box_name.clone(),
            session_key: self.session_key,
            encrypted_secrets: copy_named(&self.encrypted_secrets),
        }
    }
}

/// A live session as the interface lists it.
#[derive(Debug)]
pub struct ActiveSessionInfo {
    pub session_name: String,
    pub box_name: String,
    pub secrets_count: usize,
    pub is_active: bool,
}

/// Counts shown by the dev-mode view.
#[derive(Debug)]
pub struct DevStats {
    pub total_boxes: usize,
    pub dev_boxes: usize,
    pub secure_boxes: usize,
    pub total_secrets: usize,
    pub active_sessions_count: usize,
}

/// A box that can back a dev session.
#[derive(Debug)]
pub struct DevBoxInfo {
    pub id: String,
    pub name: String,
    pub description: Option<String>,
    pub secrets_count: usize,
}

/// `dst` is `src` decrypted under `master` and encrypted again under `key`.
pub open spec fn reencrypted(src: EncryptedData, master: Seq<u8>, key: Seq<u8>, dst: EncryptedData) -> bool {
    opened(src, master) matches Some(p) && encrypts(p, key, dst)
}

/// `out` carries every secret of `secrets`, by name, re-encrypted under `key`.
pub open spec fn prepared(
    secrets: Seq<Secret>,
    master: Seq<u8>,
    key: Seq<u8>,
    out: Seq<(String, EncryptedData)>,
) -> bool {
    &&& out.len() == secrets.len()
    &&& forall|i: int|
        0 <= i < secrets.len() ==> (#[trigger] out[i]).0@ == secrets[i].name@ && reencrypted(
            secrets[i].encrypted_value,
            master,
            key,
            out[i].1,
        )
}

/// Every secret of `secrets` decrypts under `master` to a text small enough
/// to encrypt again.
pub open spec fn all_reencryptable(secrets: Seq<Secret>, master: Seq<u8>) -> bool {
    forall|i: int|
        0 <= i < secrets.len() ==> ((#[trigger] opened(secrets[i].encrypted_value, master)) matches Some(p)
            && encode_utf8(p).len() <= AEAD_MAX_PLAINTEXT)
}

/// Dev-session construction: name and box checks, session keys, re-encryption.
pub struct DevService {
    pub crypto: CryptoService,
}

impl DevService {
    pub fn new() -> (r: Self) {
        DevService { crypto: CryptoService::new() }
    }

    /// Builds a session over `box_secrets` of `box_item` under a fresh key.
    pub fn create_session_from_box(
        &self,
        session_name: String,
        box_item: &Box,
        box_secrets: &Vec<Secret>,
        master_key: &[u8; 32],
    ) -> (r: Result<DevSession, ZapError>)
        ensures
            !is_slug(session_name@, MAX_SESSION_NAME as nat) ==> (r matches Err(ZapError::InvalidSessionName(_))),
            is_slug(session_name@, MAX_SESSION_NAME as nat) && !(box_item.dev_mode && box_item.secrets_count > 0)
                ==> (r matches Err(ZapError::InvalidDevBox(_))),
            is_slug(session_name@, MAX_SESSION_NAME as nat) && box_item.dev_mode && box_item.secrets_count > 0
                && all_reencryptable(box_secrets@, master_key@) ==> r is Ok,
            r matches Ok(s) ==> s.session_name == session_name && s.box_id == box_item.id && s.box_name
                == box_item.name && prepared(box_secrets@, master_key@, s.session_key@, s.encrypted_secrets@),
            r matches Err(e) ==> e is InvalidSessionName || e is InvalidDevBox || is_crypto_error(e),
    {
        self.validate_session_name(session_name.as_str())?;
        self.validate_dev_box(box_item)?;
        let session_key = self.generate_session_key();
        let encrypted = self.prepare_box_for_session(box_secrets, master_key, &session_key)?;
        Ok(DevSession::new(session_name, box_item.id.clone(), box_item.name.clone(), session_key, encrypted))
    }

    /// One to thirty lowercase letters, digits or hyphens.
    pub fn validate_session_name(&self, name: &str) -> (r: Result<(), ZapError>)
        ensures
            r is Ok <==> is_slug(name@, MAX_SESSION_NAME as nat),
            r is Err ==> (r matches Err(ZapError::InvalidSessionName(_))),
    {
        if !slug_match(name, MAX_SESSION_NAME) {
            if trimmed_len(name) == 0 {
                return Err(ZapError::invalid_session_name("Session name cannot be empty"));
            }
            return Err(
                ZapError::invalid_session_name(
                    "Session name must be 1-30 characters, lowercase letters, numbers, and hyphens only",
                ),
            );
        }
        Ok(())
    }

    /// Dev mode on and at least one secret.
    pub fn validate_dev_box(&self, box_item: &Box) -> (r: Result<(), ZapError>)
        ensures
            r is Ok <==> box_item.dev_mode && box_item.secrets_count > 0,
            r is Err ==> (r matches Err(ZapError::InvalidDevBox(_))),
    {
        if !box_item.dev_mode {
            return Err(ZapError::InvalidDevBox("Box is not enabled for dev mode".to_string()));
        }
        if box_item.is_empty() {
            return Err(ZapError::InvalidDevBox("Box has no secrets to use as dev session".to_string()));
        }
        Ok(())
    }

    /// A fresh random session key, unrelated to the master key.
    pub fn generate_session_key(&self) -> (r: [u8; 32]) {
        self.crypto.generate_key()
    }

    /// The 32-byte key that `session_key_hex` spells; anything else is
    /// rejected whole.
    pub fn validate_session_key(&self, session_key_hex: &str) -> (r: Result<[u8; 32], ZapError>)
        ensures
            r is Ok <==> hex_ok(session_key_hex@) && session_key_hex@.len() == 64,
            r matches Ok(k) ==> k@ == hex_decoded(session_key_hex@),
            r is Err ==> (r matches Err(ZapError::InvalidSessionKey)),
    {
        let bytes = match hex_decode(session_key_hex) {
            Some(b) => b,
            None => {
                return Err(ZapError::InvalidSessionKey);
            },
        };
        if bytes.len() != 32 {
            return Err(ZapError::InvalidSessionKey);
        }
        let mut key = [0u8; 32];
        let mut i: usize = 0;
        while i < 32
            invariant
                bytes@.len() == 32,
                i <= 32,
                forall|k: int| 0 <= k < i ==> key@[k] == bytes@[k],
            decreases 32 - i,
        {
            key[i] = bytes[i];
            i += 1;
        }
        assert(key@ =~= bytes@);
        Ok(key)
    }

    /// Each secret decrypted under `master_key` and encrypted again under
    /// `session_key`; the first failure aborts.
    pub fn prepare_box_for_session(
        &self,
        box_secrets: &Vec<Secret>,
        master_key: &[u8; 32],
        session_key: &[u8; 32],
    ) -> (r: Result<Vec<(String, EncryptedData)>, ZapError>)
        ensures
            all_reencryptable(box_secrets@, master_key@) ==> r is Ok,
            r matches Ok(v) ==> prepared(box_secrets@, master_key@, session_key@, v@),
            r matches Err(e) ==> is_crypto_error(e),
    {
        let mut out: Vec<(String, EncryptedData)> = Vec::new();
        let mut i: usize = 0;
        while i < box_secrets.len()
            invariant
                i <= box_secrets@.len(),
                out@.len() == i,
                forall|k: int|
                    0 <= k < i ==> (#[trigger] out@[k]).0@ == box_secrets@[k].name@ && reencrypted(
                        box_secrets@[k].encrypted_value,
                        master_key@,
                        session_key@,
                        out@[k].1,
                    ),
            decreases box_secrets@.len() - i,
        {
            let plain = self.crypto.decrypt(&box_secrets[i].encrypted_value, master_key)?;
            let again = self.crypto.encrypt(plain.as_str(), session_key)?;
            out.push((box_secrets[i].name.clone(), again));
            i += 1;
        }
        Ok(out)
    }

    /// Decrypts a session secret under its session key.
    pub fn decrypt_secret_for_cli(&self, encrypted_data: &EncryptedData, session_key: &[u8; 32]) -> (r: Result<
        String,
        ZapError,
    >)
        ensures
            r matches Ok(p) ==> opened(*encrypted_data, session_key@) == Some(p@),
            r is Err ==> opened(*encrypted_data, session_key@) is None,
    {
        self.crypto.decrypt(encrypted_data, session_key)
    }
}

} // verus!
