use crate::error::ZapError;
use crate::secret::{concat_bytes, sealed_bytes, well_formed, EncryptedData, EncryptedView};
use aes_gcm::aead::{Aead, AeadCore, KeyInit};
use argon2::password_hash::{PasswordHash, PasswordHasher, PasswordVerifier, SaltString};
use rand::RngCore;
use vstd::prelude::*;
use vstd::string::StringSliceAdditionalSpecFns;
use vstd::utf8::encode_utf8;

verus! {

/// What AES-256-GCM produces for `plaintext` (as UTF-8) under `key` and
/// `nonce`: the ciphertext with the 16-byte tag appended.
pub uninterp spec fn aead_seal(key: Seq<u8>, nonce: Seq<u8>, plaintext: Seq<char>) -> Seq<u8>;

/// What AES-256-GCM decryption of `sealed` under `key` and `nonce` gives, read
/// as UTF-8; `None` where authentication or UTF-8 decoding fails.
pub uninterp spec fn aead_open(key: Seq<u8>, nonce: Seq<u8>, sealed: Seq<u8>) -> Option<Seq<char>>;

/// The 32-byte Argon2id (default parameters) key for `password` and `salt`.
pub uninterp spec fn argon2_key(password: Seq<char>, salt: Seq<u8>) -> Seq<u8>;

/// Whether `password` matches the PHC string `phc`; `None` where `phc` does not parse.
pub uninterp spec fn argon2_check(password: Seq<char>, phc: Seq<char>) -> Option<bool>;

/// Largest plaintext, in bytes, that AES-GCM accepts.
pub const AEAD_MAX_PLAINTEXT: u64 = 0x10_0000_0000;

/// Largest password or salt, in bytes, that Argon2 accepts.
pub const ARGON2_MAX_INPUT: u64 = 0xffff_ffff;

/// Relies on aes_gcm's `AeadCore::generate_nonce` over `OsRng`: a fresh 96-bit nonce.
#[verifier::external_body]
fn random_nonce() -> (r: Vec<u8>)
    ensures
        r@.len() == 12,
{
    aes_gcm::Aes256Gcm::generate_nonce(&mut aes_gcm::aead::OsRng).to_vec()
}

/// Relies on aes_gcm's `Aead::encrypt` for `Aes256Gcm`: it fails only past
/// the plaintext bound, appends the 16-byte tag, and its output decrypts back.
#[verifier::external_body]
fn aes_seal(key: &[u8; 32], nonce: &Vec<u8>, text: &str) -> (r: Option<Vec<u8>>)
    requires
        nonce@.len() == 12,
    ensures
        text.spec_bytes().len() <= AEAD_MAX_PLAINTEXT ==> r is Some,
        r matches Some(ct) ==> ct@ == aead_seal(key@, nonce@, text@),
        r matches Some(ct) ==> aead_open(key@, nonce@, ct@) == Some(text@),
        r matches Some(ct) ==> ct@.len() >= text@.len() + 16,
        r matches Some(ct) ==> ct@.len() == text.spec_bytes().len() + 16,
{
    let cipher = aes_gcm::Aes256Gcm::new(aes_gcm::Key::<aes_gcm::Aes256Gcm>::from_slice(key));
    cipher.encrypt(aes_gcm::Nonce::from_slice(nonce), text.as_bytes()).ok()
}

/// Relies on aes_gcm's `Aead::decrypt` for `Aes256Gcm` and `String::from_utf8`:
/// a ciphertext is accepted only if its tag verifies, in which case it is
/// exactly the encryption of what comes back.
#[verifier::external_body]
fn aes_open(key: &[u8; 32], nonce: &Vec<u8>, sealed: &Vec<u8>) -> (r: Option<String>)
    requires
        nonce@.len() == 12,
    ensures
        r matches Some(p) ==> aead_open(key@, nonce@, sealed@) == Some(p@),
        r is None ==> aead_open(key@, nonce@, sealed@) is None,
        r matches Some(p) ==> sealed@ == aead_seal(key@, nonce@, p@),
{
    let cipher = aes_gcm::Aes256Gcm::new(aes_gcm::Key::<aes_gcm::Aes256Gcm>::from_slice(key));
    match cipher.decrypt(aes_gcm::Nonce::from_slice(nonce), sealed.as_slice()) {
        Ok(bytes) => String::from_utf8(bytes).ok(),
        Err(_) => None,
    }
}

/// Relies on argon2's `PasswordHasher::hash_password` with a random `SaltString`:
/// the PHC string it returns verifies against the same password.
#[verifier::external_body]
fn argon2_hash(password: &str) -> (r: Option<String>)
    ensures
        password.spec_bytes().len() <= ARGON2_MAX_INPUT ==> r is Some,
        r matches Some(h) ==> argon2_check(password@, h@) == Some(true),
{
    let salt = SaltString::generate(&mut aes_gcm::aead::OsRng);
    match argon2::Argon2::default().hash_password(password.as_bytes(), &salt) {
        Ok(h) => Some(h.to_string()),
        Err(_) => None,
    }
}

/// Relies on argon2's `PasswordHash::new` and `PasswordVerifier::verify_password`.
#[verifier::external_body]
fn argon2_verify(password: &str, phc: &str) -> (r: Option<bool>)
    ensures
        r == argon2_check(password@, phc@),
{
    match PasswordHash::new(phc) {
        Ok(parsed) => Some(
            argon2::Argon2::default().verify_password(password.as_bytes(), &parsed).is_ok(),
        ),
        Err(_) => None,
    }
}

/// Relies on argon2's `Argon2::hash_password_into`: with a 32-byte output it
/// fails only for a salt under 8 bytes or an input over `u32::MAX` bytes.
#[verifier::external_body]
fn argon2_derive(password: &str, salt: &[u8]) -> (r: Option<[u8; 32]>)
    ensures
        (8 <= salt@.len() <= ARGON2_MAX_INPUT && password.spec_bytes().len() <= ARGON2_MAX_INPUT)
            ==> r is Some,
        r matches Some(k) ==> k@ == argon2_key(password@, salt@),
{
    let mut out = [0u8; 32];
    match argon2::Argon2::default().hash_password_into(password.as_bytes(), salt, &mut out) {
        Ok(()) => Some(out),
        Err(_) => None,
    }
}

/// Relies on rand's `rand::rng()` and `RngCore::fill_bytes`: 32 random bytes.
#[verifier::external_body]
fn random_bytes32() -> (r: [u8; 32]) {
    let mut out = [0u8; 32];
    rand::rng().fill_bytes(&mut out);
    out
}

/// `d` holds `text` encrypted under `key`: tag split off the end, and the
/// pair decrypts back to `text`.
pub open spec fn encrypts(text: Seq<char>, key: Seq<u8>, d: EncryptedData) -> bool {
    &&& d.nonce@.len() == 12
    &&& d.tag@.len() == 16
    &&& d.cipher@.len() >= text.len()
    &&& d.cipher@.len() == encode_utf8(text).len()
    &&& sealed_bytes(d) == aead_seal(key, d.nonce@, text)
    &&& aead_open(key, d.nonce@, sealed_bytes(d)) == Some(text)
}

/// What `decrypt` yields for a ciphertext with view `v` under `key`.
pub open spec fn opened_view(v: EncryptedView, key: Seq<u8>) -> Option<Seq<char>> {
    if v.cipher.len() > 0 && v.nonce.len() == 12 && v.tag.len() == 16 {
        aead_open(key, v.nonce, v.cipher + v.tag)
    } else {
        None
    }
}

/// What `decrypt` yields for `d` under `key`.
pub open spec fn opened(d: EncryptedData, key: Seq<u8>) -> Option<Seq<char>> {
    if well_formed(d) {
        aead_open(key, d.nonce@, sealed_bytes(d))
    } else {
        None
    }
}

pub open spec fn is_crypto_error(e: ZapError) -> bool {
    e is CryptoError
}

/// Encrypting a non-empty text and decrypting with the same key gives the
/// text back.
pub proof fn lemma_round_trip(text: Seq<char>, key: Seq<u8>, d: EncryptedData)
    requires
        encrypts(text, key, d),
        text.len() > 0,
    ensures
        opened(d, key) == Some(text),
{
}

/// Decryption never returns the original plaintext for a ciphertext or tag
/// that was altered: whatever it accepts is exactly the encryption of what it
/// returns.
pub proof fn lemma_tampered_never_yields_original(
    text: Seq<char>,
    key: Seq<u8>,
    d: EncryptedData,
    t: EncryptedData,
    out: Seq<char>,
)
    requires
        encrypts(text, key, d),
        t.nonce@ == d.nonce@,
        sealed_bytes(t) != sealed_bytes(d),
        sealed_bytes(t) == aead_seal(key, t.nonce@, out),
    ensures
        out != text,
{
}

/// AES-256-GCM encryption, Argon2 hashing and key derivation, random keys.
pub struct CryptoService;

impl CryptoService {
    pub fn new() -> (r: Self) {
        CryptoService
    }

    /// Encrypts `text` under `key` with a fresh nonce.
    pub fn encrypt(&self, text: &str, key: &[u8; 32]) -> (r: Result<EncryptedData, ZapError>)
        ensures
            text.spec_bytes().len() <= AEAD_MAX_PLAINTEXT ==> r is Ok,
            r matches Ok(d) ==> encrypts(text@, key@, d),
            r matches Err(e) ==> is_crypto_error(e),
    {
        let nonce = random_nonce();
        match aes_seal(key, &nonce, text) {
            None => Err(ZapError::CryptoError("Encryption failed".to_string())),
            Some(ct) => {
                let mut cipher = ct;
                let n = cipher.len();
                let tag = cipher.split_off(n - 16);
                let d = EncryptedData::new(cipher, nonce, tag);
                assert(sealed_bytes(d) =~= ct@);
                Ok(d)
            },
        }
    }

    /// Decrypts `data` under `key`; fails on malformed input, a wrong key or
    /// any alteration.
    pub fn decrypt(&self, data: &EncryptedData, key: &[u8; 32]) -> (r: Result<String, ZapError>)
        ensures
            r matches Ok(p) ==> opened(*data, key@) == Some(p@),
            r matches Ok(p) ==> sealed_bytes(*data) == aead_seal(key@, data.nonce@, p@),
            r is Err ==> opened(*data, key@) is None,
            r matches Err(e) ==> is_crypto_error(e),
            !well_formed(*data) ==> (r matches Err(ZapError::CryptoError(m)) && m@ == "Invalid encrypted data"@),
    {
        if !data.is_valid() {
            return Err(ZapError::CryptoError(String::from_str("Invalid encrypted data")));
        }
        let full = concat_bytes(&data.cipher, &data.tag);
        match aes_open(key, &data.nonce, &full) {
            Some(p) => Ok(p),
            None => Err(ZapError::CryptoError("Decryption failed".to_string())),
        }
    }

    /// Encrypts the value of each `(name, value)` pair; the first failure
    /// aborts the batch.
    pub fn encrypt_batch(&self, items: &Vec<(String, String)>, key: &[u8; 32]) -> (r: Result<
        Vec<EncryptedData>,
        ZapError,
    >)
        ensures
            (forall|i: int|
                0 <= i < items@.len() ==> encode_utf8((#[trigger] items@[i]).1@).len()
                    <= AEAD_MAX_PLAINTEXT) ==> r is Ok,
            r matches Ok(v) ==> v@.len() == items@.len() && forall|i: int|
                0 <= i < items@.len() ==> encrypts(items@[i].1@, key@, #[trigger] v@[i]),
            r matches Err(e) ==> is_crypto_error(e),
    {
        let mut out: Vec<EncryptedData> = Vec::new();
        let mut i: usize = 0;
        while i < items.len()
            invariant
                i <= items@.len(),
                out@.len() == i,
                forall|k: int| 0 <= k < i ==> encrypts(items@[k].1@, key@, #[trigger] out@[k]),
            decreases items@.len() - i,
        {
            let d = self.encrypt(items[i].1.as_str(), key)?;
            out.push(d);
            i += 1;
        }
        Ok(out)
    }

    /// Decrypts every item; the first failure aborts the batch.
    pub fn decrypt_batch(&self, list: &Vec<EncryptedData>, key: &[u8; 32]) -> (r: Result<
        Vec<String>,
        ZapError,
    >)
        ensures
            r is Ok <==> forall|i: int| 0 <= i < list@.len() ==> (#[trigger] opened(list@[i], key@)) is Some,
            r matches Ok(v) ==> v@.len() == list@.len() && forall|i: int|
                0 <= i < list@.len() ==> opened(list@[i], key@) == Some(#[trigger] v@[i]@),
            r matches Err(e) ==> is_crypto_error(e),
    {
        let mut out: Vec<String> = Vec::new();
        let mut i: usize = 0;
        while i < list.len()
            invariant
                i <= list@.len(),
                out@.len() == i,
                forall|k: int| 0 <= k < i ==> #[trigger] opened(list@[k], key@) == Some(out@[k]@),
            decreases list@.len() - i,
        {
            let p = self.decrypt(&list[i], key)?;
            out.push(p);
            i += 1;
        }
        Ok(out)
    }

    /// Argon2 PHC string for `password`, under a fresh random salt.
    pub fn hash_password(&self, password: &str) -> (r: Result<String, ZapError>)
        ensures
            password.spec_bytes().len() <= ARGON2_MAX_INPUT ==> r is Ok,
            r matches Ok(h) ==> argon2_check(password@, h@) == Some(true),
            r matches Err(e) ==> is_crypto_error(e),
    {
        match argon2_hash(password) {
            Some(h) => Ok(h),
            None => Err(ZapError::CryptoError("Password hashing failed".to_string())),
        }
    }

    /// Whether `password` matches `stored_hash`; an error only for a hash that
    /// does not parse.
    pub fn verify_password(&self, password: &str, stored_hash: &str) -> (r: Result<bool, ZapError>)
        ensures
            r matches Ok(b) ==> argon2_check(password@, stored_hash@) == Some(b),
            r is Err <==> argon2_check(password@, stored_hash@) is None,
            r matches Err(e) ==> is_crypto_error(e),
    {
        match argon2_verify(password, stored_hash) {
            Some(b) => Ok(b),
            None => Err(ZapError::CryptoError("Invalid hash format".to_string())),
        }
    }

    /// The 32-byte key Argon2 derives from `password` and `salt`.
    pub fn derive_key(&self, password: &str, salt: &[u8]) -> (r: Result<[u8; 32], ZapError>)
        ensures
            salt@.len() < 16 ==> r is Err,
            (16 <= salt@.len() <= ARGON2_MAX_INPUT && password.spec_bytes().len()
                <= ARGON2_MAX_INPUT) ==> r is Ok,
            r matches Ok(k) ==> k@ == argon2_key(password@, salt@),
            r matches Err(e) ==> is_crypto_error(e),
    {
        if salt.len() < 16 {
            return Err(ZapError::CryptoError("Salt must be at least 16 bytes".to_string()));
        }
        match argon2_derive(password, salt) {
            Some(k) => Ok(k),
            None => Err(ZapError::CryptoError("Key derivation failed".to_string())),
        }
    }

    /// 32 random bytes for a new vault salt.
    pub fn generate_salt(&self) -> (r: [u8; 32]) {
        random_bytes32()
    }

    /// 32 random bytes for a new session key.
    pub fn generate_key(&self) -> (r: [u8; 32]) {
        random_bytes32()
    }
}

/// Deriving a key twice from the same password and salt gives the same key.
pub proof fn lemma_derive_deterministic(
    password: Seq<char>,
    salt: Seq<u8>,
    k1: Seq<u8>,
    k2: Seq<u8>,
)
    requires
        k1 == argon2_key(password, salt),
        k2 == argon2_key(password, salt),
    ensures
        k1 == k2,
{
}

} // verus!
