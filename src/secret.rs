use crate::error::ZapError;
use crate::stamp::{new_id, now_seconds};
use crate::text::{chars_of, is_control, is_control_char, trim_bounds, trimmed};
use vstd::prelude::*;

verus! {

/// An AEAD ciphertext with its nonce and authentication tag kept apart.
#[derive(Debug)]
pub struct EncryptedData {
    pub cipher: Vec<u8>,
    pub nonce: Vec<u8>,
    pub tag: Vec<u8>,
}

/// Shape that decryption accepts: some ciphertext, a 12-byte nonce, a 16-byte tag.
pub open spec fn well_formed(d: EncryptedData) -> bool {
    d.cipher@.len() > 0 && d.nonce@.len() == 12 && d.tag@.len() == 16
}

/// Ciphertext followed by its tag, as the cipher produced them together.
pub open spec fn sealed_bytes(d: EncryptedData) -> Seq<u8> {
    d.cipher@ + d.tag@
}

/// Byte-wise copy of `v`.
pub fn copy_bytes(v: &Vec<u8>) -> (r: Vec<u8>)
    ensures
        r@ == v@,
{
    let mut r: Vec<u8> = Vec::new();
    let mut i: usize = 0;
    while i < v.len()
        invariant
            i <= v@.len(),
            r@ == v@.subrange(0, i as int),
        decreases v@.len() - i,
    {
        r.push(v[i]);
        i += 1;
    }
    assert(r@ =~= v@);
    r
}

/// `a` followed by `b`.
pub fn concat_bytes(a: &Vec<u8>, b: &Vec<u8>) -> (r: Vec<u8>)
    ensures
        r@ == a@ + b@,
{
    let mut r = copy_bytes(a);
    let mut i: usize = 0;
    while i < b.len()
        invariant
            i <= b@.len(),
            r@ == a@ + b@.subrange(0, i as int),
        decreases b@.len() - i,
    {
        r.push(b[i]);
        i += 1;
        assert(r@ =~= a@ + b@.subrange(0, i as int));
    }
    assert(b@.subrange(0, b@.len() as int) =~= b@);
    r
}

impl EncryptedData {
    pub fn new(cipher: Vec<u8>, nonce: Vec<u8>, tag: Vec<u8>) -> (r: Self)
        ensures
            r.cipher@ == cipher@,
            r.nonce@ == nonce@,
            r.tag@ == tag@,
    {
        EncryptedData { cipher, nonce, tag }
    }

    pub fn empty() -> (r: Self)
        ensures
            r.cipher@.len() == 0,
            r.nonce@.len() == 0,
            r.tag@.len() == 0,
    {
        EncryptedData { cipher: Vec::new(), nonce: Vec::new(), tag: Vec::new() }
    }

    pub fn is_valid(&self) -> (r: bool)
        ensures
            r == well_formed(*self),
    {
        self.cipher.len() > 0 && self.nonce.len() == 12 && self.tag.len() == 16
    }

    /// A field-by-field copy.
    pub fn duplicate(&self) -> (r: Self)
        ensures
            r.cipher@ == self.cipher@,
            r.nonce@ == self.nonce@,
            r.tag@ == self.tag@,
    {
        EncryptedData {
            cipher: copy_bytes(&self.cipher),
            nonce: copy_bytes(&self.nonce),
            tag: copy_bytes(&self.tag),
        }
    }
}

impl Default for EncryptedData {
    fn default() -> (r: Self)
        ensures
            r.cipher@.len() == 0,
            r.nonce@.len() == 0,
            r.tag@.len() == 0,
    {
        Self::empty()
    }
}

/// Fewest characters in a secret name, once trimmed.
pub const MIN_SECRET_NAME: usize = 2;

/// Most characters in a secret name, once trimmed.
pub const MAX_SECRET_NAME: usize = 75;

/// One encrypted value, named uniquely within its box.
#[derive(Debug)]
pub struct Secret {
    pub id: String,
    pub box_id: String,
    pub name: String,
    pub encrypted_value: EncryptedData,
    pub created_at: i64,
    pub updated_at: i64,
}

pub struct EncryptedView {
    pub cipher: Seq<u8>,
    pub nonce: Seq<u8>,
    pub tag: Seq<u8>,
}

impl View for EncryptedData {
    type V = EncryptedView;

    open spec fn view(&self) -> EncryptedView {
        EncryptedView { cipher: self.cipher@, nonce: self.nonce@, tag: self.tag@ }
    }
}

pub struct SecretView {
    pub id: Seq<char>,
    pub box_id: Seq<char>,
    pub name: Seq<char>,
    pub value: EncryptedView,
    pub created_at: i64,
    pub updated_at: i64,
}

impl View for Secret {
    type V = SecretView;

    open spec fn view(&self) -> SecretView {
        SecretView {
            id: self.id@,
            box_id: self.box_id@,
            name: self.name@,
            value: self.encrypted_value@,
            created_at: self.created_at,
            updated_at: self.updated_at,
        }
    }
}

/// Two to seventy-five characters once trimmed, with no control character
/// other than tab.
pub open spec fn secret_name_ok(name: Seq<char>) -> bool {
    let t = trimmed(name);
    &&& MIN_SECRET_NAME <= t.len() <= MAX_SECRET_NAME
    &&& forall|i: int| 0 <= i < t.len() ==> !(is_control(#[trigger] t[i]) && t[i] != '\t')
}

impl Secret {
    /// A new secret with a fresh id, after validating its name.
    pub fn new(box_id: String, name: String, encrypted_value: EncryptedData) -> (r: Result<Self, ZapError>)
        ensures
            r is Ok <==> secret_name_ok(name@),
            r is Err ==> (r matches Err(ZapError::ValidationError(_))),
            r matches Ok(s) ==> s.box_id@ == box_id@ && s.name@ == name@ && s.encrypted_value@
                == encrypted_value@ && s.created_at == s.updated_at,
    {
        Self::validate_name(name.as_str())?;
        let now = now_seconds();
        Ok(Secret { id: new_id(), box_id, name, encrypted_value, created_at: now, updated_at: now })
    }

    /// Applies each given field, after validating the name; a failure changes
    /// nothing.
    pub fn update_fields(&mut self, name: Option<String>, encrypted_value: Option<EncryptedData>) -> (r:
        Result<(), ZapError>)
        ensures
            r is Ok <==> (name matches Some(n) ==> secret_name_ok(n@)),
            r is Err ==> final(self)@ == old(self)@,
            r is Ok ==> final(self)@.name == (match name {
                Some(n) => n@,
                None => old(self)@.name,
            }),
            r is Ok ==> final(self)@.value == (match encrypted_value {
                Some(v) => v@,
                None => old(self)@.value,
            }),
            final(self)@.id == old(self)@.id && final(self)@.box_id == old(self)@.box_id
                && final(self).created_at == old(self).created_at,
    {
        match &name {
            Some(n) => Self::validate_name(n.as_str())?,
            None => {},
        }
        let mut updated = false;
        match name {
            Some(n) => {
                self.name = n;
                updated = true;
            },
            None => {},
        }
        match encrypted_value {
            Some(v) => {
                self.encrypted_value = v;
                updated = true;
            },
            None => {},
        }
        if updated {
            self.updated_at = now_seconds();
        }
        Ok(())
    }

    pub fn validate_name(name: &str) -> (r: Result<(), ZapError>)
        ensures
            r is Ok <==> secret_name_ok(name@),
            r is Err ==> (r matches Err(ZapError::ValidationError(_))),
    {
        let cs = chars_of(name);
        let (lo, hi) = trim_bounds(&cs);
        let ghost t = trimmed(name@);
        if hi - lo < MIN_SECRET_NAME {
            return Err(ZapError::ValidationError("Secret name must be at least 2 characters".to_string()));
        }
        if hi - lo > MAX_SECRET_NAME {
            return Err(ZapError::ValidationError("Secret name cannot exceed 75 characters".to_string()));
        }
        let mut i: usize = lo;
        while i < hi
            invariant
                lo <= i <= hi <= cs@.len(),
                cs@ == name@,
                t == cs@.subrange(lo as int, hi as int),
                t == trimmed(name@),
                forall|k: int| 0 <= k < i - lo ==> !(is_control(#[trigger] t[k]) && t[k] != '\t'),
            decreases hi - i,
        {
            let c = cs[i];
            assert(t[i - lo] == c);
            if is_control_char(c) && c != '\t' {
                let ghost k: int = i - lo;
                assert(is_control(t[k]) && t[k] != '\t');
                return Err(ZapError::ValidationError("Secret name cannot contain control characters".to_string()));
            }
            i += 1;
        }
        Ok(())
    }

    /// The name as an environment variable, with an optional prefix.
    pub fn to_env_var_name(&self, prefix: Option<&str>) -> (r: String)
        ensures
            r@ == crate::envfile::env_name_of(self.name@, match prefix {
                Some(p) => Some(p@),
                None => None,
            }),
    {
        crate::envfile::env_var_name(self.name.as_str(), prefix)
    }

    /// A field-by-field copy.
    pub fn duplicate(&self) -> (r: Self)
        ensures
            r@ == self@,
    {
        Secret {
            id: self.id.clone(),
            box_id: self.box_id.clone(),
            name: self.name.clone(),
            encrypted_value: self.encrypted_value.duplicate(),
            created_at: self.created_at,
            updated_at: self.updated_at,
        }
    }
}

} // verus!
