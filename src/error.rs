use vstd::prelude::*;

verus! {

/// Every failure the vault can report.
#[derive(Debug)]
pub enum ZapError {
    StorageError(String),
    DatabaseError(String),
    IoError(String),
    ValidationError(String),
    InvalidTags(String),
    BoxNotFound(String),
    BoxAlreadyExists(String),
    BoxCapacityExceeded,
    InvalidDevBox(String),
    SecretNotFound(String),
    SecretAlreadyExistsInBox(String),
    AuthError(String),
    IncorrectPassword,
    SessionExpired,
    CryptoError(String),
    SessionNotFound(String),
    SessionAlreadyExists(String),
    NoSessionsExist,
    InvalidSessionName(String),
    InvalidSessionKey,
    NoCurrentSession,
    InvalidProjectContext,
    SessionsDatabaseNotFound,
    SerializationError(String),
    Utf8Error(String),
}

pub type ZapResult<T> = Result<T, ZapError>;

impl ZapError {
    pub fn box_not_found(id: &str) -> (r: Self)
        ensures
            r matches ZapError::BoxNotFound(s) && s@ == id@,
    {
        ZapError::BoxNotFound(id.to_string())
    }

    pub fn box_already_exists(name: &str) -> (r: Self)
        ensures
            r matches ZapError::BoxAlreadyExists(s) && s@ == name@,
    {
        ZapError::BoxAlreadyExists(name.to_string())
    }

    pub fn secret_not_found(id: &str) -> (r: Self)
        ensures
            r matches ZapError::SecretNotFound(s) && s@ == id@,
    {
        ZapError::SecretNotFound(id.to_string())
    }

    pub fn secret_already_exists_in_box(name: &str) -> (r: Self)
        ensures
            r matches ZapError::SecretAlreadyExistsInBox(s) && s@ == name@,
    {
        ZapError::SecretAlreadyExistsInBox(name.to_string())
    }

    pub fn session_not_found(name: &str) -> (r: Self)
        ensures
            r matches ZapError::SessionNotFound(s) && s@ == name@,
    {
        ZapError::SessionNotFound(name.to_string())
    }

    pub fn session_already_exists(name: &str) -> (r: Self)
        ensures
            r matches ZapError::SessionAlreadyExists(s) && s@ == name@,
    {
        ZapError::SessionAlreadyExists(name.to_string())
    }

    pub fn invalid_session_name(reason: &str) -> (r: Self)
        ensures
            r matches ZapError::InvalidSessionName(s) && s@ == reason@,
    {
        ZapError::InvalidSessionName(reason.to_string())
    }
}

} // verus!
