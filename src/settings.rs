use vstd::prelude::*;

verus! {

/// User preferences.
#[derive(Debug)]
pub struct Settings {
    pub password_timeout_minutes: u32,
    pub theme: String,
}

impl Settings {
    /// A field-by-field copy.
    pub fn duplicate(&self) -> (r: Self)
        ensures
            r == *self,
    {
        Settings { password_timeout_minutes: self.password_timeout_minutes, theme: self.theme.clone() }
    }
}

impl Default for Settings {
    fn default() -> (r: Self)
        ensures
            r.password_timeout_minutes == 5,
    {
        Settings { password_timeout_minutes: 5, theme: "dark".to_string() }
    }
}

} // verus!
