use crate::error::ZapError;
use crate::stamp::{new_id, now_seconds};
use crate::text::{copy_strings, is_slug, slug_match, trimmed, trimmed_len};
use crate::auth::copy_opt_string;
use vstd::prelude::*;

verus! {

/// Most secrets one box may hold.
pub const MAX_SECRETS_PER_BOX: usize = 75;

/// Most characters in a box name, once trimmed.
pub const MAX_BOX_NAME: usize = 50;

/// Most characters in a box description.
pub const MAX_DESCRIPTION: usize = 75;

/// Most tags on one box.
pub const MAX_TAGS: usize = 5;

/// Most characters in one tag.
pub const MAX_TAG_LEN: usize = 15;

/// A named container of secrets.
#[derive(Debug)]
pub struct Box {
    pub id: String,
    pub name: String,
    pub description: Option<String>,
    pub tags: Vec<String>,
    pub dev_mode: bool,
    pub secrets_count: usize,
    pub created_at: i64,
    pub updated_at: i64,
}

pub struct BoxView {
    pub id: Seq<char>,
    pub name: Seq<char>,
    pub description: Option<Seq<char>>,
    pub tags: Seq<Seq<char>>,
    pub dev_mode: bool,
    pub secrets_count: nat,
    pub created_at: i64,
    pub updated_at: i64,
}

pub open spec fn opt_view(o: Option<String>) -> Option<Seq<char>> {
    match o {
        Some(s) => Some(s@),
        None => None,
    }
}

pub open spec fn strings_view(v: Seq<String>) -> Seq<Seq<char>> {
    v.map_values(|s: String| s@)
}

impl View for Box {
    type V = BoxView;

    open spec fn view(&self) -> BoxView {
        BoxView {
            id: self.id@,
            name: self.name@,
            description: opt_view(self.description),
            tags: strings_view(self.tags@),
            dev_mode: self.dev_mode,
            secrets_count: self.secrets_count as nat,
            created_at: self.created_at,
            updated_at: self.updated_at,
        }
    }
}

pub open spec fn box_name_ok(name: Seq<char>) -> bool {
    0 < trimmed(name).len() <= MAX_BOX_NAME
}

pub open spec fn description_ok(d: Seq<char>) -> bool {
    d.len() <= MAX_DESCRIPTION
}

pub open spec fn opt_description_ok(d: Option<Seq<char>>) -> bool {
    d matches Some(s) ==> description_ok(s)
}

/// At most five tags, each a slug of at most fifteen characters, no two equal.
pub open spec fn tags_ok(tags: Seq<Seq<char>>) -> bool {
    &&& tags.len() <= MAX_TAGS
    &&& forall|i: int| 0 <= i < tags.len() ==> is_slug(#[trigger] tags[i], MAX_TAG_LEN as nat)
    &&& forall|i: int, j: int| 0 <= i < j < tags.len() ==> tags[i] != tags[j]
}

impl Box {
    /// A new, empty box with a fresh id, after validating every field.
    pub fn new(name: String, description: Option<String>, tags: Vec<String>, dev_mode: bool) -> (r:
        Result<Self, ZapError>)
        ensures
            !box_name_ok(name@) ==> (r matches Err(ZapError::ValidationError(_))),
            box_name_ok(name@) && !opt_description_ok(opt_view(description)) ==> (r matches Err(
                ZapError::ValidationError(_),
            )),
            box_name_ok(name@) && opt_description_ok(opt_view(description)) && !tags_ok(
                strings_view(tags@),
            ) ==> (r matches Err(ZapError::InvalidTags(_))),
            r is Ok <==> box_name_ok(name@) && opt_description_ok(opt_view(description)) && tags_ok(
                strings_view(tags@),
            ),
            r matches Ok(b) ==> b.name@ == name@ && opt_view(b.description) == opt_view(description)
                && b@.tags == strings_view(tags@) && b.dev_mode == dev_mode && b.secrets_count == 0
                && b.created_at == b.updated_at,
    {
        Self::validate_name(&name)?;
        match &description {
            Some(d) => Self::validate_description(d.as_str())?,
            None => {},
        }
        Self::validate_tags(&tags)?;
        let now = now_seconds();
        Ok(Box {
            id: new_id(),
            name,
            description,
            tags,
            dev_mode,
            secrets_count: 0,
            created_at: now,
            updated_at: now,
        })
    }

    /// Applies each given field, after validating all of them; a failure
    /// changes nothing.
    pub fn update_fields(
        &mut self,
        name: Option<String>,
        description: Option<Option<String>>,
        tags: Option<Vec<String>>,
        dev_mode: Option<bool>,
    ) -> (r: Result<(), ZapError>)
        ensures
            r is Ok <==> (name matches Some(n) ==> box_name_ok(n@)) && (description matches Some(d)
                ==> opt_description_ok(opt_view(d))) && (tags matches Some(t) ==> tags_ok(
                strings_view(t@),
            )),
            r is Err ==> final(self)@ == old(self)@,
            r is Ok ==> final(self)@.name == (match name {
                Some(n) => n@,
                None => old(self)@.name,
            }),
            r is Ok ==> final(self)@.description == (match description {
                Some(d) => opt_view(d),
                None => old(self)@.description,
            }),
            r is Ok ==> final(self)@.tags == (match tags {
                Some(t) => strings_view(t@),
                None => old(self)@.tags,
            }),
            r is Ok ==> final(self).dev_mode == (match dev_mode {
                Some(d) => d,
                None => old(self).dev_mode,
            }),
            r is Ok ==> final(self).id == old(self).id && final(self).secrets_count
                == old(self).secrets_count && final(self).created_at == old(self).created_at,
            (r is Ok && name is None && description is None && tags is None && dev_mode is None)
                ==> final(self)@ == old(self)@,
    {
        match &name {
            Some(n) => Self::validate_name(n.as_str())?,
            None => {},
        }
        match &description {
            Some(Some(d)) => Self::validate_description(d.as_str())?,
            _ => {},
        }
        match &tags {
            Some(t) => Self::validate_tags(t)?,
            None => {},
        }
        let mut updated = false;
        match name {
            Some(n) => {
                self.name = n;
                updated = true;
            },
            None => {},
        }
        match description {
            Some(d) => {
                self.description = d;
                updated = true;
            },
            None => {},
        }
        match tags {
            Some(t) => {
                self.tags = t;
                updated = true;
            },
            None => {},
        }
        match dev_mode {
            Some(d) => {
                self.dev_mode = d;
                updated = true;
            },
            None => {},
        }
        if updated {
            self.updated_at = now_seconds();
        }
        Ok(())
    }

    /// A box can back a dev session when dev mode is on and it holds secrets.
    pub fn can_be_dev_session(&self) -> (r: bool)
        ensures
            r == (self.dev_mode && self.secrets_count > 0),
    {
        self.dev_mode && !self.is_empty()
    }

    pub fn validate_name(name: &str) -> (r: Result<(), ZapError>)
        ensures
            r is Ok <==> box_name_ok(name@),
            r is Err ==> (r matches Err(ZapError::ValidationError(_))),
    {
        let n = trimmed_len(name);
        if n == 0 {
            return Err(ZapError::ValidationError("Box name cannot be empty".to_string()));
        }
        if n > MAX_BOX_NAME {
            return Err(ZapError::ValidationError("Box name cannot exceed 50 characters".to_string()));
        }
        Ok(())
    }

    pub fn validate_description(description: &str) -> (r: Result<(), ZapError>)
        ensures
            r is Ok <==> description_ok(description@),
            r is Err ==> (r matches Err(ZapError::ValidationError(_))),
    {
        if description.unicode_len() > MAX_DESCRIPTION {
            return Err(ZapError::ValidationError("Box description cannot exceed 75 characters".to_string()));
        }
        Ok(())
    }

    pub fn validate_tags(tags: &Vec<String>) -> (r: Result<(), ZapError>)
        ensures
            r is Ok <==> tags_ok(strings_view(tags@)),
            r is Err ==> (r matches Err(ZapError::InvalidTags(_))),
    {
        let ghost tv = strings_view(tags@);
        if tags.len() > MAX_TAGS {
            return Err(ZapError::InvalidTags("Maximum 5 tags allowed per box".to_string()));
        }
        let mut i: usize = 0;
        while i < tags.len()
            invariant
                i <= tags@.len(),
                tv == strings_view(tags@),
                forall|k: int| 0 <= k < i ==> is_slug(#[trigger] tv[k], MAX_TAG_LEN as nat),
            decreases tags@.len() - i,
        {
            assert(tv[i as int] == tags@[i as int]@);
            if !slug_match(tags[i].as_str(), MAX_TAG_LEN) {
                return Err(
                    ZapError::InvalidTags(
                        "Tags must be 1-15 characters, lowercase letters, numbers, and hyphens only".to_string(),
                    ),
                );
            }
            i += 1;
        }
        let mut i: usize = 0;
        while i < tags.len()
            invariant
                i <= tags@.len(),
                tv == strings_view(tags@),
                forall|a: int, b: int| 0 <= a < b < tags@.len() && a < i ==> tv[a] != tv[b],
            decreases tags@.len() - i,
        {
            let mut j: usize = i + 1;
            while j < tags.len()
                invariant
                    i < tags@.len(),
                    i + 1 <= j <= tags@.len(),
                    tv == strings_view(tags@),
                    forall|a: int, b: int| 0 <= a < b < tags@.len() && a < i ==> tv[a] != tv[b],
                    forall|b: int| i < b < j ==> tv[i as int] != tv[b],
                decreases tags@.len() - j,
            {
                assert(tv[i as int] == tags@[i as int]@ && tv[j as int] == tags@[j as int]@);
                if tags[i] == tags[j] {
                    return Err(ZapError::InvalidTags("Duplicate tag".to_string()));
                }
                j += 1;
            }
            i += 1;
        }
        Ok(())
    }

    /// Room for one more secret.
    pub fn can_add_secret(&self) -> (r: Result<(), ZapError>)
        ensures
            r is Ok <==> self.secrets_count < MAX_SECRETS_PER_BOX,
            r is Err ==> (r matches Err(ZapError::ValidationError(_))),
    {
        if self.secrets_count >= MAX_SECRETS_PER_BOX {
            return Err(ZapError::ValidationError("Box has reached maximum capacity (75 secrets)".to_string()));
        }
        Ok(())
    }

    pub fn is_empty(&self) -> (r: bool)
        ensures
            r == (self.secrets_count == 0),
    {
        self.secrets_count == 0
    }

    pub fn update_secrets_count(&mut self, count: usize)
        ensures
            final(self)@ == (BoxView { secrets_count: count as nat, updated_at: final(self).updated_at, ..old(self)@ }),
    {
        self.secrets_count = count;
        self.updated_at = now_seconds();
    }

    /// A field-by-field copy.
    pub fn duplicate(&self) -> (r: Self)
        ensures
            r@ == self@,
    {
        Box {
            id: self.id.clone(),
            name: self.name.clone(),
            description: copy_opt_string(&self.description),
            tags: copy_strings(&self.tags),
            dev_mode: self.dev_mode,
            secrets_count: self.secrets_count,
            created_at: self.created_at,
            updated_at: self.updated_at,
        }
    }
}

} // verus!
