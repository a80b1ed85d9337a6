use crate::auth::AuthConfig;
use crate::dev::DevSession;
use crate::error::ZapError;
use crate::log::LogEntry;
use crate::settings::Settings;
use crate::stamp::now_seconds;
use crate::auth::copy_opt_string;
use crate::secret::{secret_name_ok, Secret, SecretView};
use crate::text::{string_of, chars_of, contains_chars, contains_seq, lower_of, str_eq, to_lower, trimmed, trimmed_len};
use crate::vault_box::strings_view;
use crate::vault_box::{Box, BoxView, MAX_SECRETS_PER_BOX};
use vstd::prelude::*;

verus! {

pub open spec fn box_views(v: Seq<Box>) -> Seq<BoxView> {
    v.map_values(|b: Box| b@)
}

pub open spec fn secret_views(v: Seq<Secret>) -> Seq<SecretView> {
    v.map_values(|s: Secret| s@)
}

/// Number of secrets in `ss` that belong to the box `id`.
pub open spec fn count_in(ss: Seq<Secret>, id: Seq<char>) -> nat
    decreases ss.len(),
{
    if ss.len() == 0 {
        0
    } else {
        count_in(ss.drop_last(), id) + if ss.last().box_id@ == id {
            1nat
        } else {
            0nat
        }
    }
}

/// The secrets of `ss` that belong to the box `id`, in order.
pub open spec fn secrets_of(ss: Seq<Secret>, id: Seq<char>) -> Seq<SecretView>
    decreases ss.len(),
{
    if ss.len() == 0 {
        Seq::empty()
    } else if ss.last().box_id@ == id {
        secrets_of(ss.drop_last(), id).push(ss.last()@)
    } else {
        secrets_of(ss.drop_last(), id)
    }
}

pub open spec fn box_pos(bs: Seq<Box>, id: Seq<char>, i: int) -> bool {
    0 <= i < bs.len() && bs[i].id@ == id
}

pub open spec fn has_box(bs: Seq<Box>, id: Seq<char>) -> bool {
    exists|i: int| box_pos(bs, id, i)
}

pub open spec fn has_box_named(bs: Seq<Box>, name: Seq<char>) -> bool {
    exists|i: int| 0 <= i < bs.len() && (#[trigger] bs[i]).name@ == name
}

pub open spec fn secret_pos(ss: Seq<Secret>, id: Seq<char>, i: int) -> bool {
    0 <= i < ss.len() && ss[i].id@ == id
}

pub open spec fn has_secret(ss: Seq<Secret>, id: Seq<char>) -> bool {
    exists|i: int| secret_pos(ss, id, i)
}

/// Some secret of box `box_id` is called `name`.
pub open spec fn name_taken(ss: Seq<Secret>, box_id: Seq<char>, name: Seq<char>) -> bool {
    exists|i: int| 0 <= i < ss.len() && (#[trigger] ss[i]).box_id@ == box_id && ss[i].name@ == name
}

pub proof fn lemma_count_push(ss: Seq<Secret>, x: Secret, id: Seq<char>)
    ensures
        count_in(ss.push(x), id) == count_in(ss, id) + if x.box_id@ == id {
            1nat
        } else {
            0nat
        },
        secrets_of(ss.push(x), id) == if x.box_id@ == id {
            secrets_of(ss, id).push(x@)
        } else {
            secrets_of(ss, id)
        },
{
    assert(ss.push(x).drop_last() =~= ss);
}

pub proof fn lemma_count_remove(ss: Seq<Secret>, i: int, id: Seq<char>)
    requires
        0 <= i < ss.len(),
    ensures
        count_in(ss.remove(i), id) + if ss[i].box_id@ == id {
            1nat
        } else {
            0nat
        } == count_in(ss, id),
    decreases ss.len(),
{
    if i == ss.len() - 1 {
        assert(ss.remove(i) =~= ss.drop_last());
    } else {
        lemma_count_remove(ss.drop_last(), i, id);
        assert(ss.remove(i).drop_last() =~= ss.drop_last().remove(i));
        assert(ss.remove(i).last() == ss.last());
    }
}

pub proof fn lemma_count_update(ss: Seq<Secret>, i: int, x: Secret, id: Seq<char>)
    requires
        0 <= i < ss.len(),
        x.box_id@ == ss[i].box_id@,
    ensures
        count_in(ss.update(i, x), id) == count_in(ss, id),
    decreases ss.len(),
{
    if i == ss.len() - 1 {
        assert(ss.update(i, x).drop_last() =~= ss.drop_last());
    } else {
        lemma_count_update(ss.drop_last(), i, x, id);
        assert(ss.update(i, x).drop_last() =~= ss.drop_last().update(i, x));
    }
}

/// `v` is the view of a secret of `ss` in box `id`.
pub open spec fn member_of(ss: Seq<Secret>, id: Seq<char>, v: SecretView) -> bool {
    exists|k: int| 0 <= k < ss.len() && (#[trigger] ss[k]).box_id@ == id && v == ss[k]@
}

/// Every entry of `secrets_of(ss, id)` is a secret of `ss` in box `id`.
pub proof fn lemma_secrets_of_members(ss: Seq<Secret>, id: Seq<char>)
    ensures
        forall|a: int| 0 <= a < secrets_of(ss, id).len() ==> member_of(ss, id, #[trigger] secrets_of(ss, id)[a]),
    decreases ss.len(),
{
    if ss.len() > 0 {
        let p = ss.drop_last();
        lemma_secrets_of_members(p, id);
        lemma_count_bound(p, id);
        assert forall|a: int| 0 <= a < secrets_of(ss, id).len() implies member_of(ss, id, #[trigger] secrets_of(ss, id)[a]) by {
            if a < secrets_of(p, id).len() {
                assert(secrets_of(ss, id)[a] == secrets_of(p, id)[a]);
                assert(member_of(p, id, secrets_of(p, id)[a]));
                let k = choose|k: int| 0 <= k < p.len() && (#[trigger] p[k]).box_id@ == id && secrets_of(p, id)[a] == p[k]@;
                assert(ss[k] == p[k]);
            } else {
                assert(secrets_of(ss, id)[a] == ss[ss.len() - 1]@);
            }
        }
    } else {
        assert(secrets_of(ss, id).len() == 0);
    }
}

/// Within one box, the secrets that `secrets_of` lists have distinct names.
pub proof fn lemma_secrets_of_distinct(ss: Seq<Secret>, id: Seq<char>)
    requires
        secrets_unique(ss),
    ensures
        forall|a: int, b: int| 0 <= a < b < secrets_of(ss, id).len() ==> secrets_of(ss, id)[a].name != secrets_of(ss, id)[b].name,
    decreases ss.len(),
{
    if ss.len() > 0 {
        let p = ss.drop_last();
        assert(secrets_unique(p)) by {
            assert forall|i: int, j: int| 0 <= i < j < p.len() implies p[i].id@ != p[j].id@ by {
                assert(p[i] == ss[i] && p[j] == ss[j]);
            }
        }
        lemma_secrets_of_distinct(p, id);
        lemma_secrets_of_members(p, id);
        lemma_count_bound(p, id);
        let so = secrets_of(ss, id);
        let sp = secrets_of(p, id);
        assert forall|a: int, b: int| 0 <= a < b < so.len() implies so[a].name != so[b].name by {
            if b < sp.len() {
                assert(so[a] == sp[a] && so[b] == sp[b]);
            } else {
                assert(so[a] == sp[a]);
                assert(member_of(p, id, sp[a]));
                let k = choose|k: int| 0 <= k < p.len() && (#[trigger] p[k]).box_id@ == id && sp[a] == p[k]@;
                assert(p[k] == ss[k]);
                assert(so[b] == ss[ss.len() - 1]@);
                assert(ss[k].box_id@ == ss[ss.len() - 1].box_id@);
            }
        }
    }
}

pub proof fn lemma_count_bound(ss: Seq<Secret>, id: Seq<char>)
    ensures
        count_in(ss, id) <= ss.len(),
        secrets_of(ss, id).len() == count_in(ss, id),
    decreases ss.len(),
{
    if ss.len() > 0 {
        lemma_count_bound(ss.drop_last(), id);
    }
}

/// The vault's indexed store: boxes and secrets, unique by id, boxes unique
/// by name, secrets unique by name within a box, and each box's cached count
/// equal to the number of secrets that reference it.
pub struct StorageService {
    pub boxes: Vec<Box>,
    pub secrets: Vec<Secret>,
    pub sessions: Vec<DevSession>,
    pub logs: Vec<LogEntry>,
    pub settings: Option<Settings>,
    pub auth_config: Option<AuthConfig>,
}

impl StorageService {
    pub open spec fn wf(&self) -> bool {
        self.unique_ok() && self.counts_ok()
    }

    /// Ids unique, box names unique, secret names unique within a box.
    pub open spec fn unique_ok(&self) -> bool {
        &&& forall|i: int, j: int|
            0 <= i < j < self.boxes@.len() ==> self.boxes@[i].id@ != self.boxes@[j].id@
                && self.boxes@[i].name@ != self.boxes@[j].name@
        &&& forall|i: int, j: int|
            0 <= i < j < self.secrets@.len() ==> self.secrets@[i].id@ != self.secrets@[j].id@
        &&& forall|i: int, j: int|
            0 <= i < j < self.secrets@.len() && self.secrets@[i].box_id@ == self.secrets@[j].box_id@
                ==> self.secrets@[i].name@ != self.secrets@[j].name@
    }

    /// Each box's cached count is the number of secrets that reference it.
    pub open spec fn counts_ok(&self) -> bool {
        forall|i: int|
            0 <= i < self.boxes@.len() ==> (#[trigger] self.boxes@[i]).secrets_count == count_in(
                self.secrets@,
                self.boxes@[i].id@,
            )
    }

    pub fn new() -> (r: Self)
        ensures
            r.wf(),
            r.sessions_ok(),
            r.boxes@.len() == 0,
            r.secrets@.len() == 0,
            r.sessions@.len() == 0,
            r.logs@.len() == 0,
            r.settings is None,
            r.auth_config is None,
    {
        StorageService {
            boxes: Vec::new(),
            secrets: Vec::new(),
            sessions: Vec::new(),
            logs: Vec::new(),
            settings: None,
            auth_config: None,
        }
    }

    /// Position of the box with id `id`.
    fn find_box(&self, id: &str) -> (r: Option<usize>)
        ensures
            r matches Some(i) ==> box_pos(self.boxes@, id@, i as int),
            r is None ==> !has_box(self.boxes@, id@),
    {
        let mut i: usize = 0;
        while i < self.boxes.len()
            invariant
                i <= self.boxes@.len(),
                forall|k: int| 0 <= k < i ==> !box_pos(self.boxes@, id@, k),
            decreases self.boxes@.len() - i,
        {
            if str_eq(self.boxes[i].id.as_str(), id) {
                return Some(i);
            }
            i += 1;
        }
        None
    }

    /// Position of the box called `name`.
    fn find_box_by_name(&self, name: &str) -> (r: Option<usize>)
        ensures
            r matches Some(i) ==> i < self.boxes@.len() && self.boxes@[i as int].name@ == name@,
            r is None ==> !has_box_named(self.boxes@, name@),
    {
        let mut i: usize = 0;
        while i < self.boxes.len()
            invariant
                i <= self.boxes@.len(),
                forall|k: int| 0 <= k < i ==> (#[trigger] self.boxes@[k]).name@ != name@,
            decreases self.boxes@.len() - i,
        {
            if str_eq(self.boxes[i].name.as_str(), name) {
                return Some(i);
            }
            i += 1;
        }
        None
    }

    /// Position of the secret with id `id`.
    fn find_secret(&self, id: &str) -> (r: Option<usize>)
        ensures
            r matches Some(i) ==> secret_pos(self.secrets@, id@, i as int),
            r is None ==> !has_secret(self.secrets@, id@),
    {
        let mut i: usize = 0;
        while i < self.secrets.len()
            invariant
                i <= self.secrets@.len(),
                forall|k: int| 0 <= k < i ==> !secret_pos(self.secrets@, id@, k),
            decreases self.secrets@.len() - i,
        {
            if str_eq(self.secrets[i].id.as_str(), id) {
                return Some(i);
            }
            i += 1;
        }
        None
    }

    /// Position, among the first `limit` secrets, of the one with id `id`.
    fn find_secret_before(&self, id: &str, limit: usize) -> (r: Option<usize>)
        requires
            limit <= self.secrets@.len(),
        ensures
            r matches Some(i) ==> i < limit && secret_pos(self.secrets@, id@, i as int),
            r is None ==> forall|i: int| 0 <= i < limit ==> !secret_pos(self.secrets@, id@, i),
    {
        let mut i: usize = 0;
        while i < limit
            invariant
                limit <= self.secrets@.len(),
                i <= limit,
                forall|k: int| 0 <= k < i ==> !secret_pos(self.secrets@, id@, k),
            decreases limit - i,
        {
            if str_eq(self.secrets[i].id.as_str(), id) {
                return Some(i);
            }
            i += 1;
        }
        None
    }

    /// Position of the secret called `name` in box `box_id`.
    fn find_secret_by_name(&self, box_id: &str, name: &str) -> (r: Option<usize>)
        ensures
            r matches Some(i) ==> i < self.secrets@.len() && self.secrets@[i as int].box_id@ == box_id@
                && self.secrets@[i as int].name@ == name@,
            r is None ==> !name_taken(self.secrets@, box_id@, name@),
    {
        let mut i: usize = 0;
        while i < self.secrets.len()
            invariant
                i <= self.secrets@.len(),
                forall|k: int|
                    0 <= k < i ==> !((#[trigger] self.secrets@[k]).box_id@ == box_id@
                        && self.secrets@[k].name@ == name@),
            decreases self.secrets@.len() - i,
        {
            if str_eq(self.secrets[i].box_id.as_str(), box_id) && str_eq(self.secrets[i].name.as_str(), name) {
                return Some(i);
            }
            i += 1;
        }
        None
    }

    /// Number of secrets that reference box `box_id`, counted afresh.
    pub fn count_secrets_in_box(&self, box_id: &str) -> (r: usize)
        ensures
            r == count_in(self.secrets@, box_id@),
    {
        let mut n: usize = 0;
        let mut i: usize = 0;
        while i < self.secrets.len()
            invariant
                i <= self.secrets@.len(),
                n <= i,
                n == count_in(self.secrets@.subrange(0, i as int), box_id@),
            decreases self.secrets@.len() - i,
        {
            proof {
                assert(self.secrets@.subrange(0, i + 1).drop_last() =~= self.secrets@.subrange(0, i as int));
            }
            if str_eq(self.secrets[i].box_id.as_str(), box_id) {
                n += 1;
            }
            i += 1;
        }
        assert(self.secrets@.subrange(0, i as int) =~= self.secrets@);
        n
    }
}


pub open spec fn name_conflict(bs: Seq<Box>, name: Seq<char>, id: Seq<char>) -> bool {
    exists|j: int| 0 <= j < bs.len() && (#[trigger] bs[j]).name@ == name && bs[j].id@ != id
}

/// `b` as stored: its count taken from the secrets.
pub open spec fn stored(b: BoxView, ss: Seq<Secret>) -> BoxView {
    BoxView { secrets_count: count_in(ss, b.id), ..b }
}

/// `b` with its count replaced.
pub open spec fn recounted(b: BoxView, ss: Seq<Secret>, id: Seq<char>) -> BoxView {
    if b.id == id {
        stored(b, ss)
    } else {
        b
    }
}

pub open spec fn is_box_not_found<T>(r: Result<T, ZapError>) -> bool {
    r matches Err(ZapError::BoxNotFound(_))
}

/// Deleting a box frees its name: no remaining box carries it.
pub proof fn lemma_name_freed(bs: Seq<Box>, i: int)
    requires
        0 <= i < bs.len(),
        forall|a: int, b: int| 0 <= a < b < bs.len() ==> bs[a].name@ != bs[b].name@,
    ensures
        !has_box_named(bs.remove(i), bs[i].name@),
{
    assert forall|k: int| 0 <= k < bs.remove(i).len() implies (#[trigger] bs.remove(i)[k]).name@ != bs[i].name@ by {
        if k < i {
            assert(bs.remove(i)[k] == bs[k]);
        } else {
            assert(bs.remove(i)[k] == bs[k + 1]);
        }
    }
}

/// Once the box holding a name is deleted, a box with that name no longer
/// conflicts with any remaining box, whatever its id.
pub proof fn lemma_name_available_after_delete(bs: Seq<Box>, i: int, id: Seq<char>)
    requires
        0 <= i < bs.len(),
        forall|a: int, b: int| 0 <= a < b < bs.len() ==> bs[a].name@ != bs[b].name@,
    ensures
        !name_conflict(bs.remove(i), bs[i].name@, id),
{
    lemma_name_freed(bs, i);
}

/// In a well-formed store every box reports exactly the number of secret
/// records that reference it.
pub proof fn lemma_count_matches_records(s: StorageService, i: int)
    requires
        s.wf(),
        0 <= i < s.boxes@.len(),
    ensures
        s.boxes@[i].secrets_count == count_in(s.secrets@, s.boxes@[i].id@),
        s.boxes@[i].secrets_count == secrets_of(s.secrets@, s.boxes@[i].id@).len(),
{
    lemma_count_bound(s.secrets@, s.boxes@[i].id@);
}

impl StorageService {
    /// Recounts the secrets of box `box_id` into its cached count.
    fn refresh_count(&mut self, box_id: &str)
        requires
            old(self).unique_ok(),
            forall|i: int|
                0 <= i < old(self).boxes@.len() && old(self).boxes@[i].id@ != box_id@
                    ==> (#[trigger] old(self).boxes@[i]).secrets_count == count_in(
                    old(self).secrets@,
                    old(self).boxes@[i].id@,
                ),
            count_in(old(self).secrets@, box_id@) <= usize::MAX,
        ensures
            final(self).wf(),
            final(self).sessions@ == old(self).sessions@,
            final(self).logs@ == old(self).logs@,
            final(self).secrets@ == old(self).secrets@,
            final(self).boxes@.len() == old(self).boxes@.len(),
            forall|i: int|
                0 <= i < old(self).boxes@.len() ==> (#[trigger] final(self).boxes@[i])@ == recounted(
                    old(self).boxes@[i]@,
                    old(self).secrets@,
                    box_id@,
                ),
    {
        match self.find_box(box_id) {
            Some(i) => {
                let c = self.count_secrets_in_box(box_id);
                let ghost ob = self.boxes@;
                self.boxes[i].secrets_count = c;
                proof {
                    assert(self.boxes@ == ob.update(i as int, self.boxes@[i as int]));
                    assert forall|k: int| 0 <= k < ob.len() && k != i implies ob[k].id@ != box_id@ by {
                        if k < i {
                        } else {
                        }
                    }
                }
            },
            None => {
                assert forall|k: int| 0 <= k < self.boxes@.len() implies self.boxes@[k].id@ != box_id@ by {
                    assert(!box_pos(self.boxes@, box_id@, k));
                }
            },
        }
    }

    /// Stores `b`, replacing the box with the same id if there is one; fails
    /// when another box already has its name. The count is taken from the
    /// secrets.
    pub fn save_box(&mut self, b: &Box) -> (r: Result<(), ZapError>)
        requires
            old(self).wf(),
        ensures
            final(self).wf(),
            final(self).sessions@ == old(self).sessions@,
            final(self).logs@ == old(self).logs@,
            final(self).secrets@ == old(self).secrets@,
            r is Err <==> name_conflict(old(self).boxes@, b.name@, b.id@),
            r is Err ==> (r matches Err(ZapError::BoxAlreadyExists(_))) && final(self).boxes@ == old(self).boxes@,
            r is Ok && !has_box(old(self).boxes@, b.id@) ==> box_views(final(self).boxes@) == box_views(
                old(self).boxes@,
            ).push(stored(b@, old(self).secrets@)),
            forall|i: int|
                r is Ok && box_pos(old(self).boxes@, b.id@, i) ==> box_views(final(self).boxes@)
                    == box_views(old(self).boxes@).update(i, stored(b@, old(self).secrets@)),
    {
        let name_pos = self.find_box_by_name(b.name.as_str());
        match name_pos {
            Some(j) => {
                if !str_eq(self.boxes[j].id.as_str(), b.id.as_str()) {
                    return Err(ZapError::box_already_exists(b.name.as_str()));
                }
            },
            None => {},
        }
        let ghost ob = self.boxes@;
        proof {
            lemma_count_bound(self.secrets@, b.id@);
            assert forall|k: int| 0 <= k < ob.len() && (#[trigger] ob[k]).name@ == b.name@ implies ob[k].id@ == b.id@ by {
                match name_pos {
                    Some(j) => {
                        if k != j as int {
                            if k < j {
                                assert(ob[k].name@ != ob[j as int].name@);
                            } else {
                                assert(ob[j as int].name@ != ob[k].name@);
                            }
                        }
                    },
                    None => {
                        assert(!has_box_named(ob, b.name@));
                    },
                }
            }
            assert(!name_conflict(ob, b.name@, b.id@));
        }
        let mut nb = b.duplicate();
        nb.secrets_count = self.count_secrets_in_box(b.id.as_str());
        match self.find_box(b.id.as_str()) {
            Some(i) => {
                self.boxes.set(i, nb);
                proof {
                    assert(box_views(self.boxes@) =~= box_views(ob).update(i as int, stored(b@, self.secrets@)));
                    assert forall|k: int| box_pos(ob, b.id@, k) implies k == i by {
                        if k < i {
                            assert(ob[k].id@ != ob[i as int].id@);
                        } else if k > i {
                            assert(ob[i as int].id@ != ob[k].id@);
                        }
                    }
                    let nbs = self.boxes@;
                    assert forall|x: int, y: int| 0 <= x < y < nbs.len() implies nbs[x].id@ != nbs[y].id@
                        && nbs[x].name@ != nbs[y].name@ by {
                        if x == i {
                            assert(ob[y].id@ != ob[x].id@);
                            if ob[y].name@ == b.name@ {
                                assert(ob[y].id@ == b.id@);
                            }
                        } else if y == i {
                            assert(ob[x].id@ != ob[y].id@);
                            if ob[x].name@ == b.name@ {
                                assert(ob[x].id@ == b.id@);
                            }
                        }
                    }
                    assert forall|k: int| 0 <= k < nbs.len() implies (#[trigger] nbs[k]).secrets_count == count_in(self.secrets@, nbs[k].id@) by {
                        if k != i {
                            assert(nbs[k] == ob[k]);
                        }
                    }
                }
            },
            None => {
                self.boxes.push(nb);
                proof {
                    assert(box_views(self.boxes@) =~= box_views(ob).push(stored(b@, self.secrets@)));
                    let nbs = self.boxes@;
                    let n = ob.len() as int;
                    assert forall|x: int, y: int| 0 <= x < y < nbs.len() implies nbs[x].id@ != nbs[y].id@
                        && nbs[x].name@ != nbs[y].name@ by {
                        if y == n {
                            assert(!box_pos(ob, b.id@, x));
                            if ob[x].name@ == b.name@ {
                                assert(ob[x].id@ == b.id@);
                            }
                        } else {
                            assert(nbs[x] == ob[x] && nbs[y] == ob[y]);
                        }
                    }
                    assert forall|k: int| 0 <= k < nbs.len() implies (#[trigger] nbs[k]).secrets_count == count_in(self.secrets@, nbs[k].id@) by {
                        if k < n {
                            assert(nbs[k] == ob[k]);
                        }
                    }
                }
            },
        }
        Ok(())
    }

    /// The box with id `box_id`; its count is the live count.
    pub fn get_box(&self, box_id: &str) -> (r: Result<Box, ZapError>)
        requires
            self.wf(),
        ensures
            r is Err <==> !has_box(self.boxes@, box_id@),
            r is Err ==> is_box_not_found(r),
            r matches Ok(b) ==> exists|i: int| box_pos(self.boxes@, box_id@, i) && b@ == self.boxes@[i]@,
            r matches Ok(b) ==> b.id@ == box_id@ && b.secrets_count == count_in(self.secrets@, box_id@),
    {
        match self.find_box(box_id) {
            Some(i) => Ok(self.boxes[i].duplicate()),
            None => Err(ZapError::box_not_found(box_id)),
        }
    }

    /// Id of the box called `name`, through the name index.
    pub fn get_box_id_by_name(&self, name: &str) -> (r: Option<String>)
        ensures
            r is None <==> !has_box_named(self.boxes@, name@),
            r matches Some(id) ==> exists|i: int|
                0 <= i < self.boxes@.len() && self.boxes@[i].name@ == name@ && self.boxes@[i].id@ == id@,
    {
        match self.find_box_by_name(name) {
            Some(i) => Some(self.boxes[i].id.clone()),
            None => None,
        }
    }

    /// Every box.
    pub fn get_all_boxes(&self) -> (r: Vec<Box>)
        ensures
            box_views(r@) == box_views(self.boxes@),
    {
        let mut out: Vec<Box> = Vec::new();
        let mut i: usize = 0;
        while i < self.boxes.len()
            invariant
                i <= self.boxes@.len(),
                out@.len() == i,
                forall|k: int| 0 <= k < i ==> (#[trigger] out@[k])@ == self.boxes@[k]@,
            decreases self.boxes@.len() - i,
        {
            out.push(self.boxes[i].duplicate());
            i += 1;
        }
        assert(box_views(out@) =~= box_views(self.boxes@));
        out
    }

    /// Replaces the stored box with `b`'s id by `b`; fails when there is none
    /// or when another box has `b`'s name.
    pub fn update_box(&mut self, b: &Box) -> (r: Result<(), ZapError>)
        requires
            old(self).wf(),
        ensures
            final(self).wf(),
            final(self).sessions@ == old(self).sessions@,
            final(self).logs@ == old(self).logs@,
            final(self).secrets@ == old(self).secrets@,
            !has_box(old(self).boxes@, b.id@) ==> is_box_not_found(r),
            has_box(old(self).boxes@, b.id@) ==> (r is Err <==> name_conflict(old(self).boxes@, b.name@, b.id@)),
            has_box(old(self).boxes@, b.id@) && r is Err ==> (r matches Err(ZapError::BoxAlreadyExists(_))),
            r is Err ==> final(self).boxes@ == old(self).boxes@,
            forall|i: int|
                r is Ok && box_pos(old(self).boxes@, b.id@, i) ==> box_views(final(self).boxes@)
                    == box_views(old(self).boxes@).update(i, stored(b@, old(self).secrets@)),
            r is Ok ==> has_box(old(self).boxes@, b.id@),
    {
        match self.find_box(b.id.as_str()) {
            None => Err(ZapError::box_not_found(b.id.as_str())),
            Some(_) => self.save_box(b),
        }
    }

    /// Removes the box with id `box_id` (its secrets stay).
    pub fn delete_box(&mut self, box_id: &str) -> (r: Result<(), ZapError>)
        requires
            old(self).wf(),
        ensures
            final(self).wf(),
            final(self).sessions@ == old(self).sessions@,
            final(self).logs@ == old(self).logs@,
            final(self).secrets@ == old(self).secrets@,
            r is Err <==> !has_box(old(self).boxes@, box_id@),
            r is Err ==> is_box_not_found(r) && final(self).boxes@ == old(self).boxes@,
            forall|i: int|
                r is Ok && box_pos(old(self).boxes@, box_id@, i) ==> final(self).boxes@ == old(
                    self,
                ).boxes@.remove(i),
            !has_box(final(self).boxes@, box_id@),
    {
        match self.find_box(box_id) {
            None => Err(ZapError::box_not_found(box_id)),
            Some(i) => {
                let ghost old_boxes = self.boxes@;
                self.boxes.remove(i);
                proof {
                    assert forall|k: int| 0 <= k < self.boxes@.len() implies (k < i ==> self.boxes@[k] == old_boxes[k]) && (k >= i ==> self.boxes@[k] == old_boxes[k + 1]) by {}
                    assert forall|k: int| box_pos(old_boxes, box_id@, k) implies k == i by {}
                }
                Ok(())
            },
        }
    }
}


pub open spec fn secrets_unique(ss: Seq<Secret>) -> bool {
    &&& forall|i: int, j: int| 0 <= i < j < ss.len() ==> ss[i].id@ != ss[j].id@
    &&& forall|i: int, j: int|
        0 <= i < j < ss.len() && ss[i].box_id@ == ss[j].box_id@ ==> ss[i].name@ != ss[j].name@
}

pub proof fn lemma_unique_push(ss: Seq<Secret>, x: Secret)
    requires
        secrets_unique(ss),
        !has_secret(ss, x.id@),
        !name_taken(ss, x.box_id@, x.name@),
    ensures
        secrets_unique(ss.push(x)),
{
    let n = ss.push(x);
    assert forall|i: int, j: int| 0 <= i < j < n.len() implies n[i].id@ != n[j].id@ && (n[i].box_id@
        == n[j].box_id@ ==> n[i].name@ != n[j].name@) by {
        if j == ss.len() {
            assert(!secret_pos(ss, x.id@, i));
            assert(n[i] == ss[i]);
        } else {
            assert(n[i] == ss[i] && n[j] == ss[j]);
        }
    }
}

pub proof fn lemma_unique_remove(ss: Seq<Secret>, r: int)
    requires
        secrets_unique(ss),
        0 <= r < ss.len(),
    ensures
        secrets_unique(ss.remove(r)),
{
    let n = ss.remove(r);
    assert forall|i: int, j: int| 0 <= i < j < n.len() implies n[i].id@ != n[j].id@ && (n[i].box_id@
        == n[j].box_id@ ==> n[i].name@ != n[j].name@) by {
        let a = if i < r { i } else { i + 1 };
        let b = if j < r { j } else { j + 1 };
        assert(n[i] == ss[a] && n[j] == ss[b]);
    }
}

pub proof fn lemma_unique_update(ss: Seq<Secret>, r: int, x: Secret)
    requires
        secrets_unique(ss),
        0 <= r < ss.len(),
        x.id@ == ss[r].id@,
        x.box_id@ == ss[r].box_id@,
        forall|k: int| 0 <= k < ss.len() && k != r && (#[trigger] ss[k]).box_id@ == x.box_id@ ==> ss[k].name@ != x.name@,
    ensures
        secrets_unique(ss.update(r, x)),
{
    let n = ss.update(r, x);
    assert forall|i: int, j: int| 0 <= i < j < n.len() implies n[i].id@ != n[j].id@ && (n[i].box_id@
        == n[j].box_id@ ==> n[i].name@ != n[j].name@) by {
        if i == r {
            assert(ss[i].id@ != ss[j].id@);
        } else if j == r {
            assert(ss[i].id@ != ss[j].id@);
        }
    }
}

pub open spec fn is_secret_not_found<T>(r: Result<T, ZapError>) -> bool {
    r matches Err(ZapError::SecretNotFound(_))
}

impl StorageService {
    /// Stores the new secret `s` and recounts its box. Fails when the box is
    /// missing, the name is taken in that box, or the id is already used.
    pub fn save_secret(&mut self, s: &Secret) -> (r: Result<(), ZapError>)
        requires
            old(self).wf(),
        ensures
            final(self).wf(),
            final(self).sessions@ == old(self).sessions@,
            final(self).logs@ == old(self).logs@,
            !has_box(old(self).boxes@, s.box_id@) ==> is_box_not_found(r),
            has_box(old(self).boxes@, s.box_id@) && name_taken(old(self).secrets@, s.box_id@, s.name@)
                ==> (r matches Err(ZapError::SecretAlreadyExistsInBox(_))),
            has_box(old(self).boxes@, s.box_id@) && !name_taken(old(self).secrets@, s.box_id@, s.name@)
                && has_secret(old(self).secrets@, s.id@) ==> (r matches Err(ZapError::StorageError(_))),
            r is Ok <==> has_box(old(self).boxes@, s.box_id@) && !name_taken(old(self).secrets@, s.box_id@, s.name@)
                && !has_secret(old(self).secrets@, s.id@),
            r is Err ==> final(self).boxes@ == old(self).boxes@ && final(self).secrets@ == old(self).secrets@,
            r is Ok ==> secret_views(final(self).secrets@) == secret_views(old(self).secrets@).push(s@),
            r is Ok ==> final(self).secrets@.len() == old(self).secrets@.len() + 1
                && final(self).secrets@.drop_last() == old(self).secrets@ && final(self).secrets@.last()@ == s@,
            r is Ok ==> count_in(final(self).secrets@, s.box_id@) == count_in(old(self).secrets@, s.box_id@) + 1,
            r is Ok ==> final(self).boxes@.len() == old(self).boxes@.len() && forall|i: int|
                0 <= i < old(self).boxes@.len() ==> (#[trigger] final(self).boxes@[i])@ == recounted(
                    old(self).boxes@[i]@,
                    final(self).secrets@,
                    s.box_id@,
                ),
            forall|id: Seq<char>| id != s.box_id@ ==> #[trigger] count_in(final(self).secrets@, id) == count_in(old(self).secrets@, id),
    {
        if self.find_box(s.box_id.as_str()).is_none() {
            return Err(ZapError::box_not_found(s.box_id.as_str()));
        }
        if self.find_secret_by_name(s.box_id.as_str(), s.name.as_str()).is_some() {
            return Err(ZapError::secret_already_exists_in_box(s.name.as_str()));
        }
        if self.find_secret(s.id.as_str()).is_some() {
            return Err(ZapError::StorageError("Secret id already in use".to_string()));
        }
        let ghost os = self.secrets@;
        let ghost ob = self.boxes@;
        let ns = s.duplicate();
        self.secrets.push(ns);
        let len = self.secrets.len();
        assert(len == self.secrets@.len());
        proof {
            lemma_unique_push(os, self.secrets@.last());
            assert(self.secrets@ == os.push(self.secrets@.last()));
            assert(self.secrets@.drop_last() =~= os);
            assert(secret_views(self.secrets@) =~= secret_views(os).push(s@));
            assert forall|id: Seq<char>| id != s.box_id@ implies #[trigger] count_in(self.secrets@, id) == count_in(os, id) by {
                lemma_count_push(os, self.secrets@.last(), id);
            }
            lemma_count_push(os, self.secrets@.last(), s.box_id@);
            lemma_count_bound(self.secrets@, s.box_id@);
            assert forall|i: int| 0 <= i < ob.len() && ob[i].id@ != s.box_id@ implies (#[trigger] ob[i]).secrets_count == count_in(self.secrets@, ob[i].id@) by {
                assert(count_in(self.secrets@, ob[i].id@) == count_in(os, ob[i].id@));
            }
        }
        self.refresh_count(s.box_id.as_str());
        Ok(())
    }

    /// The secret with id `secret_id`.
    pub fn get_secret(&self, secret_id: &str) -> (r: Result<Secret, ZapError>)
        ensures
            r is Err <==> !has_secret(self.secrets@, secret_id@),
            r is Err ==> is_secret_not_found(r),
            r matches Ok(s) ==> exists|i: int| secret_pos(self.secrets@, secret_id@, i) && s@ == self.secrets@[i]@,
    {
        match self.find_secret(secret_id) {
            Some(i) => Ok(self.secrets[i].duplicate()),
            None => Err(ZapError::secret_not_found(secret_id)),
        }
    }

    /// The secret called `name` in box `box_id`, through the name index.
    pub fn get_secret_by_name_in_box(&self, name: &str, box_id: &str) -> (r: Option<Secret>)
        ensures
            r is None <==> !name_taken(self.secrets@, box_id@, name@),
            r matches Some(s) ==> exists|i: int|
                0 <= i < self.secrets@.len() && s@ == self.secrets@[i]@ && s.box_id@ == box_id@ && s.name@ == name@,
    {
        match self.find_secret_by_name(box_id, name) {
            Some(i) => Some(self.secrets[i].duplicate()),
            None => None,
        }
    }

    /// The secrets of box `box_id`, in store order.
    pub fn get_secrets_by_box_id(&self, box_id: &str) -> (r: Vec<Secret>)
        ensures
            secret_views(r@) == secrets_of(self.secrets@, box_id@),
            r@.len() == count_in(self.secrets@, box_id@),
    {
        let mut out: Vec<Secret> = Vec::new();
        let mut i: usize = 0;
        while i < self.secrets.len()
            invariant
                i <= self.secrets@.len(),
                secret_views(out@) == secrets_of(self.secrets@.subrange(0, i as int), box_id@),
            decreases self.secrets@.len() - i,
        {
            let ghost before = out@;
            proof {
                assert(self.secrets@.subrange(0, i + 1).drop_last() =~= self.secrets@.subrange(0, i as int));
            }
            if str_eq(self.secrets[i].box_id.as_str(), box_id) {
                out.push(self.secrets[i].duplicate());
                assert(secret_views(out@) =~= secret_views(before).push(self.secrets@[i as int]@));
            }
            i += 1;
        }
        assert(self.secrets@.subrange(0, i as int) =~= self.secrets@);
        proof {
            lemma_count_bound(self.secrets@, box_id@);
        }
        out
    }

    /// Every secret.
    pub fn get_all_secrets(&self) -> (r: Vec<Secret>)
        ensures
            secret_views(r@) == secret_views(self.secrets@),
    {
        let mut out: Vec<Secret> = Vec::new();
        let mut i: usize = 0;
        while i < self.secrets.len()
            invariant
                i <= self.secrets@.len(),
                out@.len() == i,
                forall|k: int| 0 <= k < i ==> (#[trigger] out@[k])@ == self.secrets@[k]@,
            decreases self.secrets@.len() - i,
        {
            out.push(self.secrets[i].duplicate());
            i += 1;
        }
        assert(secret_views(out@) =~= secret_views(self.secrets@));
        out
    }

    /// Replaces the stored secret with `s`'s id by `s`. It must stay in the
    /// same box, and its name must not be used by another secret there.
    pub fn update_secret(&mut self, s: &Secret) -> (r: Result<(), ZapError>)
        requires
            old(self).wf(),
        ensures
            final(self).wf(),
            final(self).sessions@ == old(self).sessions@,
            final(self).logs@ == old(self).logs@,
            final(self).boxes@ == old(self).boxes@,
            !has_secret(old(self).secrets@, s.id@) ==> is_secret_not_found(r),
            r is Err ==> final(self).secrets@ == old(self).secrets@,
            forall|i: int| secret_pos(old(self).secrets@, s.id@, i) ==> ({
                let o = old(self).secrets@[i];
                &&& o.box_id@ != s.box_id@ ==> (r matches Err(ZapError::ValidationError(_)))
                &&& o.box_id@ == s.box_id@ && o.name@ != s.name@ && name_taken(old(self).secrets@, s.box_id@, s.name@)
                    ==> (r matches Err(ZapError::SecretAlreadyExistsInBox(_)))
                &&& (r is Ok <==> o.box_id@ == s.box_id@ && (o.name@ == s.name@ || !name_taken(old(self).secrets@, s.box_id@, s.name@)))
                &&& r is Ok ==> secret_views(final(self).secrets@) == secret_views(old(self).secrets@).update(i, s@)
            }),
    {
        let i = match self.find_secret(s.id.as_str()) {
            Some(i) => i,
            None => {
                return Err(ZapError::secret_not_found(s.id.as_str()));
            },
        };
        let ghost os = self.secrets@;
        proof {
            assert forall|k: int| secret_pos(os, s.id@, k) implies k == i by {
                if k < i {
                    assert(os[k].id@ != os[i as int].id@);
                } else if k > i {
                    assert(os[i as int].id@ != os[k].id@);
                }
            }
        }
        if !str_eq(self.secrets[i].box_id.as_str(), s.box_id.as_str()) {
            return Err(ZapError::ValidationError("A secret cannot move to another box".to_string()));
        }
        let same_name = str_eq(self.secrets[i].name.as_str(), s.name.as_str());
        if !same_name {
            if self.find_secret_by_name(s.box_id.as_str(), s.name.as_str()).is_some() {
                return Err(ZapError::secret_already_exists_in_box(s.name.as_str()));
            }
        }
        proof {
            assert forall|k: int| 0 <= k < os.len() && k != i && (#[trigger] os[k]).box_id@ == s.box_id@ implies os[k].name@ != s.name@ by {
                if same_name {
                    if k < i {
                        assert(os[k].name@ != os[i as int].name@);
                    } else {
                        assert(os[i as int].name@ != os[k].name@);
                    }
                } else {
                    assert(!name_taken(os, s.box_id@, s.name@));
                }
            }
        }
        let ns = s.duplicate();
        self.secrets.set(i, ns);
        proof {
            assert(self.secrets@ == os.update(i as int, self.secrets@[i as int]));
            lemma_unique_update(os, i as int, self.secrets@[i as int]);
            assert(secret_views(self.secrets@) =~= secret_views(os).update(i as int, s@));
            assert forall|k: int| 0 <= k < self.boxes@.len() implies (#[trigger] self.boxes@[k]).secrets_count == count_in(self.secrets@, self.boxes@[k].id@) by {
                lemma_count_update(os, i as int, self.secrets@[i as int], self.boxes@[k].id@);
            }
        }
        Ok(())
    }

    /// Removes the secret with id `secret_id` and recounts its box.
    pub fn delete_secret(&mut self, secret_id: &str) -> (r: Result<(), ZapError>)
        requires
            old(self).wf(),
        ensures
            final(self).wf(),
            final(self).sessions@ == old(self).sessions@,
            final(self).logs@ == old(self).logs@,
            r is Err <==> !has_secret(old(self).secrets@, secret_id@),
            r is Err ==> is_secret_not_found(r) && final(self).secrets@ == old(self).secrets@
                && final(self).boxes@ == old(self).boxes@,
            !has_secret(final(self).secrets@, secret_id@),
            forall|i: int| r is Ok && secret_pos(old(self).secrets@, secret_id@, i) ==> ({
                &&& final(self).secrets@ == old(self).secrets@.remove(i)
                &&& final(self).boxes@.len() == old(self).boxes@.len()
                &&& forall|k: int| 0 <= k < old(self).boxes@.len() ==> (#[trigger] final(self).boxes@[k])@
                    == recounted(old(self).boxes@[k]@, final(self).secrets@, old(self).secrets@[i].box_id@)
            }),
    {
        let i = match self.find_secret(secret_id) {
            Some(i) => i,
            None => {
                return Err(ZapError::secret_not_found(secret_id));
            },
        };
        let ghost os = self.secrets@;
        let ghost ob = self.boxes@;
        let gone = self.secrets.remove(i);
        let remaining = self.secrets.len();
        proof {
            assert forall|k: int| secret_pos(os, secret_id@, k) implies k == i by {
                if k < i {
                    assert(os[k].id@ != os[i as int].id@);
                } else if k > i {
                    assert(os[i as int].id@ != os[k].id@);
                }
            }
            lemma_unique_remove(os, i as int);
            assert forall|k: int| 0 <= k < self.secrets@.len() implies self.secrets@[k].id@ != secret_id@ by {
                if k < i {
                    assert(self.secrets@[k] == os[k]);
                } else {
                    assert(self.secrets@[k] == os[k + 1]);
                }
            }
            lemma_count_bound(self.secrets@, gone.box_id@);
            assert(count_in(self.secrets@, gone.box_id@) <= remaining);
            assert forall|k: int| 0 <= k < ob.len() && ob[k].id@ != gone.box_id@ implies (#[trigger] ob[k]).secrets_count == count_in(self.secrets@, ob[k].id@) by {
                lemma_count_remove(os, i as int, ob[k].id@);
            }
        }
        self.refresh_count(gone.box_id.as_str());
        Ok(())
    }
}


/// `s` is a copy, in box `target`, of a listed secret of `before`: same
/// name, same ciphertext.
pub open spec fn copied_from(before: Seq<Secret>, ids: Seq<String>, target: Seq<char>, s: Secret) -> bool {
    &&& s.box_id@ == target
    &&& exists|i: int|
        0 <= i < before.len() && listed(ids, before[i].id@) && (#[trigger] before[i]).name@ == s.name@
            && before[i].encrypted_value@ == s.encrypted_value@
}

/// Outcome of a bulk operation: the items done, and the items that failed.
#[derive(Debug)]
pub struct BulkOutcome {
    pub done: Vec<String>,
    pub failed: Vec<String>,
}

/// Some secret of `os` listed in `ids` is called `name`.
pub open spec fn deleted_from(os: Seq<Secret>, ids: Seq<String>, name: Seq<char>) -> bool {
    exists|j: int| 0 <= j < os.len() && listed(ids, os[j].id@) && (#[trigger] os[j]).name@ == name
}

/// Some box of `ob` listed in `ids` is called `name`.
pub open spec fn box_deleted_from(ob: Seq<Box>, ids: Seq<String>, name: Seq<char>) -> bool {
    exists|j: int| 0 <= j < ob.len() && listed(ids, ob[j].id@) && (#[trigger] ob[j]).name@ == name
}

/// Where `s.remove(i)` takes each of its elements from.
pub proof fn lemma_remove_index<T>(s: Seq<T>, i: int)
    requires
        0 <= i < s.len(),
    ensures
        forall|m: int| 0 <= m < i ==> #[trigger] s.remove(i)[m] == s[m],
        forall|m: int| i <= m < s.len() - 1 ==> #[trigger] s.remove(i)[m] == s[m + 1],
{
}

/// `id` is one of `ids`.
pub open spec fn listed(ids: Seq<String>, id: Seq<char>) -> bool {
    exists|k: int| 0 <= k < ids.len() && (#[trigger] ids[k])@ == id
}

/// Every element of `now` was in `before`.
pub open spec fn all_from<T>(now: Seq<T>, before: Seq<T>) -> bool {
    forall|m: int| 0 <= m < now.len() ==> contains_elem(before, #[trigger] now[m])
}

pub open spec fn contains_elem<T>(s: Seq<T>, x: T) -> bool {
    exists|m: int| 0 <= m < s.len() && #[trigger] s[m] == x
}

/// Some requested tag is one of the box's tags.
pub open spec fn any_tag(box_tags: Seq<Seq<char>>, tags: Seq<Seq<char>>) -> bool {
    exists|i: int| 0 <= i < tags.len() && #[trigger] contains_elem(box_tags, tags[i])
}

/// The search rule for one box: with a blank query, all boxes when no tag is
/// asked for, else a shared tag; otherwise the lowercased query within the
/// lowercased name, or a shared tag.
pub open spec fn search_hit(
    name_lower: Seq<char>,
    box_tags: Seq<Seq<char>>,
    query_blank: bool,
    query_lower: Seq<char>,
    tags: Seq<Seq<char>>,
) -> bool {
    if query_blank {
        tags.len() == 0 || any_tag(box_tags, tags)
    } else {
        contains_seq(name_lower, query_lower) || any_tag(box_tags, tags)
    }
}

/// The boxes of `bs` that a search for `query` and `tags` returns, in order.
pub open spec fn search_result(bs: Seq<Box>, query: Seq<char>, tags: Seq<Seq<char>>) -> Seq<BoxView>
    decreases bs.len(),
{
    if bs.len() == 0 {
        Seq::empty()
    } else if search_hit(
        lower_of(bs.last().name@),
        bs.last()@.tags,
        trimmed(query).len() == 0,
        lower_of(query),
        tags,
    ) {
        search_result(bs.drop_last(), query, tags).push(bs.last()@)
    } else {
        search_result(bs.drop_last(), query, tags)
    }
}

/// The secrets of box `box_id` whose lowercased name holds `query_lower`.
pub open spec fn secret_hits(ss: Seq<Secret>, box_id: Seq<char>, query_lower: Seq<char>) -> Seq<SecretView>
    decreases ss.len(),
{
    if ss.len() == 0 {
        Seq::empty()
    } else if ss.last().box_id@ == box_id && contains_seq(lower_of(ss.last().name@), query_lower) {
        secret_hits(ss.drop_last(), box_id, query_lower).push(ss.last()@)
    } else {
        secret_hits(ss.drop_last(), box_id, query_lower)
    }
}

/// Whether a box with lowercased name `name_lower` and tags `box_tags`
/// answers a search.
pub fn box_matches(
    name_lower: &str,
    box_tags: &Vec<String>,
    query_blank: bool,
    query_lower: &str,
    tags: &Vec<String>,
) -> (r: bool)
    ensures
        r == search_hit(name_lower@, strings_view(box_tags@), query_blank, query_lower@, strings_view(tags@)),
{
    let ghost bt = strings_view(box_tags@);
    let ghost ts = strings_view(tags@);
    let mut shared = false;
    let mut i: usize = 0;
    while i < tags.len()
        invariant
            i <= tags@.len(),
            bt == strings_view(box_tags@),
            ts == strings_view(tags@),
            shared == exists|a: int| 0 <= a < i && #[trigger] contains_elem(bt, ts[a]),
        decreases tags@.len() - i,
    {
        let mut found = false;
        let mut j: usize = 0;
        while j < box_tags.len()
            invariant
                i < tags@.len(),
                j <= box_tags@.len(),
                bt == strings_view(box_tags@),
                ts == strings_view(tags@),
                found == exists|b: int| 0 <= b < j && #[trigger] bt[b] == ts[i as int],
            decreases box_tags@.len() - j,
        {
            if tags[i] == box_tags[j] {
                assert(bt[j as int] == ts[i as int]);
                found = true;
            }
            j += 1;
        }
        proof {
            assert(bt.len() == box_tags@.len());
            if found {
                assert(contains_elem(bt, ts[i as int]));
            } else {
                assert(!contains_elem(bt, ts[i as int]));
            }
        }
        if found {
            shared = true;
        }
        i += 1;
    }
    if query_blank {
        tags.len() == 0 || shared
    } else {
        let hay = chars_of(name_lower);
        let needle = chars_of(query_lower);
        contains_chars(&hay, &needle) || shared
    }
}

/// Whether a secret with lowercased name `name_lower` answers the lowercased
/// query `query_lower`.
pub fn secret_matches(name_lower: &str, query_lower: &str) -> (r: bool)
    ensures
        r == contains_seq(name_lower@, query_lower@),
{
    let hay = chars_of(name_lower);
    let needle = chars_of(query_lower);
    contains_chars(&hay, &needle)
}

impl StorageService {
    /// Deletes each listed box that exists; missing ones are skipped. Returns
    /// the names of the boxes deleted.
    pub fn delete_selected_boxes(&mut self, box_ids: &Vec<String>) -> (r: BulkOutcome)
        requires
            old(self).wf(),
        ensures
            final(self).wf(),
            final(self).sessions@ == old(self).sessions@,
            final(self).logs@ == old(self).logs@,
            final(self).secrets@ == old(self).secrets@,
            forall|k: int| 0 <= k < box_ids@.len() ==> !has_box(final(self).boxes@, (#[trigger] box_ids@[k])@),
            all_from(final(self).boxes@, old(self).boxes@),
            forall|j: int|
                0 <= j < old(self).boxes@.len() && !listed(box_ids@, old(self).boxes@[j].id@) ==> contains_elem(
                    final(self).boxes@,
                    #[trigger] old(self).boxes@[j],
                ),
            r.done@.len() + r.failed@.len() == box_ids@.len(),
            forall|q: int| 0 <= q < r.done@.len() ==> box_deleted_from(old(self).boxes@, box_ids@, (#[trigger] r.done@[q])@),
            forall|q: int| 0 <= q < r.failed@.len() ==> listed(box_ids@, (#[trigger] r.failed@[q])@)
                && !has_box(final(self).boxes@, r.failed@[q]@),
    {
        let ghost ob = self.boxes@;
        let mut names: Vec<String> = Vec::new();
        let mut failed: Vec<String> = Vec::new();
        let mut k: usize = 0;
        assert forall|m: int| 0 <= m < self.boxes@.len() implies contains_elem(ob, #[trigger] self.boxes@[m]) by {
            assert(ob[m] == self.boxes@[m]);
        }
        assert forall|j: int| 0 <= j < ob.len() && !listed(box_ids@, ob[j].id@) implies contains_elem(self.boxes@, #[trigger] ob[j]) by {
            assert(self.boxes@[j] == ob[j]);
        }
        while k < box_ids.len()
            invariant
                self.wf(),
                self.sessions@ == old(self).sessions@,
                self.logs@ == old(self).logs@,
                self.secrets@ == old(self).secrets@,
                ob == old(self).boxes@,
                k <= box_ids@.len(),
                names@.len() + failed@.len() == k,
                forall|q: int| 0 <= q < names@.len() ==> box_deleted_from(ob, box_ids@, (#[trigger] names@[q])@),
                forall|q: int| 0 <= q < failed@.len() ==> listed(box_ids@, (#[trigger] failed@[q])@),
                forall|q: int| 0 <= q < k ==> !has_box(self.boxes@, (#[trigger] box_ids@[q])@),
                all_from(self.boxes@, ob),
                forall|j: int|
                    0 <= j < ob.len() && !listed(box_ids@, ob[j].id@) ==> contains_elem(self.boxes@, #[trigger] ob[j]),
            decreases box_ids@.len() - k,
        {
            let id = box_ids[k].as_str();
            match self.find_box(id) {
                Some(i) => {
                    let name = self.boxes[i].name.clone();
                    let ghost cur = self.boxes@;
                    let res = self.delete_box(id);
                    proof {
                        assert(contains_elem(ob, cur[i as int]));
                        let j = choose|j: int| 0 <= j < ob.len() && ob[j] == cur[i as int];
                        assert(box_ids@[k as int]@ == id@);
                        assert(listed(box_ids@, ob[j].id@));
                        assert(box_deleted_from(ob, box_ids@, name@));
                        assert(box_pos(cur, id@, i as int));
                        assert(self.boxes@ == cur.remove(i as int));
                        lemma_remove_index(cur, i as int);
                        assert forall|m: int| 0 <= m < self.boxes@.len() implies contains_elem(ob, #[trigger] self.boxes@[m]) by {
                            let src = if m < i { m } else { m + 1 };
                            assert(self.boxes@[m] == cur[src]);
                            assert(contains_elem(ob, cur[src]));
                        }
                        assert forall|j: int| 0 <= j < ob.len() && !listed(box_ids@, ob[j].id@) implies contains_elem(self.boxes@, #[trigger] ob[j]) by {
                            assert(contains_elem(cur, ob[j]));
                            let m = choose|m: int| 0 <= m < cur.len() && cur[m] == ob[j];
                            assert(box_ids@[k as int]@ == id@);
                            assert(m != i);
                            let dst = if m < i { m } else { m - 1 };
                            assert(self.boxes@[dst] == cur[m]);
                        }
                        assert forall|q: int| 0 <= q < k + 1 implies !has_box(self.boxes@, (#[trigger] box_ids@[q])@) by {
                            if q < k {
                                assert(!has_box(cur, box_ids@[q]@));
                                if has_box(self.boxes@, box_ids@[q]@) {
                                    let m = choose|m: int| box_pos(self.boxes@, box_ids@[q]@, m);
                                    let src = if m < i { m } else { m + 1 };
                                    assert(box_pos(cur, box_ids@[q]@, src));
                                }
                            }
                        }
                    }
                    if res.is_ok() {
                        names.push(name);
                    }
                },
                None => {
                    proof {
                        assert(box_ids@[k as int]@ == id@);
                    }
                    failed.push(id.to_owned());
                },
            }
            k += 1;
        }
        proof {
            assert forall|q: int| 0 <= q < failed@.len() implies !has_box(self.boxes@, (#[trigger] failed@[q])@) by {
                let k = choose|k: int| 0 <= k < box_ids@.len() && (#[trigger] box_ids@[k])@ == failed@[q]@;
                assert(!has_box(self.boxes@, box_ids@[k]@));
            }
        }
        BulkOutcome { done: names, failed }
    }
}


impl StorageService {
    /// Boxes whose lowercased name holds the lowercased query, or that share
    /// a requested tag; with a blank query, tags alone decide, and no tags
    /// mean every box.
    pub fn search_boxes_global(&self, query: &str, tags: &Vec<String>) -> (r: Vec<Box>)
        ensures
            box_views(r@) == search_result(self.boxes@, query@, strings_view(tags@)),
    {
        let query_lower = to_lower(query);
        let query_blank = trimmed_len(query) == 0;
        let mut out: Vec<Box> = Vec::new();
        let mut i: usize = 0;
        while i < self.boxes.len()
            invariant
                i <= self.boxes@.len(),
                query_lower@ == lower_of(query@),
                query_blank == (trimmed(query@).len() == 0),
                box_views(out@) == search_result(self.boxes@.subrange(0, i as int), query@, strings_view(tags@)),
            decreases self.boxes@.len() - i,
        {
            let ghost before = out@;
            proof {
                assert(self.boxes@.subrange(0, i + 1).drop_last() =~= self.boxes@.subrange(0, i as int));
            }
            let name_lower = to_lower(self.boxes[i].name.as_str());
            if box_matches(name_lower.as_str(), &self.boxes[i].tags, query_blank, query_lower.as_str(), tags) {
                out.push(self.boxes[i].duplicate());
                assert(box_views(out@) =~= box_views(before).push(self.boxes@[i as int]@));
            }
            i += 1;
        }
        assert(self.boxes@.subrange(0, i as int) =~= self.boxes@);
        out
    }

    /// Secrets of box `box_id` whose lowercased name holds the lowercased
    /// query; a blank query gives all of the box's secrets.
    pub fn search_secrets_in_box(&self, box_id: &str, query: &str) -> (r: Vec<Secret>)
        ensures
            trimmed(query@).len() == 0 ==> secret_views(r@) == secrets_of(self.secrets@, box_id@),
            trimmed(query@).len() > 0 ==> secret_views(r@) == secret_hits(self.secrets@, box_id@, lower_of(query@)),
    {
        if trimmed_len(query) == 0 {
            return self.get_secrets_by_box_id(box_id);
        }
        let query_lower = to_lower(query);
        let mut out: Vec<Secret> = Vec::new();
        let mut i: usize = 0;
        while i < self.secrets.len()
            invariant
                i <= self.secrets@.len(),
                query_lower@ == lower_of(query@),
                secret_views(out@) == secret_hits(self.secrets@.subrange(0, i as int), box_id@, lower_of(query@)),
            decreases self.secrets@.len() - i,
        {
            let ghost before = out@;
            proof {
                assert(self.secrets@.subrange(0, i + 1).drop_last() =~= self.secrets@.subrange(0, i as int));
            }
            if str_eq(self.secrets[i].box_id.as_str(), box_id) {
                let name_lower = to_lower(self.secrets[i].name.as_str());
                if secret_matches(name_lower.as_str(), query_lower.as_str()) {
                    out.push(self.secrets[i].duplicate());
                    assert(secret_views(out@) =~= secret_views(before).push(self.secrets@[i as int]@));
                }
            }
            i += 1;
        }
        assert(self.secrets@.subrange(0, i as int) =~= self.secrets@);
        out
    }

    /// Deletes each listed secret that exists, recounting boxes; missing ones
    /// are skipped. Returns the names of the secrets deleted.
    pub fn delete_selected_secrets(&mut self, secret_ids: &Vec<String>) -> (r: BulkOutcome)
        requires
            old(self).wf(),
        ensures
            final(self).wf(),
            final(self).sessions@ == old(self).sessions@,
            final(self).logs@ == old(self).logs@,
            forall|k: int| 0 <= k < secret_ids@.len() ==> !has_secret(final(self).secrets@, (#[trigger] secret_ids@[k])@),
            all_from(final(self).secrets@, old(self).secrets@),
            forall|j: int|
                0 <= j < old(self).secrets@.len() && !listed(secret_ids@, old(self).secrets@[j].id@) ==> contains_elem(
                    final(self).secrets@,
                    #[trigger] old(self).secrets@[j],
                ),
            r.done@.len() + r.failed@.len() == secret_ids@.len(),
            forall|q: int| 0 <= q < r.done@.len() ==> deleted_from(old(self).secrets@, secret_ids@, (#[trigger] r.done@[q])@),
            forall|q: int| 0 <= q < r.failed@.len() ==> listed(secret_ids@, (#[trigger] r.failed@[q])@)
                && !has_secret(final(self).secrets@, r.failed@[q]@),
    {
        let ghost os = self.secrets@;
        let mut names: Vec<String> = Vec::new();
        let mut failed: Vec<String> = Vec::new();
        let mut k: usize = 0;
        assert forall|m: int| 0 <= m < self.secrets@.len() implies contains_elem(os, #[trigger] self.secrets@[m]) by {
            assert(os[m] == self.secrets@[m]);
        }
        assert forall|j: int| 0 <= j < os.len() && !listed(secret_ids@, os[j].id@) implies contains_elem(self.secrets@, #[trigger] os[j]) by {
            assert(self.secrets@[j] == os[j]);
        }
        while k < secret_ids.len()
            invariant
                self.wf(),
                self.sessions@ == old(self).sessions@,
                self.logs@ == old(self).logs@,
                os == old(self).secrets@,
                k <= secret_ids@.len(),
                names@.len() + failed@.len() == k,
                forall|q: int| 0 <= q < names@.len() ==> deleted_from(os, secret_ids@, (#[trigger] names@[q])@),
                forall|q: int| 0 <= q < failed@.len() ==> listed(secret_ids@, (#[trigger] failed@[q])@),
                forall|q: int| 0 <= q < k ==> !has_secret(self.secrets@, (#[trigger] secret_ids@[q])@),
                all_from(self.secrets@, os),
                forall|j: int|
                    0 <= j < os.len() && !listed(secret_ids@, os[j].id@) ==> contains_elem(self.secrets@, #[trigger] os[j]),
            decreases secret_ids@.len() - k,
        {
            let id = secret_ids[k].as_str();
            match self.find_secret(id) {
                Some(i) => {
                    let name = self.secrets[i].name.clone();
                    let ghost cur = self.secrets@;
                    let res = self.delete_secret(id);
                    proof {
                        assert(contains_elem(os, cur[i as int]));
                        let j = choose|j: int| 0 <= j < os.len() && os[j] == cur[i as int];
                        assert(secret_ids@[k as int]@ == id@);
                        assert(listed(secret_ids@, os[j].id@));
                        assert(deleted_from(os, secret_ids@, name@));
                        assert(secret_pos(cur, id@, i as int));
                        assert(self.secrets@ == cur.remove(i as int));
                        lemma_remove_index(cur, i as int);
                        assert forall|m: int| 0 <= m < self.secrets@.len() implies contains_elem(os, #[trigger] self.secrets@[m]) by {
                            let src = if m < i { m } else { m + 1 };
                            assert(self.secrets@[m] == cur[src]);
                            assert(contains_elem(os, cur[src]));
                        }
                        assert forall|j: int| 0 <= j < os.len() && !listed(secret_ids@, os[j].id@) implies contains_elem(self.secrets@, #[trigger] os[j]) by {
                            assert(contains_elem(cur, os[j]));
                            let m = choose|m: int| 0 <= m < cur.len() && cur[m] == os[j];
                            assert(secret_ids@[k as int]@ == id@);
                            assert(m != i);
                            let dst = if m < i { m } else { m - 1 };
                            assert(self.secrets@[dst] == cur[m]);
                        }
                        assert forall|q: int| 0 <= q < k + 1 implies !has_secret(self.secrets@, (#[trigger] secret_ids@[q])@) by {
                            if q < k {
                                assert(!has_secret(cur, secret_ids@[q]@));
                                if has_secret(self.secrets@, secret_ids@[q]@) {
                                    let m = choose|m: int| secret_pos(self.secrets@, secret_ids@[q]@, m);
                                    let src = if m < i { m } else { m + 1 };
                                    assert(secret_pos(cur, secret_ids@[q]@, src));
                                }
                            }
                        }
                    }
                    if res.is_ok() {
                        names.push(name);
                    }
                },
                None => {
                    proof {
                        assert(secret_ids@[k as int]@ == id@);
                    }
                    failed.push(id.to_owned());
                },
            }
            k += 1;
        }
        proof {
            assert forall|q: int| 0 <= q < failed@.len() implies !has_secret(self.secrets@, (#[trigger] failed@[q])@) by {
                let k = choose|k: int| 0 <= k < secret_ids@.len() && (#[trigger] secret_ids@[k])@ == failed@[q]@;
                assert(!has_secret(self.secrets@, secret_ids@[k]@));
            }
        }
        BulkOutcome { done: names, failed }
    }

    /// Copies the listed secrets into box `target_box_id` under new ids.
    /// Fails, before copying anything, when the box is missing or when its
    /// count plus the number listed exceeds the capacity. Ids that name no
    /// stored secret, names already used in the box and invalid names are
    /// skipped. Returns the names copied, in order.
    pub fn copy_secrets_to_box(&mut self, secret_ids: &Vec<String>, target_box_id: &str) -> (r: Result<
        Vec<String>,
        ZapError,
    >)
        requires
            old(self).wf(),
        ensures
            final(self).wf(),
            final(self).sessions@ == old(self).sessions@,
            final(self).logs@ == old(self).logs@,
            !has_box(old(self).boxes@, target_box_id@) ==> is_box_not_found(r),
            has_box(old(self).boxes@, target_box_id@) && count_in(old(self).secrets@, target_box_id@)
                + secret_ids@.len() > MAX_SECRETS_PER_BOX ==> (r matches Err(ZapError::BoxCapacityExceeded)),
            r is Ok <==> has_box(old(self).boxes@, target_box_id@) && count_in(old(self).secrets@, target_box_id@)
                + secret_ids@.len() <= MAX_SECRETS_PER_BOX,
            r is Err ==> final(self).boxes@ == old(self).boxes@ && final(self).secrets@ == old(self).secrets@,
            r matches Ok(names) ==> names@.len() <= secret_ids@.len() && count_in(final(self).secrets@, target_box_id@)
                == count_in(old(self).secrets@, target_box_id@) + names@.len(),
            r matches Ok(names) ==> final(self).secrets@.len() == old(self).secrets@.len() + names@.len(),
            r is Ok ==> final(self).secrets@.subrange(0, old(self).secrets@.len() as int) == old(self).secrets@,
            r matches Ok(names) ==> forall|m: int|
                old(self).secrets@.len() <= m < final(self).secrets@.len() ==> copied_from(
                    old(self).secrets@,
                    secret_ids@,
                    target_box_id@,
                    #[trigger] final(self).secrets@[m],
                ) && final(self).secrets@[m].name@ == names@[m - old(self).secrets@.len()]@,
            r is Ok ==> forall|k: int, i: int|
                0 <= k < secret_ids@.len() && #[trigger] secret_pos(old(self).secrets@, secret_ids@[k]@, i)
                    && secret_name_ok(old(self).secrets@[i].name@) ==> name_taken(
                    final(self).secrets@,
                    target_box_id@,
                    old(self).secrets@[i].name@,
                ),
            r is Ok ==> forall|id: Seq<char>| id != target_box_id@ ==> #[trigger] count_in(final(self).secrets@, id) == count_in(old(self).secrets@, id),
            r is Ok ==> final(self).boxes@.len() == old(self).boxes@.len() && forall|i: int|
                0 <= i < old(self).boxes@.len() ==> (#[trigger] final(self).boxes@[i])@ == recounted(
                    old(self).boxes@[i]@,
                    final(self).secrets@,
                    target_box_id@,
                ),
    {
        let tpos = match self.find_box(target_box_id) {
            Some(t) => t,
            None => {
                return Err(ZapError::box_not_found(target_box_id));
            },
        };
        let current = self.count_secrets_in_box(target_box_id);
        if secret_ids.len() > MAX_SECRETS_PER_BOX || current > MAX_SECRETS_PER_BOX - secret_ids.len() {
            return Err(ZapError::BoxCapacityExceeded);
        }
        let ghost os = self.secrets@;
        let ghost ob = self.boxes@;
        let old_len = self.secrets.len();
        let mut names: Vec<String> = Vec::new();
        let mut k: usize = 0;
        proof {
            assert(self.secrets@.subrange(0, os.len() as int) =~= os);
            assert forall|i: int| 0 <= i < ob.len() implies (#[trigger] self.boxes@[i])@ == recounted(ob[i]@, self.secrets@, target_box_id@) by {
                if ob[i].id@ == target_box_id@ {
                }
            }
        }
        while k < secret_ids.len()
            invariant
                self.wf(),
                self.sessions@ == old(self).sessions@,
                self.logs@ == old(self).logs@,
                os == old(self).secrets@,
                ob == old(self).boxes@,
                old_len == os.len(),
                box_pos(self.boxes@, target_box_id@, tpos as int),
                k <= secret_ids@.len(),
                names@.len() <= k,
                current == count_in(os, target_box_id@),
                current + secret_ids@.len() <= MAX_SECRETS_PER_BOX,
                count_in(self.secrets@, target_box_id@) == current + names@.len(),
                self.secrets@.len() == os.len() + names@.len(),
                self.secrets@.subrange(0, os.len() as int) == os,
                forall|m: int|
                    os.len() <= m < self.secrets@.len() ==> copied_from(os, secret_ids@, target_box_id@, #[trigger] self.secrets@[m])
                        && self.secrets@[m].name@ == names@[m - os.len()]@,
                forall|q: int, i: int|
                    0 <= q < k && #[trigger] secret_pos(os, secret_ids@[q]@, i) && secret_name_ok(os[i].name@)
                        ==> name_taken(self.secrets@, target_box_id@, os[i].name@),
                forall|id: Seq<char>| id != target_box_id@ ==> #[trigger] count_in(self.secrets@, id) == count_in(os, id),
                self.boxes@.len() == ob.len(),
                forall|i: int| 0 <= i < ob.len() ==> (#[trigger] self.boxes@[i])@ == recounted(ob[i]@, self.secrets@, target_box_id@),
            decreases secret_ids@.len() - k,
        {
            let id = secret_ids[k].as_str();
            let ghost cur = self.secrets@;
            match self.find_secret_before(id, old_len) {
                None => {
                    proof {
                        assert forall|i: int| !secret_pos(os, id@, i) by {
                            if secret_pos(os, id@, i) {
                                assert(cur.subrange(0, os.len() as int)[i] == cur[i]);
                                assert(cur[i] == os[i]);
                                assert(secret_pos(cur, id@, i));
                            }
                        }
                    }
                },
                Some(i) => {
                    proof {
                        assert(cur.subrange(0, os.len() as int)[i as int] == cur[i as int]);
                        assert(self.secrets@[i as int] == os[i as int]);
                        assert forall|j: int| secret_pos(os, id@, j) implies j == i by {
                            if j < i {
                                assert(os[j].id@ != os[i as int].id@);
                            } else if j > i {
                                assert(os[i as int].id@ != os[j].id@);
                            }
                        }
                    }
                    let name = self.secrets[i].name.clone();
                    if self.find_secret_by_name(target_box_id, name.as_str()).is_none() {
                        let value = self.secrets[i].encrypted_value.duplicate();
                        match Secret::new(target_box_id.to_owned(), name.clone(), value) {
                            Err(_) => {},
                            Ok(copy) => {
                                let mut copy = copy;
                                let fresh = self.fresh_secret_id(copy.id.clone());
                                copy.id = fresh;
                                let ghost cb = self.boxes@;
                                assert(has_box(self.boxes@, target_box_id@)) by {
                                    assert(box_pos(self.boxes@, target_box_id@, tpos as int));
                                }
                                if self.save_secret(&copy).is_ok() {
                                    proof {
                                        assert(self.secrets@.drop_last() == cur);
                                        assert(self.secrets@.last()@ == copy@);
                                        assert(self.secrets@.subrange(0, os.len() as int) =~= cur.subrange(0, os.len() as int));
                                        let nl = cur.len() as int;
                                        assert(self.secrets@[nl] == self.secrets@.last());
                                        assert(listed(secret_ids@, os[i as int].id@)) by {
                                            assert(secret_ids@[k as int]@ == os[i as int].id@);
                                        }
                                        assert(copied_from(os, secret_ids@, target_box_id@, self.secrets@[nl]));
                                        assert forall|m: int| os.len() <= m < self.secrets@.len() implies copied_from(os, secret_ids@, target_box_id@, #[trigger] self.secrets@[m])
                                            && self.secrets@[m].name@ == names@.push(name)[m - os.len()]@ by {
                                            if m < nl {
                                                assert(self.secrets@[m] == cur[m]);
                                            }
                                        }
                                        assert(name_taken(self.secrets@, target_box_id@, name@)) by {
                                            assert(self.secrets@[nl].box_id@ == target_box_id@);
                                        }
                                        assert forall|q: int, j: int|
                                            0 <= q < k && #[trigger] secret_pos(os, secret_ids@[q]@, j) && secret_name_ok(os[j].name@)
                                                implies name_taken(self.secrets@, target_box_id@, os[j].name@) by {
                                            assert(name_taken(cur, target_box_id@, os[j].name@));
                                            let m = choose|m: int| 0 <= m < cur.len() && (#[trigger] cur[m]).box_id@ == target_box_id@ && cur[m].name@ == os[j].name@;
                                            assert(self.secrets@[m] == cur[m]);
                                        }
                                        assert forall|x: int| 0 <= x < ob.len() implies (#[trigger] self.boxes@[x])@ == recounted(ob[x]@, self.secrets@, target_box_id@) by {
                                            assert(self.boxes@[x]@ == recounted(cb[x]@, self.secrets@, target_box_id@));
                                        }
                                        assert(box_pos(self.boxes@, target_box_id@, tpos as int)) by {
                                            assert(self.boxes@[tpos as int]@ == recounted(cb[tpos as int]@, self.secrets@, target_box_id@));
                                        }
                                    }
                                    names.push(name);
                                }
                            },
                        }
                    }
                },
            }
            proof {
                assert forall|q: int, j: int|
                    0 <= q < k + 1 && #[trigger] secret_pos(os, secret_ids@[q]@, j) && secret_name_ok(os[j].name@)
                        implies name_taken(self.secrets@, target_box_id@, os[j].name@) by {
                    if q == k {
                        assert(secret_ids@[q]@ == id@);
                    }
                }
            }
            k += 1;
        }
        Ok(names)
    }
}


/// Some session in `ss` is called `name`.
pub open spec fn has_session(ss: Seq<DevSession>, name: Seq<char>) -> bool {
    exists|i: int| 0 <= i < ss.len() && (#[trigger] ss[i]).session_name@ == name
}

/// Totals over the vault.
#[derive(Debug)]
pub struct VaultStats {
    pub total_boxes: usize,
    pub dev_boxes: usize,
    pub secure_boxes: usize,
    pub total_secrets: usize,
    pub sensitive_secrets: usize,
    pub last_updated: i64,
}

/// Number of boxes in `bs` with dev mode on.
pub open spec fn dev_count(bs: Seq<Box>) -> nat
    decreases bs.len(),
{
    if bs.len() == 0 {
        0
    } else {
        dev_count(bs.drop_last()) + if bs.last().dev_mode {
            1nat
        } else {
            0nat
        }
    }
}

impl StorageService {
    /// Session names are unique.
    pub open spec fn sessions_ok(&self) -> bool {
        forall|i: int, j: int|
            0 <= i < j < self.sessions@.len() ==> self.sessions@[i].session_name@ != self.sessions@[j].session_name@
    }

    fn find_session(&self, name: &str) -> (r: Option<usize>)
        ensures
            r matches Some(i) ==> i < self.sessions@.len() && self.sessions@[i as int].session_name@ == name@,
            r is None ==> !has_session(self.sessions@, name@),
    {
        let mut i: usize = 0;
        while i < self.sessions.len()
            invariant
                i <= self.sessions@.len(),
                forall|k: int| 0 <= k < i ==> (#[trigger] self.sessions@[k]).session_name@ != name@,
            decreases self.sessions@.len() - i,
        {
            if str_eq(self.sessions[i].session_name.as_str(), name) {
                return Some(i);
            }
            i += 1;
        }
        None
    }

    /// Stores `session` under `session_name`, replacing a record of that name.
    pub fn save_dev_session_by_name(&mut self, session_name: &str, session: &DevSession) -> (r: Result<(), ZapError>)
        requires
            old(self).sessions_ok(),
        ensures
            final(self).sessions_ok(),
            r is Ok <==> session.session_name@ == session_name@,
            r is Err ==> final(self).sessions@ == old(self).sessions@,
            r is Ok ==> has_session(final(self).sessions@, session_name@),
            r is Ok ==> exists|k: int| 0 <= k < final(self).sessions@.len() && (#[trigger] final(self).sessions@[k]).session_name@
                == session_name@ && final(self).sessions@[k].box_id == session.box_id,
            r is Ok ==> forall|n: Seq<char>| n != session_name@ ==> (#[trigger] has_session(final(self).sessions@, n) <==> has_session(old(self).sessions@, n)),
            final(self).boxes@ == old(self).boxes@ && final(self).secrets@ == old(self).secrets@,
    {
        if !str_eq(session.session_name.as_str(), session_name) {
            return Err(ZapError::ValidationError("Session record name does not match its key".to_string()));
        }
        let ghost os = self.sessions@;
        let copy = session.duplicate();
        match self.find_session(session_name) {
            Some(i) => {
                self.sessions.set(i, copy);
                proof {
                    assert(self.sessions@[i as int].session_name@ == session_name@);
                    assert(self.sessions@[i as int].box_id == session.box_id);
                    assert forall|n: Seq<char>| n != session_name@ implies (#[trigger] has_session(self.sessions@, n) <==> has_session(os, n)) by {
                        if has_session(os, n) {
                            let k = choose|k: int| 0 <= k < os.len() && (#[trigger] os[k]).session_name@ == n;
                            assert(self.sessions@[k] == os[k]);
                        }
                        if has_session(self.sessions@, n) {
                            let k = choose|k: int| 0 <= k < self.sessions@.len() && (#[trigger] self.sessions@[k]).session_name@ == n;
                            assert(self.sessions@[k] == os[k]);
                        }
                    }
                    assert forall|a: int, b: int| 0 <= a < b < self.sessions@.len() implies self.sessions@[a].session_name@ != self.sessions@[b].session_name@ by {
                        if a == i {
                            assert(os[a].session_name@ != os[b].session_name@);
                        } else if b == i {
                            assert(os[a].session_name@ != os[b].session_name@);
                        } else {
                            assert(self.sessions@[a] == os[a] && self.sessions@[b] == os[b]);
                        }
                    }
                }
            },
            None => {
                self.sessions.push(copy);
                proof {
                    let n0 = os.len() as int;
                    assert(self.sessions@[n0].session_name@ == session_name@);
                    assert(self.sessions@[n0].box_id == session.box_id);
                    assert forall|n: Seq<char>| n != session_name@ implies (#[trigger] has_session(self.sessions@, n) <==> has_session(os, n)) by {
                        if has_session(os, n) {
                            let k = choose|k: int| 0 <= k < os.len() && (#[trigger] os[k]).session_name@ == n;
                            assert(self.sessions@[k] == os[k]);
                        }
                        if has_session(self.sessions@, n) {
                            let k = choose|k: int| 0 <= k < self.sessions@.len() && (#[trigger] self.sessions@[k]).session_name@ == n;
                            assert(k < n0);
                            assert(self.sessions@[k] == os[k]);
                        }
                    }
                    assert forall|a: int, b: int| 0 <= a < b < self.sessions@.len() implies self.sessions@[a].session_name@ != self.sessions@[b].session_name@ by {
                        if b == n0 {
                            assert(self.sessions@[a] == os[a]);
                        } else {
                            assert(self.sessions@[a] == os[a] && self.sessions@[b] == os[b]);
                        }
                    }
                }
            },
        }
        Ok(())
    }

    /// The session record called `session_name`.
    pub fn get_dev_session_by_name(&self, session_name: &str) -> (r: Option<DevSession>)
        ensures
            r is Some <==> has_session(self.sessions@, session_name@),
            r matches Some(s) ==> s.session_name@ == session_name@,
    {
        match self.find_session(session_name) {
            Some(i) => Some(self.sessions[i].duplicate()),
            None => None,
        }
    }

    /// Every session record.
    pub fn get_all_dev_sessions(&self) -> (r: Vec<DevSession>)
        ensures
            r@.len() == self.sessions@.len(),
            forall|i: int| 0 <= i < r@.len() ==> (#[trigger] r@[i]).session_name == self.sessions@[i].session_name
                && r@[i].box_name == self.sessions@[i].box_name && r@[i].encrypted_secrets@.len()
                == self.sessions@[i].encrypted_secrets@.len(),
    {
        let mut out: Vec<DevSession> = Vec::new();
        let mut i: usize = 0;
        while i < self.sessions.len()
            invariant
                i <= self.sessions@.len(),
                out@.len() == i,
                forall|k: int| 0 <= k < i ==> (#[trigger] out@[k]).session_name == self.sessions@[k].session_name
                    && out@[k].box_name == self.sessions@[k].box_name && out@[k].encrypted_secrets@.len()
                    == self.sessions@[k].encrypted_secrets@.len(),
            decreases self.sessions@.len() - i,
        {
            out.push(self.sessions[i].duplicate());
            i += 1;
        }
        out
    }

    /// Removes the record called `session_name`, if any.
    pub fn delete_dev_session_by_name(&mut self, session_name: &str)
        requires
            old(self).sessions_ok(),
        ensures
            final(self).sessions_ok(),
            !has_session(final(self).sessions@, session_name@),
            forall|n: Seq<char>| n != session_name@ ==> (#[trigger] has_session(final(self).sessions@, n) <==> has_session(old(self).sessions@, n)),
            final(self).boxes@ == old(self).boxes@ && final(self).secrets@ == old(self).secrets@,
    {
        match self.find_session(session_name) {
            Some(i) => {
                let ghost os = self.sessions@;
                self.sessions.remove(i);
                proof {
                    lemma_remove_index(os, i as int);
                    assert forall|k: int| 0 <= k < self.sessions@.len() implies (#[trigger] self.sessions@[k]).session_name@ != session_name@ by {
                        if k < i {
                            assert(os[k].session_name@ != os[i as int].session_name@);
                        } else {
                            assert(os[i as int].session_name@ != os[k + 1].session_name@);
                        }
                    }
                    assert forall|n: Seq<char>| n != session_name@ implies (#[trigger] has_session(self.sessions@, n) <==> has_session(os, n)) by {
                        if has_session(os, n) {
                            let k = choose|k: int| 0 <= k < os.len() && (#[trigger] os[k]).session_name@ == n;
                            assert(k != i);
                            let d = if k < i { k } else { k - 1 };
                            assert(self.sessions@[d] == os[k]);
                        }
                        if has_session(self.sessions@, n) {
                            let k = choose|k: int| 0 <= k < self.sessions@.len() && (#[trigger] self.sessions@[k]).session_name@ == n;
                            let src = if k < i { k } else { k + 1 };
                            assert(self.sessions@[k] == os[src]);
                        }
                    }
                    assert forall|a: int, b: int| 0 <= a < b < self.sessions@.len() implies self.sessions@[a].session_name@ != self.sessions@[b].session_name@ by {
                        let sa = if a < i { a } else { a + 1 };
                        let sb = if b < i { b } else { b + 1 };
                        assert(self.sessions@[a] == os[sa] && self.sessions@[b] == os[sb]);
                    }
                }
            },
            None => {},
        }
    }

    /// Removes every session record.
    pub fn clear_all_dev_sessions(&mut self)
        ensures
            final(self).sessions@.len() == 0,
            final(self).sessions_ok(),
            final(self).boxes@ == old(self).boxes@ && final(self).secrets@ == old(self).secrets@,
    {
        self.sessions = Vec::new();
    }

    pub fn session_exists(&self, session_name: &str) -> (r: bool)
        ensures
            r == has_session(self.sessions@, session_name@),
    {
        self.find_session(session_name).is_some()
    }

    /// Appends an audit record.
    pub fn log(&mut self, action: String, message: String, content: Option<String>)
        ensures
            final(self).logs@.len() == old(self).logs@.len() + 1,
            final(self).logs@.last().action@ == action@,
            final(self).logs@.last().message@ == message@,
            final(self).boxes@ == old(self).boxes@ && final(self).secrets@ == old(self).secrets@
                && final(self).sessions@ == old(self).sessions@,
            final(self).settings == old(self).settings && final(self).auth_config == old(self).auth_config,
    {
        self.logs.push(LogEntry::new(action, message, content));
    }

    /// Every audit record, newest first (records are appended in time order).
    pub fn get_all_logs(&self) -> (r: Vec<LogEntry>)
        ensures
            r@.len() == self.logs@.len(),
            forall|i: int| 0 <= i < r@.len() ==> ({
                let e = self.logs@[self.logs@.len() - 1 - i];
                &&& (#[trigger] r@[i]).action == e.action
                &&& r@[i].message == e.message
                &&& r@[i].id == e.id
                &&& r@[i].timestamp == e.timestamp
                &&& r@[i].content == e.content
            }),
    {
        let n = self.logs.len();
        let mut out: Vec<LogEntry> = Vec::new();
        let mut i: usize = 0;
        while i < n
            invariant
                n == self.logs@.len(),
                i <= n,
                out@.len() == i,
                forall|k: int| 0 <= k < i ==> ({
                    let e = self.logs@[n - 1 - k];
                    &&& (#[trigger] out@[k]).action == e.action
                    &&& out@[k].message == e.message
                    &&& out@[k].id == e.id
                    &&& out@[k].timestamp == e.timestamp
                    &&& out@[k].content == e.content
                }),
            decreases n - i,
        {
            let e = &self.logs[n - 1 - i];
            out.push(LogEntry {
                id: e.id.clone(),
                action: e.action.clone(),
                message: e.message.clone(),
                content: copy_opt_string(&e.content),
                timestamp: e.timestamp,
            });
            i += 1;
        }
        out
    }

    /// Removes every audit record; returns how many there were.
    pub fn clear_all_logs(&mut self) -> (r: usize)
        ensures
            r == old(self).logs@.len(),
            final(self).logs@.len() == 0,
            final(self).boxes@ == old(self).boxes@ && final(self).secrets@ == old(self).secrets@
                && final(self).sessions@ == old(self).sessions@,
            final(self).settings == old(self).settings && final(self).auth_config == old(self).auth_config,
    {
        let n = self.count_log_entries();
        self.logs = Vec::new();
        n
    }

    pub fn count_log_entries(&self) -> (r: usize)
        ensures
            r == self.logs@.len(),
    {
        self.logs.len()
    }

    /// The stored settings, storing the defaults first when there are none.
    pub fn load_settings(&mut self) -> (r: Settings)
        ensures
            old(self).settings matches Some(s) ==> r == s && final(self).settings == old(self).settings,
            old(self).settings is None ==> r.password_timeout_minutes == 5 && final(self).settings == Some(r),
            final(self).boxes@ == old(self).boxes@ && final(self).secrets@ == old(self).secrets@
                && final(self).sessions@ == old(self).sessions@ && final(self).logs@ == old(self).logs@,
            final(self).auth_config == old(self).auth_config,
    {
        match &self.settings {
            Some(s) => s.duplicate(),
            None => {
                let d = Settings::default();
                self.settings = Some(d.duplicate());
                d
            },
        }
    }

    pub fn save_settings(&mut self, settings: &Settings)
        ensures
            final(self).settings == Some(*settings),
            final(self).boxes@ == old(self).boxes@ && final(self).secrets@ == old(self).secrets@
                && final(self).sessions@ == old(self).sessions@ && final(self).logs@ == old(self).logs@,
            final(self).auth_config == old(self).auth_config,
    {
        self.settings = Some(settings.duplicate());
    }

    pub fn load_auth_config(&self) -> (r: Option<AuthConfig>)
        ensures
            r == self.auth_config,
    {
        match &self.auth_config {
            Some(c) => Some(c.duplicate()),
            None => None,
        }
    }

    pub fn save_auth_config(&mut self, config: &AuthConfig)
        ensures
            final(self).auth_config == Some(*config),
            final(self).boxes@ == old(self).boxes@ && final(self).secrets@ == old(self).secrets@
                && final(self).sessions@ == old(self).sessions@ && final(self).logs@ == old(self).logs@,
            final(self).settings == old(self).settings,
    {
        self.auth_config = Some(config.duplicate());
    }

    /// Totals: boxes, boxes in dev mode, secrets, and the latest secret
    /// update (the current time when there are no secrets).
    pub fn get_vault_stats(&self) -> (r: VaultStats)
        ensures
            r.total_boxes == self.boxes@.len(),
            r.dev_boxes == dev_count(self.boxes@),
            r.total_secrets == self.secrets@.len(),
            r.secure_boxes == 0 && r.sensitive_secrets == 0,
            forall|i: int| 0 <= i < self.secrets@.len() ==> (#[trigger] self.secrets@[i]).updated_at <= r.last_updated,
            self.secrets@.len() > 0 ==> exists|i: int| 0 <= i < self.secrets@.len() && self.secrets@[i].updated_at == r.last_updated,
    {
        let mut dev: usize = 0;
        let mut i: usize = 0;
        while i < self.boxes.len()
            invariant
                i <= self.boxes@.len(),
                dev <= i,
                dev == dev_count(self.boxes@.subrange(0, i as int)),
            decreases self.boxes@.len() - i,
        {
            proof {
                assert(self.boxes@.subrange(0, i + 1).drop_last() =~= self.boxes@.subrange(0, i as int));
            }
            if self.boxes[i].dev_mode {
                dev += 1;
            }
            i += 1;
        }
        assert(self.boxes@.subrange(0, i as int) =~= self.boxes@);
        let mut last: i64 = if self.secrets.len() > 0 { self.secrets[0].updated_at } else { now_seconds() };
        let mut j: usize = 0;
        while j < self.secrets.len()
            invariant
                j <= self.secrets@.len(),
                forall|k: int| 0 <= k < j ==> (#[trigger] self.secrets@[k]).updated_at <= last,
                self.secrets@.len() > 0 ==> exists|k: int| 0 <= k < self.secrets@.len() && self.secrets@[k].updated_at == last,
            decreases self.secrets@.len() - j,
        {
            if self.secrets[j].updated_at > last {
                last = self.secrets[j].updated_at;
            }
            j += 1;
        }
        VaultStats {
            total_boxes: self.boxes.len(),
            dev_boxes: dev,
            secure_boxes: 0,
            total_secrets: self.secrets.len(),
            sensitive_secrets: 0,
            last_updated: last,
        }
    }
}


/// A string equal to none of `ids`: its `k`-th character differs from the
/// `k`-th character of `ids[k]`, or its length differs from that id's.
pub fn unused_id(ids: &Vec<String>) -> (r: String)
    ensures
        forall|k: int| 0 <= k < ids@.len() ==> r@ != (#[trigger] ids@[k])@,
{
    let n = ids.len();
    let mut out: Vec<char> = Vec::new();
    let mut k: usize = 0;
    while k < n
        invariant
            n == ids@.len(),
            k <= n,
            out@.len() == k,
            forall|q: int| 0 <= q < k ==> (q < ids@[q]@.len() ==> out@[q] != ids@[q]@[q]) && (q >= ids@[q]@.len() ==> out@[q] == 'a'),
        decreases n - k,
    {
        let id = ids[k].as_str();
        let c = if k < id.unicode_len() && id.get_char(k) == 'a' { 'b' } else { 'a' };
        out.push(c);
        k += 1;
    }
    proof {
        assert forall|q: int| 0 <= q < n implies out@ != (#[trigger] ids@[q])@ by {
            if q < ids@[q]@.len() {
                assert(out@[q] != ids@[q]@[q]);
            } else {
                assert(out@.len() != ids@[q]@.len());
            }
        }
    }
    string_of(&out)
}

impl StorageService {
    /// `candidate` when no box uses it as id, else an id that no box uses.
    pub fn fresh_box_id(&self, candidate: String) -> (r: String)
        ensures
            !has_box(self.boxes@, r@),
            !has_box(self.boxes@, candidate@) ==> r == candidate,
    {
        if self.find_box(candidate.as_str()).is_none() {
            return candidate;
        }
        let mut ids: Vec<String> = Vec::new();
        let mut i: usize = 0;
        while i < self.boxes.len()
            invariant
                i <= self.boxes@.len(),
                ids@.len() == i,
                forall|k: int| 0 <= k < i ==> (#[trigger] ids@[k])@ == self.boxes@[k].id@,
            decreases self.boxes@.len() - i,
        {
            ids.push(self.boxes[i].id.clone());
            i += 1;
        }
        let r = unused_id(&ids);
        assert forall|k: int| !box_pos(self.boxes@, r@, k) by {
            if 0 <= k < self.boxes@.len() {
                assert(r@ != ids@[k]@);
            }
        }
        r
    }

    /// `candidate` when no secret uses it as id, else an id that no secret uses.
    pub fn fresh_secret_id(&self, candidate: String) -> (r: String)
        ensures
            !has_secret(self.secrets@, r@),
            !has_secret(self.secrets@, candidate@) ==> r == candidate,
    {
        if self.find_secret(candidate.as_str()).is_none() {
            return candidate;
        }
        let mut ids: Vec<String> = Vec::new();
        let mut i: usize = 0;
        while i < self.secrets.len()
            invariant
                i <= self.secrets@.len(),
                ids@.len() == i,
                forall|k: int| 0 <= k < i ==> (#[trigger] ids@[k])@ == self.secrets@[k].id@,
            decreases self.secrets@.len() - i,
        {
            ids.push(self.secrets[i].id.clone());
            i += 1;
        }
        let r = unused_id(&ids);
        assert forall|k: int| !secret_pos(self.secrets@, r@, k) by {
            if 0 <= k < self.secrets@.len() {
                assert(r@ != ids@[k]@);
            }
        }
        r
    }
}

} // verus!
