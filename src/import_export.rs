use crate::auth::copy_opt_string;
use crate::crypto::{encrypts, is_crypto_error, opened, opened_view, CryptoService, AEAD_MAX_PLAINTEXT};
use crate::error::ZapError;
use crate::secret::{secret_name_ok, Secret};
use crate::text::trimmed;
use vstd::utf8::encode_utf8;
use crate::store::{name_taken, box_pos, box_views, count_in, has_box, has_box_named, recounted, secret_views, secrets_of, StorageService};
use crate::envfile::{env_secret_name, concat_chars, env_escaped, env_name_of, env_var_to_secret_name, escape_env_value, parse_env, parse_env_content, pair_views};
use crate::stamp::export_stamp;
use crate::secret::SecretView;
use crate::text::chars_of;
use crate::vault_box::MAX_SECRETS_PER_BOX;
use crate::text::{copy_strings, decimal, decimal_chars, string_of, trimmed_len};
use crate::vault_box::{box_name_ok, opt_description_ok, opt_view, strings_view, tags_ok, Box};
use crate::log::join3;
use vstd::prelude::*;

verus! {

/// A whole vault in plain text, for deliberate export.
#[derive(Debug)]
pub struct VaultExport {
    pub version: String,
    pub total_boxes: usize,
    pub total_secrets: usize,
    pub boxes: Vec<BoxExport>,
}

/// One box of an export, with its secrets decrypted.
#[derive(Debug)]
pub struct BoxExport {
    pub name: String,
    pub description: Option<String>,
    pub tags: Vec<String>,
    pub dev_mode: bool,
    pub secrets: Vec<SecretExport>,
}

/// One decrypted secret of an export.
#[derive(Debug)]
pub struct SecretExport {
    pub name: String,
    pub value: String,
}

/// Outcome of an import: what came in and what failed.
#[derive(Debug)]
pub struct ImportResult {
    pub boxes_imported: usize,
    pub secrets_imported: usize,
    pub errors: Vec<String>,
}

impl ImportResult {
    pub fn new() -> (r: Self)
        ensures
            r.boxes_imported == 0,
            r.secrets_imported == 0,
            r.errors@.len() == 0,
    {
        ImportResult { boxes_imported: 0, secrets_imported: 0, errors: Vec::new() }
    }

    pub fn has_errors(&self) -> (r: bool)
        ensures
            r == (self.errors@.len() > 0),
    {
        self.errors.len() > 0
    }

    pub fn add_error(&mut self, error: String)
        ensures
            final(self).errors@ == old(self).errors@.push(error),
            final(self).boxes_imported == old(self).boxes_imported,
            final(self).secrets_imported == old(self).secrets_imported,
    {
        self.errors.push(error);
    }

    /// "Imported N boxes with M secrets".
    pub fn success_summary(&self) -> (r: String)
        ensures
            r@ == "Imported "@ + decimal(self.boxes_imported as nat) + " boxes with "@ + decimal(
                self.secrets_imported as nat,
            ) + " secrets"@,
    {
        let b = string_of(&decimal_chars(self.boxes_imported));
        let s = string_of(&decimal_chars(self.secrets_imported));
        let head = join3("Imported ", b.as_str(), " boxes with ");
        join3(head.as_str(), s.as_str(), " secrets")
    }
}

} // verus!

verus! {

/// Sum of the secrets listed over `bs`.
pub open spec fn exported_secrets(bs: Seq<BoxExport>) -> nat
    decreases bs.len(),
{
    if bs.len() == 0 {
        0
    } else {
        exported_secrets(bs.drop_last()) + bs.last().secrets@.len()
    }
}

/// `e` is box `b` with the secrets of `ss` that reference it, decrypted
/// under `master`, in store order.
pub open spec fn exported_box(b: Box, ss: Seq<Secret>, master: Seq<u8>, e: BoxExport) -> bool {
    let views = secrets_of(ss, b.id@);
    &&& e.name@ == b.name@
    &&& opt_view(e.description) == opt_view(b.description)
    &&& strings_view(e.tags@) == b@.tags
    &&& e.dev_mode == b.dev_mode
    &&& e.secrets@.len() == views.len()
    &&& forall|j: int|
        0 <= j < views.len() ==> (#[trigger] e.secrets@[j]).name@ == views[j].name && opened_view(
            views[j].value,
            master,
        ) == Some(e.secrets@[j].value@)
}

/// Every ciphertext of `views` decrypts under `master`.
pub open spec fn all_open(views: Seq<SecretView>, master: Seq<u8>) -> bool {
    forall|j: int| 0 <= j < views.len() ==> (#[trigger] opened_view(views[j].value, master)) is Some
}

/// Number of secrets that the boxes of `bs` hold in `ss`, summed.
pub open spec fn box_secret_total(bs: Seq<Box>, ss: Seq<Secret>) -> nat
    decreases bs.len(),
{
    if bs.len() == 0 {
        0
    } else {
        box_secret_total(bs.drop_last(), ss) + count_in(ss, bs.last().id@)
    }
}

pub proof fn lemma_total_prefix(bs: Seq<Box>, ss: Seq<Secret>, i: int)
    requires
        0 <= i <= bs.len(),
    ensures
        box_secret_total(bs.subrange(0, i), ss) <= box_secret_total(bs, ss),
    decreases bs.len(),
{
    if i == bs.len() {
        assert(bs.subrange(0, i) =~= bs);
    } else {
        lemma_total_prefix(bs.drop_last(), ss, i);
        assert(bs.drop_last().subrange(0, i) =~= bs.subrange(0, i));
    }
}

/// A box of an export that `Box::new` accepts.
pub open spec fn export_box_valid(b: BoxExport) -> bool {
    box_name_ok(b.name@) && opt_description_ok(opt_view(b.description)) && tags_ok(strings_view(b.tags@))
}

/// `s` holds, encrypted under `master`, a secret listed in `boxes`.
pub open spec fn imported_from(boxes: Seq<BoxExport>, master: Seq<u8>, s: Secret) -> bool {
    exists|i: int, j: int|
        0 <= i < boxes.len() && 0 <= j < boxes[i].secrets@.len() && (#[trigger] boxes[i].secrets@[j]).name@ == s.name@
            && encrypts(boxes[i].secrets@[j].value@, master, s.encrypted_value)
}

/// An imported secret that `create_secret_from_import` accepts on a box
/// where its name is free.
pub open spec fn export_secret_ok(sd: SecretExport) -> bool {
    secret_name_ok(sd.name@) && trimmed(sd.value@).len() > 0 && encode_utf8(sd.value@).len() <= AEAD_MAX_PLAINTEXT
}

/// Some secret of `ss` is called `name`.
pub open spec fn name_stored(ss: Seq<Secret>, name: Seq<char>) -> bool {
    exists|m: int| 0 <= m < ss.len() && (#[trigger] ss[m]).name@ == name
}

/// A box before position `i` of an import is called `n`.
pub open spec fn earlier_name(boxes: Seq<BoxExport>, i: int, n: Seq<char>) -> bool {
    exists|q: int| 0 <= q < i && (#[trigger] boxes[q]).name@ == n
}

/// Box `i` of an import is created by it: valid, its name free in the
/// store and not used by an earlier box of the import.
pub open spec fn box_fresh(boxes: Seq<BoxExport>, before: Seq<Box>, i: int) -> bool {
    &&& export_box_valid(boxes[i])
    &&& !has_box_named(before, boxes[i].name@)
    &&& forall|q: int| 0 <= q < i ==> (#[trigger] boxes[q]).name@ != boxes[i].name@
}

pub proof fn lemma_names_push_back(a: Seq<Box>, b: Seq<Box>)
    requires
        box_views(b).len() == box_views(a).len() + 1,
        box_views(b).drop_last() == box_views(a),
    ensures
        forall|n: Seq<char>| #[trigger] has_box_named(b, n) ==> has_box_named(a, n) || b.last().name@ == n,
{
    assert forall|n: Seq<char>| #[trigger] has_box_named(b, n) implies has_box_named(a, n) || b.last().name@ == n by {
        let k = choose|k: int| 0 <= k < b.len() && (#[trigger] b[k]).name@ == n;
        if k < a.len() {
            assert(box_views(b).drop_last()[k] == box_views(a)[k]);
            assert(b[k]@ == a[k]@);
        }
    }
}

pub proof fn lemma_names_recounted_back(a: Seq<Box>, b: Seq<Box>, ss: Seq<Secret>, id: Seq<char>)
    requires
        b.len() == a.len(),
        forall|x: int| 0 <= x < a.len() ==> (#[trigger] b[x])@ == recounted(a[x]@, ss, id),
    ensures
        forall|n: Seq<char>| #[trigger] has_box_named(b, n) ==> has_box_named(a, n),
{
    assert forall|n: Seq<char>| #[trigger] has_box_named(b, n) implies has_box_named(a, n) by {
        let k = choose|k: int| 0 <= k < b.len() && (#[trigger] b[k]).name@ == n;
        assert(b[k]@ == recounted(a[k]@, ss, id));
    }
}

pub proof fn lemma_names_push(a: Seq<Box>, b: Seq<Box>)
    requires
        box_views(b).len() == box_views(a).len() + 1,
        box_views(b).drop_last() == box_views(a),
    ensures
        forall|n: Seq<char>| #[trigger] has_box_named(a, n) ==> has_box_named(b, n),
{
    assert forall|n: Seq<char>| #[trigger] has_box_named(a, n) implies has_box_named(b, n) by {
        let k = choose|k: int| 0 <= k < a.len() && (#[trigger] a[k]).name@ == n;
        assert(box_views(b).drop_last()[k] == box_views(a)[k]);
        assert(b[k]@ == a[k]@);
    }
}

pub proof fn lemma_names_recounted(a: Seq<Box>, b: Seq<Box>, ss: Seq<Secret>, id: Seq<char>)
    requires
        b.len() == a.len(),
        forall|x: int| 0 <= x < a.len() ==> (#[trigger] b[x])@ == recounted(a[x]@, ss, id),
    ensures
        forall|n: Seq<char>| #[trigger] has_box_named(a, n) ==> has_box_named(b, n),
{
    assert forall|n: Seq<char>| #[trigger] has_box_named(a, n) implies has_box_named(b, n) by {
        let k = choose|k: int| 0 <= k < a.len() && (#[trigger] a[k]).name@ == n;
        assert(b[k]@ == recounted(a[k]@, ss, id));
    }
}

/// Export and import of whole vaults and of single boxes as `.env` text.
pub struct ImportExportService {
    pub crypto: CryptoService,
}

impl ImportExportService {
    pub fn new() -> (r: Self) {
        ImportExportService { crypto: CryptoService::new() }
    }

    /// Every box with its secrets decrypted under `master_key`. Any secret
    /// that does not decrypt fails the export.
    pub fn export_vault(&self, storage: &StorageService, master_key: &[u8; 32]) -> (r: Result<VaultExport, ZapError>)
        ensures
            r matches Ok(e) ==> e.version@ == "1.0"@ && e.total_boxes == storage.boxes@.len()
                && e.boxes@.len() == storage.boxes@.len() && e.total_secrets == exported_secrets(e.boxes@),
            r matches Ok(e) ==> forall|i: int| 0 <= i < storage.boxes@.len() ==> exported_box(
                storage.boxes@[i],
                storage.secrets@,
                master_key@,
                #[trigger] e.boxes@[i],
            ),
            r matches Err(e) ==> is_crypto_error(e) || e is StorageError,
            (forall|i: int| 0 <= i < storage.boxes@.len() ==> all_open(
                secrets_of(storage.secrets@, (#[trigger] storage.boxes@[i]).id@),
                master_key@,
            )) && box_secret_total(storage.boxes@, storage.secrets@) <= usize::MAX ==> r is Ok,
    {
        let mut out: Vec<BoxExport> = Vec::new();
        let mut total: usize = 0;
        let mut i: usize = 0;
        while i < storage.boxes.len()
            invariant
                i <= storage.boxes@.len(),
                out@.len() == i,
                total == exported_secrets(out@),
                total == box_secret_total(storage.boxes@.subrange(0, i as int), storage.secrets@),
                forall|k: int| 0 <= k < i ==> exported_box(storage.boxes@[k], storage.secrets@, master_key@, #[trigger] out@[k]),
            decreases storage.boxes@.len() - i,
        {
            let b = &storage.boxes[i];
            let secrets = storage.get_secrets_by_box_id(b.id.as_str());
            let ghost views = secrets_of(storage.secrets@, b.id@);
            let mut items: Vec<SecretExport> = Vec::new();
            let mut j: usize = 0;
            while j < secrets.len()
                invariant
                    j <= secrets@.len(),
                    i < storage.boxes@.len(),
                    views == secrets_of(storage.secrets@, storage.boxes@[i as int].id@),
                    secret_views(secrets@) == views,
                    items@.len() == j,
                    forall|q: int|
                        0 <= q < j ==> (#[trigger] items@[q]).name@ == views[q].name && opened_view(views[q].value, master_key@)
                            == Some(items@[q].value@),
                decreases secrets@.len() - j,
            {
                proof {
                    assert(views[j as int] == secrets@[j as int]@);
                    assert(opened(secrets@[j as int].encrypted_value, master_key@) == opened_view(views[j as int].value, master_key@));
                }
                let value = self.crypto.decrypt(&secrets[j].encrypted_value, master_key)?;
                items.push(SecretExport { name: secrets[j].name.clone(), value });
                j += 1;
            }
            let n = items.len();
            proof {
                assert(storage.boxes@.subrange(0, i + 1).drop_last() =~= storage.boxes@.subrange(0, i as int));
                lemma_total_prefix(storage.boxes@, storage.secrets@, i + 1);
                crate::store::lemma_count_bound(storage.secrets@, b.id@);
            }
            if n > usize::MAX - total {
                return Err(ZapError::StorageError("Export too large".to_string()));
            }
            let ghost before = out@;
            out.push(BoxExport {
                name: b.name.clone(),
                description: copy_opt_string(&b.description),
                tags: copy_strings(&b.tags),
                dev_mode: b.dev_mode,
                secrets: items,
            });
            total = total + n;
            proof {
                assert(out@.drop_last() =~= before);
                assert forall|k: int| 0 <= k < i + 1 implies exported_box(storage.boxes@[k], storage.secrets@, master_key@, #[trigger] out@[k]) by {
                    if k < i {
                        assert(out@[k] == before[k]);
                    }
                }
            }
            i += 1;
        }
        Ok(VaultExport { version: "1.0".to_string(), total_boxes: out.len(), total_secrets: total, boxes: out })
    }

    /// Adds each box of `data` whose name is not taken yet, with its secrets
    /// encrypted under `master_key`. Boxes that fail are reported in the
    /// result; secrets that fail are skipped.
    pub fn import_vault(&self, storage: &mut StorageService, data: VaultExport, master_key: &[u8; 32]) -> (r: Result<
        ImportResult,
        ZapError,
    >)
        requires
            old(storage).wf(),
        ensures
            final(storage).wf(),
            final(storage).sessions@ == old(storage).sessions@,
            final(storage).logs@ == old(storage).logs@,
            data.boxes@.len() == 0 ==> (r matches Err(ZapError::StorageError(_))),
            r is Err ==> final(storage).boxes@ == old(storage).boxes@ && final(storage).secrets@ == old(storage).secrets@,
            data.boxes@.len() > 0 ==> r is Ok,
            r matches Ok(res) ==> res.boxes_imported <= data.boxes@.len() && final(storage).boxes@.len()
                == old(storage).boxes@.len() + res.boxes_imported && final(storage).secrets@.len()
                == old(storage).secrets@.len() + res.secrets_imported,
            r is Ok ==> forall|i: int|
                0 <= i < data.boxes@.len() && export_box_valid(#[trigger] data.boxes@[i]) ==> has_box_named(
                    final(storage).boxes@,
                    data.boxes@[i].name@,
                ),
            r is Ok ==> forall|n: Seq<char>| #[trigger] has_box_named(old(storage).boxes@, n) ==> has_box_named(final(storage).boxes@, n),
            r is Ok ==> forall|i: int, j: int|
                0 <= i < data.boxes@.len() && box_fresh(data.boxes@, old(storage).boxes@, i) && 0 <= j
                    < data.boxes@[i].secrets@.len() && export_secret_ok(#[trigger] data.boxes@[i].secrets@[j]) ==> name_stored(
                    final(storage).secrets@,
                    data.boxes@[i].secrets@[j].name@,
                ),
            r is Ok ==> final(storage).secrets@.subrange(0, old(storage).secrets@.len() as int) == old(storage).secrets@,
            r is Ok ==> forall|m: int|
                old(storage).secrets@.len() <= m < final(storage).secrets@.len() ==> imported_from(
                    data.boxes@,
                    master_key@,
                    #[trigger] final(storage).secrets@[m],
                ),
    {
        if data.boxes.len() == 0 {
            return Err(ZapError::StorageError("No boxes found in import file".to_string()));
        }
        let ghost ob = storage.boxes@;
        let ghost os = storage.secrets@;
        let mut result = ImportResult::new();
        let mut i: usize = 0;
        assert(storage.secrets@.subrange(0, os.len() as int) =~= os);
        while i < data.boxes.len()
            invariant
                storage.wf(),
                storage.sessions@ == old(storage).sessions@,
                storage.logs@ == old(storage).logs@,
                ob == old(storage).boxes@,
                os == old(storage).secrets@,
                i <= data.boxes@.len(),
                result.boxes_imported <= i,
                storage.boxes@.len() == ob.len() + result.boxes_imported,
                storage.secrets@.len() == os.len() + result.secrets_imported,
                forall|q: int| 0 <= q < i && export_box_valid(#[trigger] data.boxes@[q]) ==> has_box_named(storage.boxes@, data.boxes@[q].name@),
                forall|n: Seq<char>| #[trigger] has_box_named(ob, n) ==> has_box_named(storage.boxes@, n),
                storage.secrets@.subrange(0, os.len() as int) == os,
                forall|m: int| os.len() <= m < storage.secrets@.len() ==> imported_from(data.boxes@, master_key@, #[trigger] storage.secrets@[m]),
                forall|n: Seq<char>| #[trigger] has_box_named(storage.boxes@, n) ==> has_box_named(ob, n) || earlier_name(data.boxes@, i as int, n),
                forall|q: int, j: int|
                    0 <= q < i && box_fresh(data.boxes@, ob, q) && 0 <= j < data.boxes@[q].secrets@.len() && export_secret_ok(
                        #[trigger] data.boxes@[q].secrets@[j],
                    ) ==> name_stored(storage.secrets@, data.boxes@[q].secrets@[j].name@),
            decreases data.boxes@.len() - i,
        {
            let bd = &data.boxes[i];
            let ghost bstart = storage.boxes@;
            if storage.get_box_id_by_name(bd.name.as_str()).is_none() {
                match Box::new(bd.name.clone(), copy_opt_string(&bd.description), copy_strings(&bd.tags), bd.dev_mode) {
                    Err(_) => {
                        result.add_error(join3("Failed to import box '", bd.name.as_str(), "': invalid box"));
                    },
                    Ok(new_box) => {
                        let mut new_box = new_box;
                        let fresh = storage.fresh_box_id(new_box.id.clone());
                        new_box.id = fresh;
                        proof {
                            assert forall|j: int| 0 <= j < bstart.len() && (#[trigger] bstart[j]).name@ == new_box.name@ implies bstart[j].id@ != new_box.id@ by {
                                assert(has_box_named(bstart, new_box.name@));
                            }
                        }
                        let saved = storage.save_box(&new_box);
                        if saved.is_ok() {
                            let ghost after_box = storage.boxes@;
                            proof {
                                let n0 = bstart.len() as int;
                                assert(box_views(storage.boxes@).len() == storage.boxes@.len());
                                assert(box_views(storage.boxes@)[n0] == storage.boxes@[n0]@);
                                assert(storage.boxes@[n0].name@ == bd.name@);
                                assert(has_box_named(storage.boxes@, bd.name@));
                                assert(box_views(storage.boxes@).drop_last() =~= box_views(bstart));
                                lemma_names_push(bstart, storage.boxes@);
                                lemma_names_push_back(bstart, storage.boxes@);
                                assert(storage.boxes@.last() == storage.boxes@[n0]);
                                assert forall|n: Seq<char>| #[trigger] has_box_named(storage.boxes@, n) implies has_box_named(ob, n) || earlier_name(data.boxes@, i + 1, n) by {
                                    if has_box_named(bstart, n) {
                                        if !has_box_named(ob, n) {
                                            let q = choose|q: int| 0 <= q < i && (#[trigger] data.boxes@[q]).name@ == n;
                                            assert(0 <= q < i + 1);
                                        }
                                    } else {
                                        assert(data.boxes@[i as int].name@ == n);
                                    }
                                }
                                assert(box_pos(storage.boxes@, new_box.id@, n0));
                            }
                            let mut added: usize = 0;
                            let mut j: usize = 0;
                            while j < bd.secrets.len()
                                invariant
                                    storage.wf(),
                                    storage.sessions@ == old(storage).sessions@,
                                    storage.logs@ == old(storage).logs@,
                                    ob == old(storage).boxes@,
                                    os == old(storage).secrets@,
                                    i < data.boxes@.len(),
                                    *bd == data.boxes@[i as int],
                                    j <= bd.secrets@.len(),
                                    added <= j,
                                    storage.boxes@.len() == ob.len() + result.boxes_imported + 1,
                                    storage.secrets@.len() == os.len() + result.secrets_imported + added,
                                    result.boxes_imported < i + 1,
                                    result.secrets_imported + added <= storage.secrets@.len(),
                                    has_box(storage.boxes@, new_box.id@),
                                    forall|n: Seq<char>| #[trigger] has_box_named(after_box, n) ==> has_box_named(storage.boxes@, n),
                                    storage.secrets@.subrange(0, os.len() as int) == os,
                                    forall|m: int| os.len() <= m < storage.secrets@.len() ==> imported_from(data.boxes@, master_key@, #[trigger] storage.secrets@[m]),
                                    forall|n: Seq<char>| #[trigger] has_box_named(storage.boxes@, n) ==> has_box_named(ob, n) || earlier_name(data.boxes@, i + 1, n),
                                    forall|q: int, jj: int|
                                        0 <= q < i && box_fresh(data.boxes@, ob, q) && 0 <= jj < data.boxes@[q].secrets@.len() && export_secret_ok(
                                            #[trigger] data.boxes@[q].secrets@[jj],
                                        ) ==> name_stored(storage.secrets@, data.boxes@[q].secrets@[jj].name@),
                                    forall|jj: int| 0 <= jj < j && export_secret_ok(#[trigger] bd.secrets@[jj]) ==> name_stored(storage.secrets@, bd.secrets@[jj].name@),
                                decreases bd.secrets@.len() - j,
                            {
                                let sd = &bd.secrets[j];
                                let ghost cur = storage.secrets@;
                                let ghost cb = storage.boxes@;
                                let made = self.create_secret_from_import(storage, sd, new_box.id.as_str(), master_key);
                                proof {
                                    if made.is_ok() {
                                        let nl = cur.len() as int;
                                        assert forall|n: Seq<char>| name_stored(cur, n) implies name_stored(storage.secrets@, n) by {
                                            let m = choose|m: int| 0 <= m < cur.len() && (#[trigger] cur[m]).name@ == n;
                                            assert(storage.secrets@[m] == storage.secrets@.drop_last()[m]);
                                        }
                                        assert(storage.secrets@[nl] == storage.secrets@.last());
                                        assert(name_stored(storage.secrets@, sd.name@));
                                    } else if export_secret_ok(*sd) {
                                        let m = choose|m: int| 0 <= m < cur.len() && (#[trigger] cur[m]).box_id@ == new_box.id@ && cur[m].name@ == sd.name@;
                                        assert(name_stored(storage.secrets@, sd.name@));
                                    }
                                    assert forall|jj: int| 0 <= jj < j + 1 && export_secret_ok(#[trigger] bd.secrets@[jj]) implies name_stored(storage.secrets@, bd.secrets@[jj].name@) by {
                                        if jj < j {
                                            assert(name_stored(cur, bd.secrets@[jj].name@));
                                        }
                                    }
                                    assert forall|q: int, jj: int|
                                        0 <= q < i && box_fresh(data.boxes@, ob, q) && 0 <= jj < data.boxes@[q].secrets@.len() && export_secret_ok(
                                            #[trigger] data.boxes@[q].secrets@[jj],
                                        ) implies name_stored(storage.secrets@, data.boxes@[q].secrets@[jj].name@) by {
                                        assert(name_stored(cur, data.boxes@[q].secrets@[jj].name@));
                                    }
                                }
                                if made.is_ok() {
                                    proof {
                                        let nl = cur.len() as int;
                                        assert(storage.secrets@[nl] == storage.secrets@.last());
                                        assert(imported_from(data.boxes@, master_key@, storage.secrets@[nl])) by {
                                            assert(data.boxes@[i as int].secrets@[j as int] == *sd);
                                        }
                                        assert forall|m: int| os.len() <= m < storage.secrets@.len() implies imported_from(data.boxes@, master_key@, #[trigger] storage.secrets@[m]) by {
                                            if m < nl {
                                                assert(storage.secrets@[m] == storage.secrets@.drop_last()[m]);
                                            }
                                        }
                                        assert(storage.secrets@.subrange(0, os.len() as int) =~= cur.subrange(0, os.len() as int)) by {
                                            assert(storage.secrets@.drop_last() == cur);
                                        }
                                    }
                                    added = added + 1;
                                }
                                proof {
                                    lemma_names_recounted(cb, storage.boxes@, storage.secrets@, new_box.id@);
                                    lemma_names_recounted_back(cb, storage.boxes@, storage.secrets@, new_box.id@);
                                    let k = choose|k: int| box_pos(cb, new_box.id@, k);
                                    assert(box_pos(storage.boxes@, new_box.id@, k)) by {
                                        assert(storage.boxes@[k]@ == recounted(cb[k]@, storage.secrets@, new_box.id@));
                                    }
                                }
                                j += 1;
                            }
                            let stored_now = storage.secrets.len();
                            assert(result.secrets_imported + added <= stored_now);
                            result.boxes_imported = result.boxes_imported + 1;
                            result.secrets_imported = result.secrets_imported + added;
                        } else {
                            result.add_error(join3("Failed to import box '", bd.name.as_str(), "': name in use"));
                        }
                    },
                }
            }
            proof {
                assert forall|n: Seq<char>| #[trigger] has_box_named(storage.boxes@, n) implies has_box_named(ob, n) || earlier_name(data.boxes@, i + 1, n) by {
                    if has_box_named(ob, n) {
                    } else if storage.boxes@ == bstart {
                        let q = choose|q: int| 0 <= q < i && (#[trigger] data.boxes@[q]).name@ == n;
                        assert(0 <= q < i + 1);
                    }
                }
                assert forall|q: int, jj: int|
                    0 <= q < i + 1 && box_fresh(data.boxes@, ob, q) && 0 <= jj < data.boxes@[q].secrets@.len() && export_secret_ok(
                        #[trigger] data.boxes@[q].secrets@[jj],
                    ) implies name_stored(storage.secrets@, data.boxes@[q].secrets@[jj].name@) by {
                    if q == i {
                        assert(data.boxes@[q] == *bd);
                        assert(!has_box_named(bstart, bd.name@)) by {
                            if has_box_named(bstart, bd.name@) {
                                if !has_box_named(ob, bd.name@) {
                                    let q2 = choose|q2: int| 0 <= q2 < i && (#[trigger] data.boxes@[q2]).name@ == bd.name@;
                                }
                            }
                        }
                    }
                }
                assert forall|q: int| 0 <= q < i + 1 && export_box_valid(#[trigger] data.boxes@[q]) implies has_box_named(storage.boxes@, data.boxes@[q].name@) by {
                    if q < i {
                        assert(has_box_named(bstart, data.boxes@[q].name@));
                    } else {
                        assert(data.boxes@[q] == *bd);
                    }
                }
            }
            i += 1;
        }
        Ok(result)
    }

    /// Validates, encrypts and stores one imported secret in box `box_id`.
    fn create_secret_from_import(
        &self,
        storage: &mut StorageService,
        secret_data: &SecretExport,
        box_id: &str,
        master_key: &[u8; 32],
    ) -> (r: Result<(), ZapError>)
        requires
            old(storage).wf(),
            has_box(old(storage).boxes@, box_id@),
        ensures
            final(storage).wf(),
            final(storage).sessions@ == old(storage).sessions@,
            final(storage).logs@ == old(storage).logs@,
            final(storage).boxes@.len() == old(storage).boxes@.len(),
            forall|x: int| 0 <= x < old(storage).boxes@.len() ==> (#[trigger] final(storage).boxes@[x])@ == recounted(
                old(storage).boxes@[x]@,
                final(storage).secrets@,
                box_id@,
            ),
            r is Ok ==> final(storage).secrets@.len() == old(storage).secrets@.len() + 1
                && final(storage).secrets@.drop_last() == old(storage).secrets@ && final(storage).secrets@.last().name@
                == secret_data.name@ && encrypts(secret_data.value@, master_key@, final(storage).secrets@.last().encrypted_value),
            r is Err ==> final(storage).secrets@ == old(storage).secrets@,
            export_secret_ok(*secret_data) ==> r is Ok || name_taken(old(storage).secrets@, box_id@, secret_data.name@),
    {
        let ghost ob = storage.boxes@;
        proof {
            assert forall|x: int| 0 <= x < ob.len() implies (#[trigger] storage.boxes@[x])@ == recounted(ob[x]@, storage.secrets@, box_id@) by {
                if ob[x].id@ == box_id@ {
                }
            }
        }
        Secret::validate_name(secret_data.name.as_str())?;
        if trimmed_len(secret_data.value.as_str()) == 0 {
            return Err(ZapError::ValidationError("Secret value cannot be empty".to_string()));
        }
        let encrypted = self.crypto.encrypt(secret_data.value.as_str(), master_key)?;
        let mut secret = Secret::new(box_id.to_owned(), secret_data.name.clone(), encrypted)?;
        let fresh = storage.fresh_secret_id(secret.id.clone());
        secret.id = fresh;
        storage.save_secret(&secret)
    }
}


/// A `.env` pair that imports once its name is free: the readable name is
/// valid and the value within the cipher's bound.
pub open spec fn env_pair_ok(p: (Seq<char>, Seq<char>)) -> bool {
    secret_name_ok(env_secret_name(p.0)) && encode_utf8(p.1).len() <= AEAD_MAX_PLAINTEXT
}

/// `s` is, in box `target`, a pair of `pairs` under its readable name, its
/// value encrypted under `master`.
pub open spec fn env_imported(pairs: Seq<(Seq<char>, Seq<char>)>, target: Seq<char>, master: Seq<u8>, s: Secret) -> bool {
    &&& s.box_id@ == target
    &&& exists|k: int|
        0 <= k < pairs.len() && s.name@ == env_secret_name((#[trigger] pairs[k]).0) && encrypts(pairs[k].1, master, s.encrypted_value)
}

impl ImportExportService {
    /// Imports the pairs of a `.env` text into box `target_box_id`, each
    /// under its readable name. Refused as a whole when the box is missing,
    /// the text holds no pair, or the box would pass its capacity; a pair
    /// whose name is taken or invalid is reported and skipped.
    pub fn import_env_to_box(
        &self,
        storage: &mut StorageService,
        env_content: &str,
        target_box_id: &str,
        master_key: &[u8; 32],
    ) -> (r: Result<ImportResult, ZapError>)
        requires
            old(storage).wf(),
        ensures
            final(storage).wf(),
            final(storage).sessions@ == old(storage).sessions@,
            !has_box(old(storage).boxes@, target_box_id@) ==> (r matches Err(ZapError::BoxNotFound(_))),
            has_box(old(storage).boxes@, target_box_id@) && parse_env(env_content@).len() == 0 ==> (r matches Err(
                ZapError::StorageError(_),
            )),
            has_box(old(storage).boxes@, target_box_id@) && parse_env(env_content@).len() > 0 && count_in(
                old(storage).secrets@,
                target_box_id@,
            ) + parse_env(env_content@).len() > MAX_SECRETS_PER_BOX ==> (r matches Err(ZapError::BoxCapacityExceeded)),
            r is Ok <==> has_box(old(storage).boxes@, target_box_id@) && parse_env(env_content@).len() > 0 && count_in(
                old(storage).secrets@,
                target_box_id@,
            ) + parse_env(env_content@).len() <= MAX_SECRETS_PER_BOX,
            r is Err ==> final(storage).boxes@ == old(storage).boxes@ && final(storage).secrets@ == old(storage).secrets@,
            r matches Ok(res) ==> res.secrets_imported + res.errors@.len() == parse_env(env_content@).len()
                && count_in(final(storage).secrets@, target_box_id@) == count_in(old(storage).secrets@, target_box_id@)
                + res.secrets_imported && count_in(final(storage).secrets@, target_box_id@) <= MAX_SECRETS_PER_BOX,
            final(storage).logs@ == old(storage).logs@,
            r is Ok ==> final(storage).secrets@.subrange(0, old(storage).secrets@.len() as int) == old(storage).secrets@,
            r is Ok ==> forall|m: int|
                old(storage).secrets@.len() <= m < final(storage).secrets@.len() ==> env_imported(
                    parse_env(env_content@),
                    target_box_id@,
                    master_key@,
                    #[trigger] final(storage).secrets@[m],
                ),
            r is Ok ==> forall|k: int|
                0 <= k < parse_env(env_content@).len() && env_pair_ok(#[trigger] parse_env(env_content@)[k]) ==> name_taken(
                    final(storage).secrets@,
                    target_box_id@,
                    env_secret_name(parse_env(env_content@)[k].0),
                ),
    {
        let _target = storage.get_box(target_box_id)?;
        let vars = parse_env_content(env_content);
        proof {
            assert(pair_views(vars@).len() == vars@.len());
        }
        if vars.len() == 0 {
            return Err(ZapError::StorageError("No valid environment variables found".to_string()));
        }
        let current = storage.count_secrets_in_box(target_box_id);
        if vars.len() > MAX_SECRETS_PER_BOX || current > MAX_SECRETS_PER_BOX - vars.len() {
            return Err(ZapError::BoxCapacityExceeded);
        }
        let mut result = ImportResult::new();
        let mut i: usize = 0;
        while i < vars.len()
            invariant
                storage.wf(),
                storage.sessions@ == old(storage).sessions@,
                has_box(storage.boxes@, target_box_id@),
                i <= vars@.len(),
                current == count_in(old(storage).secrets@, target_box_id@),
                current + vars@.len() <= MAX_SECRETS_PER_BOX,
                result.secrets_imported + result.errors@.len() == i,
                count_in(storage.secrets@, target_box_id@) == current + result.secrets_imported,
                storage.logs@ == old(storage).logs@,
                pair_views(vars@) == parse_env(env_content@),
                storage.secrets@.len() >= old(storage).secrets@.len(),
                storage.secrets@.subrange(0, old(storage).secrets@.len() as int) == old(storage).secrets@,
                forall|m: int| old(storage).secrets@.len() <= m < storage.secrets@.len() ==> env_imported(
                    parse_env(env_content@),
                    target_box_id@,
                    master_key@,
                    #[trigger] storage.secrets@[m],
                ),
                forall|q: int| 0 <= q < i && env_pair_ok(#[trigger] parse_env(env_content@)[q]) ==> name_taken(
                    storage.secrets@,
                    target_box_id@,
                    env_secret_name(parse_env(env_content@)[q].0),
                ),
            decreases vars@.len() - i,
        {
            let name = env_var_to_secret_name(vars[i].0.as_str());
            let ghost before = storage.secrets@;
            proof {
                assert(pair_views(vars@)[i as int] == (vars@[i as int].0@, vars@[i as int].1@));
            }
            if storage.get_secret_by_name_in_box(name.as_str(), target_box_id).is_some() {
                result.add_error(join3("Secret '", name.as_str(), "' already exists in box"));
            } else if Secret::validate_name(name.as_str()).is_err() {
                result.add_error(join3("Invalid secret name '", name.as_str(), "'"));
            } else {
                let ghost cur = storage.secrets@;
                match self.create_secret_from_env(storage, name.as_str(), vars[i].1.as_str(), target_box_id, master_key) {
                    Ok(()) => {
                        proof {
                            let nl = cur.len() as int;
                            let os = old(storage).secrets@;
                            assert(storage.secrets@[nl] == storage.secrets@.last());
                            assert(pair_views(vars@)[i as int] == (vars@[i as int].0@, vars@[i as int].1@));
                            assert(env_imported(parse_env(env_content@), target_box_id@, master_key@, storage.secrets@[nl]));
                            assert forall|m: int| os.len() <= m < storage.secrets@.len() implies env_imported(parse_env(env_content@), target_box_id@, master_key@, #[trigger] storage.secrets@[m]) by {
                                if m < nl {
                                    assert(storage.secrets@[m] == storage.secrets@.drop_last()[m]);
                                }
                            }
                            assert(storage.secrets@.subrange(0, os.len() as int) =~= cur.subrange(0, os.len() as int)) by {
                                assert(storage.secrets@.drop_last() == cur);
                            }
                        }
                        result.secrets_imported = result.secrets_imported + 1;
                    },
                    Err(_) => {
                        result.add_error(join3("Failed to import '", name.as_str(), "'"));
                    },
                }
            }
            proof {
                assert forall|n: Seq<char>| name_taken(before, target_box_id@, n) implies name_taken(storage.secrets@, target_box_id@, n) by {
                    let m = choose|m: int| 0 <= m < before.len() && (#[trigger] before[m]).box_id@ == target_box_id@ && before[m].name@ == n;
                    if storage.secrets@.len() > before.len() {
                        assert(storage.secrets@[m] == storage.secrets@.drop_last()[m]);
                    }
                }
                if storage.secrets@.len() > before.len() {
                    let nl = before.len() as int;
                    assert(storage.secrets@[nl] == storage.secrets@.last());
                    assert(name_taken(storage.secrets@, target_box_id@, name@));
                }
                assert forall|q: int| 0 <= q < i + 1 && env_pair_ok(#[trigger] parse_env(env_content@)[q]) implies name_taken(
                    storage.secrets@,
                    target_box_id@,
                    env_secret_name(parse_env(env_content@)[q].0),
                ) by {
                    if q < i {
                        assert(name_taken(before, target_box_id@, env_secret_name(parse_env(env_content@)[q].0)));
                    }
                }
            }
            i += 1;
        }
        Ok(result)
    }

    /// Encrypts and stores one `.env` value as a secret of box `box_id`.
    fn create_secret_from_env(
        &self,
        storage: &mut StorageService,
        name: &str,
        value: &str,
        box_id: &str,
        master_key: &[u8; 32],
    ) -> (r: Result<(), ZapError>)
        requires
            old(storage).wf(),
            has_box(old(storage).boxes@, box_id@),
        ensures
            final(storage).wf(),
            final(storage).sessions@ == old(storage).sessions@,
            has_box(final(storage).boxes@, box_id@),
            r is Ok ==> count_in(final(storage).secrets@, box_id@) == count_in(old(storage).secrets@, box_id@) + 1,
            r is Ok ==> final(storage).secrets@.drop_last() == old(storage).secrets@ && final(storage).secrets@.last().name@
                == name@ && final(storage).secrets@.last().box_id@ == box_id@ && encrypts(value@, master_key@, final(storage).secrets@.last().encrypted_value),
            final(storage).logs@ == old(storage).logs@,
            r is Err ==> final(storage).secrets@ == old(storage).secrets@ && final(storage).boxes@ == old(storage).boxes@,
            secret_name_ok(name@) && encode_utf8(value@).len() <= AEAD_MAX_PLAINTEXT && !name_taken(
                old(storage).secrets@,
                box_id@,
                name@,
            ) ==> r is Ok,
    {
        let encrypted = self.crypto.encrypt(value, master_key)?;
        let mut secret = Secret::new(box_id.to_owned(), name.to_owned(), encrypted)?;
        let fresh = storage.fresh_secret_id(secret.id.clone());
        secret.id = fresh;
        let ghost ob = storage.boxes@;
        storage.save_secret(&secret)?;
        proof {
            let k = choose|k: int| crate::store::box_pos(ob, box_id@, k);
            assert(storage.boxes@[k]@ == crate::store::recounted(ob[k]@, storage.secrets@, box_id@));
            assert(crate::store::box_pos(storage.boxes@, box_id@, k));
        }
        Ok(())
    }
}


pub open spec fn opt_str_view(p: Option<&str>) -> Option<Seq<char>> {
    match p {
        Some(s) => Some(s@),
        None => None,
    }
}

/// The `.env` lines for `views`: each name as a variable, its value
/// decrypted under `master` and escaped.
pub open spec fn env_body(views: Seq<SecretView>, master: Seq<u8>, prefix: Option<Seq<char>>) -> Seq<char>
    decreases views.len(),
{
    if views.len() == 0 {
        Seq::empty()
    } else {
        env_body(views.drop_last(), master, prefix) + env_name_of(views.last().name, prefix) + seq!['=']
            + env_escaped(opened_view(views.last().value, master).unwrap()) + seq!['\n']
    }
}

impl ImportExportService {
    /// Box `box_id` as `.env` text: a commented header, then one
    /// `NAME=value` line per secret, decrypted under `master_key`.
    pub fn export_box_as_env(
        &self,
        storage: &StorageService,
        box_id: &str,
        master_key: &[u8; 32],
        prefix: Option<&str>,
    ) -> (r: Result<String, ZapError>)
        requires
            storage.wf(),
        ensures
            !has_box(storage.boxes@, box_id@) ==> (r matches Err(ZapError::BoxNotFound(_))),
            has_box(storage.boxes@, box_id@) && count_in(storage.secrets@, box_id@) == 0 ==> (r matches Err(
                ZapError::StorageError(_),
            )),
            r matches Ok(text) ==> ({
                let body = env_body(secrets_of(storage.secrets@, box_id@), master_key@, opt_str_view(prefix));
                &&& text@.len() >= body.len()
                &&& text@.subrange(text@.len() - body.len(), text@.len() as int) == body
            }),
            r matches Err(e) ==> e is BoxNotFound || e is StorageError || is_crypto_error(e),
            has_box(storage.boxes@, box_id@) && count_in(storage.secrets@, box_id@) > 0 && all_open(
                secrets_of(storage.secrets@, box_id@),
                master_key@,
            ) ==> r is Ok,
    {
        let b = storage.get_box(box_id)?;
        let secrets = storage.get_secrets_by_box_id(box_id);
        if secrets.len() == 0 {
            return Err(ZapError::StorageError("Box has no secrets to export".to_string()));
        }
        let mut header = join3("# Box: ", b.name.as_str(), "\n");
        match &b.description {
            Some(d) => {
                let line = join3("# Description: ", d.as_str(), "\n");
                header = join3(header.as_str(), line.as_str(), "");
            },
            None => {},
        }
        if b.tags.len() > 0 {
            let mut tags = b.tags[0].clone();
            let mut t: usize = 1;
            while t < b.tags.len()
                decreases b.tags@.len() - t,
            {
                tags = join3(tags.as_str(), ", ", b.tags[t].as_str());
                t += 1;
            }
            let line = join3("# Tags: ", tags.as_str(), "\n");
            header = join3(header.as_str(), line.as_str(), "");
        }
        let stamp = export_stamp();
        let line = join3("# Exported: ", stamp.as_str(), "\n");
        header = join3(header.as_str(), line.as_str(), "\n");
        let ghost views = secrets_of(storage.secrets@, box_id@);
        let mut body: Vec<char> = Vec::new();
        let mut i: usize = 0;
        while i < secrets.len()
            invariant
                i <= secrets@.len(),
                secret_views(secrets@) == views,
                views == secrets_of(storage.secrets@, box_id@),
                has_box(storage.boxes@, box_id@),
                count_in(storage.secrets@, box_id@) > 0,
                body@ == env_body(views.subrange(0, i as int), master_key@, opt_str_view(prefix)),
            decreases secrets@.len() - i,
        {
            proof {
                assert(views[i as int] == secrets@[i as int]@);
                assert(opened(secrets@[i as int].encrypted_value, master_key@) == opened_view(views[i as int].value, master_key@));
            }
            let value = self.crypto.decrypt(&secrets[i].encrypted_value, master_key)?;
            let name = secrets[i].to_env_var_name(prefix);
            let esc = escape_env_value(&chars_of(value.as_str()));
            let mut eq: Vec<char> = Vec::new();
            eq.push('=');
            let mut nl: Vec<char> = Vec::new();
            nl.push('\n');
            let a = concat_chars(&body, &chars_of(name.as_str()));
            let c = concat_chars(&a, &eq);
            let d = concat_chars(&c, &esc);
            body = concat_chars(&d, &nl);
            proof {
                assert(views[i as int] == secrets@[i as int]@);
                assert(views.subrange(0, i + 1).drop_last() =~= views.subrange(0, i as int));
                assert(eq@ =~= seq!['=']);
                assert(nl@ =~= seq!['\n']);
                assert(opened_view(views[i as int].value, master_key@) == Some(value@));
            }
            i += 1;
        }
        proof {
            assert(views.subrange(0, i as int) =~= views);
        }
        let head = chars_of(header.as_str());
        let all = concat_chars(&head, &body);
        proof {
            assert(all@.subrange(all@.len() - body@.len(), all@.len() as int) =~= body@);
        }
        Ok(string_of(&all))
    }
}

} // verus!
