//! Decisions of the application / device CRUD endpoints: which block of
//! the configuration document a request addresses, when it is refused,
//! and how the document changes when it is not.

use vstd::prelude::*;
use toml_edit::DocumentMut;
use crate::config::{AppConfig, ChirpStackApplications};
use crate::keyed::{find_first_index, first_with_key, keys_of, lemma_last_with_key, last_with_key, find_last_index};
use crate::text::{cat, chars_of, decimal, decimal_string, owned, str_eq};
use crate::web::api::{
    refusal, refused, CreateApplicationRequest, CreateDeviceRequest, MetricMappingRequest, Rejection,
    RejectionModel, STATUS_CONFLICT, STATUS_INTERNAL_SERVER_ERROR, STATUS_NOT_FOUND,
    STATUS_SERVICE_UNAVAILABLE, STATUS_UNPROCESSABLE_ENTITY,
};
use crate::web::config_doc::{
    application_ids, config_app_array, config_app_ids, config_app_names, config_device_ids,
    config_device_names, or_empty, device_ids, device_table, doc_root, apps_of, devs_of, with_apps, with_devs,
    with_device, device_at, app_block, device_block, renamed_device, metric_rows, TomlValue,
    id_views, push_application, push_device, remove_application, remove_device,
    knob_in_delta, replace_device, set_application_name, toml_item_texts, text_in, doc_item_texts, dot_segments,
};

verus! {

/// What a scan of block ids looks for.
#[derive(Clone, Copy, PartialEq, Eq, Structural)]
pub enum Seek {
    /// A block whose id is missing or not a string.
    Malformed,
    /// A block whose id is `id`.
    Match,
    /// Either.
    MalformedOrMatch,
}

/// Whether block id `o` is what `seek` looks for.
pub open spec fn hit(o: Option<Seq<char>>, id: Seq<char>, seek: Seek) -> bool {
    match seek {
        Seek::Malformed => o is None,
        Seek::Match => o == Some(id),
        Seek::MalformedOrMatch => o is None || o == Some(id),
    }
}

/// Position of the first block that `seek` looks for.
pub open spec fn first_hit(ids: Seq<Option<Seq<char>>>, id: Seq<char>, seek: Seek) -> Option<nat>
    decreases ids.len(),
{
    if ids.len() == 0 {
        None
    } else if hit(ids[0], id, seek) {
        Some(0)
    } else {
        match first_hit(ids.drop_first(), id, seek) {
            Some(k) => Some(k + 1),
            None => None,
        }
    }
}

/// Number of blocks whose id is `id`.
pub open spec fn id_count(ids: Seq<Option<Seq<char>>>, id: Seq<char>) -> nat
    decreases ids.len(),
{
    if ids.len() == 0 {
        0
    } else {
        id_count(ids.drop_last(), id) + if ids.last() == Some(id) {
            1nat
        } else {
            0nat
        }
    }
}

proof fn lemma_first_hit_skip(ids: Seq<Option<Seq<char>>>, id: Seq<char>, seek: Seek, i: int)
    requires
        0 <= i <= ids.len(),
        forall|j: int| 0 <= j < i ==> !hit(#[trigger] ids[j], id, seek),
    ensures
        first_hit(ids, id, seek) == match first_hit(ids.skip(i), id, seek) {
            Some(k) => Some((k + i) as nat),
            None => None,
        },
    decreases i,
{
    if i > 0 {
        lemma_first_hit_skip(ids.drop_first(), id, seek, i - 1);
        assert(ids.drop_first().skip(i - 1) =~= ids.skip(i));
    } else {
        assert(ids.skip(0) =~= ids);
    }
}

/// What `first_hit` finds is a hit, and nothing before it is.
pub proof fn lemma_first_hit(ids: Seq<Option<Seq<char>>>, id: Seq<char>, seek: Seek)
    ensures
        first_hit(ids, id, seek) matches Some(k) ==> k < ids.len() && hit(ids[k as int], id, seek)
            && forall|j: int| 0 <= j < k ==> !hit(#[trigger] ids[j], id, seek),
        first_hit(ids, id, seek) is None ==> forall|j: int|
            0 <= j < ids.len() ==> !hit(#[trigger] ids[j], id, seek),
    decreases ids.len(),
{
    if ids.len() > 0 {
        lemma_first_hit(ids.drop_first(), id, seek);
        if !hit(ids[0], id, seek) {
            assert forall|j: int| 1 <= j < ids.len() implies ids.drop_first()[j - 1] == ids[j] by {}
        }
    }
}

/// Position of the first block that `seek` looks for.
pub fn find_first(ids: &Vec<Option<String>>, id: &str, seek: Seek) -> (r: Option<usize>)
    ensures
        r matches Some(i) ==> first_hit(id_views(ids@), id@, seek) == Some(i as nat) && i < ids@.len(),
        r is None ==> first_hit(id_views(ids@), id@, seek) is None,
{
    let ghost v = id_views(ids@);
    proof {
        lemma_first_hit(v, id@, seek);
    }
    let mut i: usize = 0;
    while i < ids.len()
        invariant
            i <= ids.len(),
            v == id_views(ids@),
            forall|j: int| 0 <= j < i ==> !hit(#[trigger] v[j], id@, seek),
        decreases ids.len() - i,
    {
        let is_hit = match &ids[i] {
            None => seek != Seek::Match,
            Some(s) => seek != Seek::Malformed && str_eq(s.as_str(), id),
        };
        proof {
            assert(v[i as int] == match ids@[i as int] {
                Some(s) => Some(s@),
                None => None::<Seq<char>>,
            });
        }
        if is_hit {
            proof {
                lemma_first_hit_skip(v, id@, seek, i as int);
                assert(hit(v.skip(i as int)[0], id@, seek));
            }
            return Some(i);
        }
        i = i + 1;
    }
    proof {
        lemma_first_hit_skip(v, id@, seek, i as int);
    }
    None
}

/// Number of blocks whose id is `id`.
pub fn count_id(ids: &Vec<Option<String>>, id: &str) -> (r: usize)
    ensures
        r == id_count(id_views(ids@), id@),
{
    let ghost v = id_views(ids@);
    let mut n: usize = 0;
    let mut i: usize = 0;
    while i < ids.len()
        invariant
            i <= ids.len(),
            v == id_views(ids@),
            n == id_count(v.take(i as int), id@),
            n <= i,
        decreases ids.len() - i,
    {
        proof {
            assert(v.take(i + 1).drop_last() =~= v.take(i as int));
            assert(v.take(i + 1).last() == v[i as int]);
        }
        match &ids[i] {
            Some(s) => {
                if str_eq(s.as_str(), id) {
                    n = n + 1;
                }
            },
            None => {},
        }
        i = i + 1;
    }
    proof {
        assert(v.take(ids.len() as int) =~= v);
    }
    n
}


// ---------------------------------------------------------------------
// Refusals
// ---------------------------------------------------------------------

/// A block of kind `block` at `idx` whose id key `key` is missing or not a string.
pub open spec fn malformed_refusal(block: Seq<char>, key: Seq<char>, idx: nat) -> RejectionModel {
    refused(
        STATUS_CONFLICT,
        "config TOML contains a malformed "@ + block + " block at index "@ + decimal(idx)
            + " (missing or non-string "@ + key + "); manual cleanup required"@,
        Some("edit config/config.toml to fix the malformed block before retrying"@),
    )
}

/// A malformed `[[application]]` block at `idx`.
pub open spec fn app_malformed(idx: nat) -> RejectionModel {
    malformed_refusal("[[application]]"@, "application_id"@, idx)
}

/// A malformed `[[application.device]]` block at `idx`.
pub open spec fn dev_malformed(idx: nat) -> RejectionModel {
    malformed_refusal("[[application.device]]"@, "device_id"@, idx)
}

/// Creating an application whose id exists.
pub open spec fn app_exists(id: Seq<char>) -> RejectionModel {
    refused(
        STATUS_CONFLICT,
        "application_id '"@ + id + "' already exists"@,
        Some("PUT to rename or DELETE the existing application before recreating"@),
    )
}

/// Creating a device whose id exists under its application.
pub open spec fn dev_exists(dev: Seq<char>, app: Seq<char>) -> RejectionModel {
    refused(
        STATUS_CONFLICT,
        "device_id '"@ + dev + "' already exists under application '"@ + app + "'"@,
        Some("PUT to rename or DELETE the existing device before recreating"@),
    )
}

/// `n` application blocks carry the same id.
pub open spec fn app_dups(n: nat, id: Seq<char>) -> RejectionModel {
    refused(
        STATUS_CONFLICT,
        "config TOML contains "@ + decimal(n) + " entries with application_id '"@ + id
            + "'; manual cleanup required"@,
        Some("edit config/config.toml to remove the duplicate [[application]] block before retrying"@),
    )
}

/// `n` device blocks of one application carry the same id.
pub open spec fn dev_dups(n: nat, dev: Seq<char>, app: Seq<char>) -> RejectionModel {
    refused(
        STATUS_CONFLICT,
        "config TOML contains "@ + decimal(n) + " entries with device_id '"@ + dev
            + "' under application '"@ + app + "'; manual cleanup required"@,
        Some(
            "edit config/config.toml to remove the duplicate [[application.device]] block before retrying"@,
        ),
    )
}

/// The application addressed does not exist.
pub open spec fn app_not_found() -> RejectionModel {
    refused(STATUS_NOT_FOUND, "application not found"@, None)
}

/// The device addressed does not exist.
pub open spec fn dev_not_found() -> RejectionModel {
    refused(STATUS_NOT_FOUND, "device not found"@, None)
}

/// The generic 500 refusal.
pub open spec fn internal() -> RejectionModel {
    refused(STATUS_INTERNAL_SERVER_ERROR, "internal server error"@, None)
}

fn reject(status: u16, error: String, hint: Option<String>) -> (r: Rejection)
    ensures
        r@ == refused(status, error@, crate::web::api::opt_chars(hint)),
{
    Rejection { status, body: crate::web::api::ErrorResponse { error, hint } }
}

fn malformed_error(block: &str, key: &str, idx: usize) -> (r: Rejection)
    ensures
        r@ == malformed_refusal(block@, key@, idx as nat),
{
    let a = cat("config TOML contains a malformed ", block);
    let b = cat(a.as_str(), " block at index ");
    let c = cat(b.as_str(), decimal_string(idx).as_str());
    let d = cat(c.as_str(), " (missing or non-string ");
    let e = cat(d.as_str(), key);
    let msg = cat(e.as_str(), "); manual cleanup required");
    reject(
        STATUS_CONFLICT,
        msg,
        Some(owned("edit config/config.toml to fix the malformed block before retrying")),
    )
}

fn app_exists_error(id: &str) -> (r: Rejection)
    ensures
        r@ == app_exists(id@),
{
    let a = cat("application_id '", id);
    reject(
        STATUS_CONFLICT,
        cat(a.as_str(), "' already exists"),
        Some(owned("PUT to rename or DELETE the existing application before recreating")),
    )
}

fn dev_exists_error(dev: &str, app: &str) -> (r: Rejection)
    ensures
        r@ == dev_exists(dev@, app@),
{
    let a = cat("device_id '", dev);
    let b = cat(a.as_str(), "' already exists under application '");
    let c = cat(b.as_str(), app);
    reject(
        STATUS_CONFLICT,
        cat(c.as_str(), "'"),
        Some(owned("PUT to rename or DELETE the existing device before recreating")),
    )
}

fn app_dups_error(n: usize, id: &str) -> (r: Rejection)
    ensures
        r@ == app_dups(n as nat, id@),
{
    let a = cat("config TOML contains ", decimal_string(n).as_str());
    let b = cat(a.as_str(), " entries with application_id '");
    let c = cat(b.as_str(), id);
    reject(
        STATUS_CONFLICT,
        cat(c.as_str(), "'; manual cleanup required"),
        Some(
            owned(
                "edit config/config.toml to remove the duplicate [[application]] block before retrying",
            ),
        ),
    )
}

fn dev_dups_error(n: usize, dev: &str, app: &str) -> (r: Rejection)
    ensures
        r@ == dev_dups(n as nat, dev@, app@),
{
    let a = cat("config TOML contains ", decimal_string(n).as_str());
    let b = cat(a.as_str(), " entries with device_id '");
    let c = cat(b.as_str(), dev);
    let d = cat(c.as_str(), "' under application '");
    let e = cat(d.as_str(), app);
    reject(
        STATUS_CONFLICT,
        cat(e.as_str(), "'; manual cleanup required"),
        Some(
            owned(
                "edit config/config.toml to remove the duplicate [[application.device]] block before retrying",
            ),
        ),
    )
}

/// The 404 of a missing application.
pub fn application_not_found_response() -> (r: Rejection)
    ensures
        r@ == app_not_found(),
{
    reject(STATUS_NOT_FOUND, owned("application not found"), None)
}

/// The 404 of a missing device.
pub fn device_not_found_response() -> (r: Rejection)
    ensures
        r@ == dev_not_found(),
{
    reject(STATUS_NOT_FOUND, owned("device not found"), None)
}

/// The generic 500.
pub fn internal_error_response() -> (r: Rejection)
    ensures
        r@ == internal(),
{
    reject(STATUS_INTERNAL_SERVER_ERROR, owned("internal server error"), None)
}

// ---------------------------------------------------------------------
// Decisions over scanned block ids
// ---------------------------------------------------------------------

/// Refusal of creating application `id` among blocks `ids`: the first
/// block that is malformed or already carries `id` decides.
pub open spec fn app_create_refusal(ids: Seq<Option<Seq<char>>>, id: Seq<char>) -> Option<RejectionModel> {
    match first_hit(ids, id, Seek::MalformedOrMatch) {
        Some(i) => Some(
            if ids[i as int] is None {
                app_malformed(i)
            } else {
                app_exists(id)
            },
        ),
        None => None,
    }
}

/// Refusal of creating device `dev` under application `app` among its
/// device blocks `ids`.
pub open spec fn dev_create_refusal(ids: Seq<Option<Seq<char>>>, dev: Seq<char>, app: Seq<char>) -> Option<
    RejectionModel,
> {
    match first_hit(ids, dev, Seek::MalformedOrMatch) {
        Some(i) => Some(
            if ids[i as int] is None {
                dev_malformed(i)
            } else {
                dev_exists(dev, app)
            },
        ),
        None => None,
    }
}

/// The application block an edit of `id` addresses, or its refusal: any
/// malformed block, then more than one block with `id`, then none.
pub open spec fn app_edit_target(ids: Seq<Option<Seq<char>>>, id: Seq<char>) -> Result<nat, RejectionModel> {
    match first_hit(ids, id, Seek::Malformed) {
        Some(i) => Err(app_malformed(i)),
        None => if id_count(ids, id) > 1 {
            Err(app_dups(id_count(ids, id), id))
        } else {
            match first_hit(ids, id, Seek::Match) {
                Some(i) => Ok(i),
                None => Err(app_not_found()),
            }
        },
    }
}

/// The device block an edit of `dev` under `app` addresses, or its refusal.
pub open spec fn dev_edit_target(ids: Seq<Option<Seq<char>>>, dev: Seq<char>, app: Seq<char>) -> Result<
    nat,
    RejectionModel,
> {
    match first_hit(ids, dev, Seek::Malformed) {
        Some(i) => Err(dev_malformed(i)),
        None => if id_count(ids, dev) > 1 {
            Err(dev_dups(id_count(ids, dev), dev, app))
        } else {
            match first_hit(ids, dev, Seek::Match) {
                Some(i) => Ok(i),
                None => Err(dev_not_found()),
            }
        },
    }
}

/// The parent application block of a device request: the first block
/// that is malformed (refused) or carries `id`; none when there is no
/// array or no such block.
pub open spec fn app_locate(has_array: bool, ids: Seq<Option<Seq<char>>>, id: Seq<char>) -> Result<
    Option<nat>,
    RejectionModel,
> {
    if !has_array {
        Ok(None)
    } else {
        match first_hit(ids, id, Seek::MalformedOrMatch) {
            Some(i) => if ids[i as int] is None {
                Err(app_malformed(i))
            } else {
                Ok(Some(i))
            },
            None => Ok(None),
        }
    }
}

/// Checks that application `id` can be appended to blocks `ids`.
pub fn check_create_application(ids: &Vec<Option<String>>, id: &str) -> (r: Result<(), Rejection>)
    ensures
        refusal(r) == app_create_refusal(id_views(ids@), id@),
{
    proof {
        lemma_first_hit(id_views(ids@), id@, Seek::MalformedOrMatch);
    }
    match find_first(ids, id, Seek::MalformedOrMatch) {
        Some(i) => {
            proof {
                assert(id_views(ids@)[i as int] is None <==> ids@[i as int] is None);
            }
            if ids[i].is_none() {
                Err(malformed_error("[[application]]", "application_id", i))
            } else {
                Err(app_exists_error(id))
            }
        },
        None => Ok(()),
    }
}

/// Checks that device `dev` can be appended to the device blocks `ids`
/// of application `app`.
pub fn check_create_device(ids: &Vec<Option<String>>, dev: &str, app: &str) -> (r: Result<(), Rejection>)
    ensures
        refusal(r) == dev_create_refusal(id_views(ids@), dev@, app@),
{
    proof {
        lemma_first_hit(id_views(ids@), dev@, Seek::MalformedOrMatch);
    }
    match find_first(ids, dev, Seek::MalformedOrMatch) {
        Some(i) => {
            proof {
                assert(id_views(ids@)[i as int] is None <==> ids@[i as int] is None);
            }
            if ids[i].is_none() {
                Err(malformed_error("[[application.device]]", "device_id", i))
            } else {
                Err(dev_exists_error(dev, app))
            }
        },
        None => Ok(()),
    }
}

/// The application block an edit of `id` addresses.
pub fn application_edit_index(ids: &Vec<Option<String>>, id: &str) -> (r: Result<usize, Rejection>)
    ensures
        match app_edit_target(id_views(ids@), id@) {
            Ok(i) => r matches Ok(j) && j == i,
            Err(e) => refusal(r) == Some(e),
        },
{
    match find_first(ids, id, Seek::Malformed) {
        Some(i) => Err(malformed_error("[[application]]", "application_id", i)),
        None => {
            let n = count_id(ids, id);
            if n > 1 {
                return Err(app_dups_error(n, id));
            }
            match find_first(ids, id, Seek::Match) {
                Some(i) => Ok(i),
                None => Err(application_not_found_response()),
            }
        },
    }
}

/// The device block an edit of `dev` under `app` addresses.
pub fn device_edit_index(ids: &Vec<Option<String>>, dev: &str, app: &str) -> (r: Result<usize, Rejection>)
    ensures
        match dev_edit_target(id_views(ids@), dev@, app@) {
            Ok(i) => r matches Ok(j) && j == i,
            Err(e) => refusal(r) == Some(e),
        },
{
    match find_first(ids, dev, Seek::Malformed) {
        Some(i) => Err(malformed_error("[[application.device]]", "device_id", i)),
        None => {
            let n = count_id(ids, dev);
            if n > 1 {
                return Err(dev_dups_error(n, dev, app));
            }
            match find_first(ids, dev, Seek::Match) {
                Some(i) => Ok(i),
                None => Err(device_not_found_response()),
            }
        },
    }
}

/// The ids of a scan, none when there was no array.
pub open spec fn scan_view(ids: Option<Vec<Option<String>>>) -> Seq<Option<Seq<char>>> {
    match ids {
        Some(v) => id_views(v@),
        None => Seq::empty(),
    }
}

/// The parent application block of a device request.
pub fn locate_application(ids: &Option<Vec<Option<String>>>, id: &str) -> (r: Result<Option<usize>, Rejection>)
    ensures
        match app_locate(ids is Some, scan_view(*ids), id@) {
            Ok(Some(i)) => r matches Ok(Some(j)) && j == i,
            Ok(None) => r matches Ok(None),
            Err(e) => refusal(r) == Some(e),
        },
{
    match ids {
        None => Ok(None),
        Some(v) => {
            proof {
                lemma_first_hit(id_views(v@), id@, Seek::MalformedOrMatch);
            }
            match find_first(v, id, Seek::MalformedOrMatch) {
                Some(i) => {
                    proof {
                        assert(id_views(v@)[i as int] is None <==> v@[i as int] is None);
                    }
                    if v[i].is_none() {
                        Err(malformed_error("[[application]]", "application_id", i))
                    } else {
                        Ok(Some(i))
                    }
                },
                None => Ok(None),
            }
        },
    }
}


// ---------------------------------------------------------------------
// Edits of the configuration document
// ---------------------------------------------------------------------

proof fn lemma_count_absent(ids: Seq<Option<Seq<char>>>, id: Seq<char>)
    requires
        forall|j: int| 0 <= j < ids.len() ==> ids[j] != Some(id),
    ensures
        id_count(ids, id) == 0,
    decreases ids.len(),
{
    if ids.len() > 0 {
        lemma_count_absent(ids.drop_last(), id);
    }
}

proof fn lemma_count_push(ids: Seq<Option<Seq<char>>>, x: Option<Seq<char>>, id: Seq<char>)
    ensures
        id_count(ids.push(x), id) == id_count(ids, id) + if x == Some(id) { 1nat } else { 0nat },
{
    assert(ids.push(x).drop_last() =~= ids);
}

proof fn lemma_count_remove(ids: Seq<Option<Seq<char>>>, i: int, id: Seq<char>)
    requires
        0 <= i < ids.len(),
    ensures
        id_count(ids, id) == id_count(ids.remove(i), id) + if ids[i] == Some(id) { 1nat } else { 0nat },
    decreases ids.len(),
{
    if i == ids.len() - 1 {
        assert(ids.remove(i) =~= ids.drop_last());
    } else {
        lemma_count_remove(ids.drop_last(), i, id);
        assert(ids.remove(i).drop_last() =~= ids.drop_last().remove(i));
        assert(ids.remove(i).last() == ids.last());
    }
}

proof fn lemma_count_positive(ids: Seq<Option<Seq<char>>>, i: int, id: Seq<char>)
    requires
        0 <= i < ids.len(),
        ids[i] == Some(id),
    ensures
        id_count(ids, id) >= 1,
{
    lemma_count_remove(ids, i, id);
}

/// Appends application `id` named `name` to the document, unless an
/// existing block is malformed or already carries `id`. On success the
/// document holds exactly one block with `id`.
pub fn create_application_in_doc(doc: &mut DocumentMut, id: &str, name: &str) -> (r: Result<(), Rejection>)
    ensures
        config_app_array(*old(doc)) && app_create_refusal(config_app_ids(*old(doc)), id@) is Some
            ==> refusal(r) == app_create_refusal(config_app_ids(*old(doc)), id@) && *final(doc)
            == *old(doc),
        config_app_array(*old(doc)) && app_create_refusal(config_app_ids(*old(doc)), id@) is None
            ==> r is Ok,
        !config_app_array(*old(doc)) && !doc_root(*old(doc)).contains_key("application"@) ==> r is Ok,
        !config_app_array(*old(doc)) && doc_root(*old(doc)).contains_key("application"@) ==> refusal(r)
            == Some(internal()) && *final(doc) == *old(doc),
        r is Ok ==> doc_root(*final(doc)) == with_apps(
            doc_root(*old(doc)),
            apps_of(doc_root(*old(doc))).push(app_block(id@, name@)),
        ),
        r is Ok ==> config_app_array(*final(doc)) && config_app_ids(*final(doc)) == config_app_ids(
            *old(doc),
        ).push(Some(id@)) && id_count(config_app_ids(*final(doc)), id@) == 1,
        r is Ok ==> config_app_names(*final(doc)) == config_app_names(*old(doc)).push(Some(name@)),
        r is Ok ==> config_device_ids(*final(doc)) == config_device_ids(*old(doc)).push(None),
{
    let scan = application_ids(doc);
    if let Some(ids) = &scan {
        check_create_application(ids, id)?;
    }
    proof {
        let old_ids = config_app_ids(*doc);
        lemma_first_hit(old_ids, id@, Seek::MalformedOrMatch);
        assert forall|j: int| 0 <= j < old_ids.len() implies old_ids[j] != Some(id@) by {
            assert(!hit(old_ids[j], id@, Seek::MalformedOrMatch));
        }
        lemma_count_absent(old_ids, id@);
        lemma_count_push(old_ids, Some(id@), id@);
    }
    if push_application(doc, id, name) {
        Ok(())
    } else {
        Err(internal_error_response())
    }
}

/// Renames the one application block carrying `id`. Block ids are
/// unchanged.
pub fn update_application_in_doc(doc: &mut DocumentMut, id: &str, name: &str) -> (r: Result<(), Rejection>)
    ensures
        !config_app_array(*old(doc)) ==> refusal(r) == Some(internal()) && *final(doc) == *old(doc),
        config_app_array(*old(doc)) ==> match app_edit_target(config_app_ids(*old(doc)), id@) {
            Err(e) => refusal(r) == Some(e) && *final(doc) == *old(doc),
            Ok(i) => r is Ok && config_app_names(*final(doc)) == config_app_names(*old(doc)).update(
                i as int,
                Some(name@),
            ) && doc_root(*final(doc)) == with_apps(
                doc_root(*old(doc)),
                apps_of(doc_root(*old(doc))).update(
                    i as int,
                    apps_of(doc_root(*old(doc)))[i as int].insert("application_name"@, TomlValue::Str(name@)),
                ),
            ),
        },
        r is Ok ==> config_app_array(*final(doc)) && config_app_ids(*final(doc)) == config_app_ids(
            *old(doc),
        ) && config_device_ids(*final(doc)) == config_device_ids(*old(doc)),
        r is Ok ==> config_device_names(*final(doc)) == config_device_names(*old(doc)),
{
    let ids = match application_ids(doc) {
        Some(ids) => ids,
        None => {
            return Err(internal_error_response());
        },
    };
    let idx = application_edit_index(&ids, id)?;
    proof {
        lemma_first_hit(config_app_ids(*doc), id@, Seek::Match);
    }
    set_application_name(doc, idx, name);
    Ok(())
}

/// Removes the one application block carrying `id`; afterwards no block
/// carries it.
pub fn delete_application_in_doc(doc: &mut DocumentMut, id: &str) -> (r: Result<(), Rejection>)
    ensures
        !config_app_array(*old(doc)) ==> refusal(r) == Some(internal()) && *final(doc) == *old(doc),
        config_app_array(*old(doc)) ==> match app_edit_target(config_app_ids(*old(doc)), id@) {
            Err(e) => refusal(r) == Some(e) && *final(doc) == *old(doc),
            Ok(i) => r is Ok && config_app_ids(*final(doc)) == config_app_ids(*old(doc)).remove(
                i as int,
            ) && config_app_names(*final(doc)) == config_app_names(*old(doc)).remove(i as int)
                && config_device_ids(*final(doc)) == config_device_ids(*old(doc)).remove(i as int)
                && config_device_names(*final(doc)) == config_device_names(*old(doc)).remove(i as int)
                && doc_root(*final(doc)) == with_apps(
                doc_root(*old(doc)),
                apps_of(doc_root(*old(doc))).remove(i as int),
            ),
        },
        r is Ok ==> config_app_array(*final(doc)) && id_count(config_app_ids(*final(doc)), id@) == 0,
{
    let ids = match application_ids(doc) {
        Some(ids) => ids,
        None => {
            return Err(internal_error_response());
        },
    };
    let idx = application_edit_index(&ids, id)?;
    proof {
        let v = config_app_ids(*doc);
        lemma_first_hit(v, id@, Seek::Match);
        lemma_count_positive(v, idx as int, id@);
        lemma_count_remove(v, idx as int, id@);
    }
    remove_application(doc, idx);
    Ok(())
}


/// The parent application block a device request on `doc` addresses.
pub open spec fn doc_locate(doc: DocumentMut, app: Seq<char>) -> Result<Option<nat>, RejectionModel> {
    app_locate(config_app_array(doc), config_app_ids(doc), app)
}

/// How many device blocks of the application block at `a` carry `dev`;
/// `None` when that block has no device array.
pub open spec fn device_id_count(doc: DocumentMut, a: nat, dev: Seq<char>) -> Option<nat> {
    match config_device_ids(doc)[a as int] {
        Some(ids) => Some(id_count(ids, dev)),
        None => None,
    }
}

fn locate_in_doc(doc: &DocumentMut, app_id: &str) -> (r: Result<usize, Rejection>)
    ensures
        match doc_locate(*doc, app_id@) {
            Err(e) => refusal(r) == Some(e),
            Ok(None) => refusal(r) == Some(app_not_found()),
            Ok(Some(a)) => r matches Ok(i) && i == a,
        },
        r matches Ok(i) ==> config_app_array(*doc) && i < config_app_ids(*doc).len(),
        r is Ok ==> config_device_ids(*doc).len() == config_app_ids(*doc).len() && config_device_names(
            *doc,
        ).len() == config_app_ids(*doc).len(),
{
    let scan = application_ids(doc);
    proof {
        lemma_first_hit(config_app_ids(*doc), app_id@, Seek::MalformedOrMatch);
    }
    match locate_application(&scan, app_id)? {
        Some(i) => Ok(i),
        None => Err(application_not_found_response()),
    }
}

/// Appends device `req` under application `app_id`, unless the parent
/// is missing or malformed, or an existing device block of it is
/// malformed or already carries the id. On success the application holds
/// exactly one device block with that id.
pub fn create_device_in_doc(doc: &mut DocumentMut, app_id: &str, req: &CreateDeviceRequest) -> (r: Result<
    (),
    Rejection,
>)
    ensures
        match doc_locate(*old(doc), app_id@) {
            Err(e) => refusal(r) == Some(e) && *final(doc) == *old(doc),
            Ok(None) => refusal(r) == Some(app_not_found()) && *final(doc) == *old(doc),
            Ok(Some(a)) => match config_device_ids(*old(doc))[a as int] {
                Some(ids) => match dev_create_refusal(ids, req.device_id@, app_id@) {
                    Some(e) => refusal(r) == Some(e) && *final(doc) == *old(doc),
                    None => r is Ok && config_device_ids(*final(doc))[a as int] == Some(
                        ids.push(Some(req.device_id@)),
                    ),
                },
                None => if apps_of(doc_root(*old(doc)))[a as int].contains_key("device"@) {
                    refusal(r) == Some(internal()) && *final(doc) == *old(doc)
                } else {
                    r is Ok && config_device_ids(*final(doc))[a as int] == Some(seq![Some(req.device_id@)])
                },
            },
        },
        r is Ok ==> (doc_locate(*old(doc), app_id@) matches Ok(Some(a)) && doc_root(*final(doc)) == with_apps(
            doc_root(*old(doc)),
            apps_of(doc_root(*old(doc))).update(
                a as int,
                with_devs(
                    apps_of(doc_root(*old(doc)))[a as int],
                    devs_of(apps_of(doc_root(*old(doc)))[a as int]).push(
                        device_block(req.device_id@, req.device_name@, metric_rows(req.read_metric_list@)),
                    ),
                ),
            ),
        )),
        r is Ok ==> config_app_ids(*final(doc)) == config_app_ids(*old(doc)),
        r is Ok ==> (doc_locate(*old(doc), app_id@) matches Ok(Some(a)) && device_id_count(
            *final(doc),
            a,
            req.device_id@,
        ) == Some(1nat)),
        r is Ok ==> (doc_locate(*old(doc), app_id@) matches Ok(Some(a)) && config_device_names(*final(doc))[a as int]
            == Some(or_empty(config_device_names(*old(doc))[a as int]).push(Some(req.device_name@)))),
        r is Ok ==> config_app_names(*final(doc)) == config_app_names(*old(doc)),
{
    let a = locate_in_doc(doc, app_id)?;
    let scan = device_ids(doc, a);
    if let Some(ids) = &scan {
        check_create_device(ids, req.device_id.as_str(), app_id)?;
    }
    proof {
        let old_ids = match config_device_ids(*doc)[a as int] {
            Some(v) => v,
            None => Seq::empty(),
        };
        lemma_first_hit(old_ids, req.device_id@, Seek::MalformedOrMatch);
        assert forall|j: int| 0 <= j < old_ids.len() implies old_ids[j] != Some(req.device_id@) by {
            assert(!hit(old_ids[j], req.device_id@, Seek::MalformedOrMatch));
        }
        lemma_count_absent(old_ids, req.device_id@);
        lemma_count_push(old_ids, Some(req.device_id@), req.device_id@);
        assert(Seq::<Option<Seq<char>>>::empty().push(Some(req.device_id@)) =~= seq![Some(req.device_id@)]);
    }
    let table = device_table(req.device_id.as_str(), req.device_name.as_str(), &req.read_metric_list);
    if push_device(doc, a, table) {
        Ok(())
    } else {
        Err(internal_error_response())
    }
}

/// Sets the name and metric list of the one device block carrying
/// `dev_id` under application `app_id`. Block ids are unchanged.
pub fn update_device_in_doc(
    doc: &mut DocumentMut,
    app_id: &str,
    dev_id: &str,
    name: &str,
    metrics: &Vec<MetricMappingRequest>,
) -> (r: Result<(), Rejection>)
    ensures
        match doc_locate(*old(doc), app_id@) {
            Err(e) => refusal(r) == Some(e) && *final(doc) == *old(doc),
            Ok(None) => refusal(r) == Some(app_not_found()) && *final(doc) == *old(doc),
            Ok(Some(a)) => match config_device_ids(*old(doc))[a as int] {
                None => refusal(r) == Some(dev_not_found()) && *final(doc) == *old(doc),
                Some(ids) => match dev_edit_target(ids, dev_id@, app_id@) {
                    Err(e) => refusal(r) == Some(e) && *final(doc) == *old(doc),
                    Ok(i) => r is Ok && config_device_names(*final(doc))[a as int] == Some(
                        or_empty(config_device_names(*old(doc))[a as int]).update(i as int, Some(name@)),
                    ) && doc_root(*final(doc)) == with_device(
                        doc_root(*old(doc)),
                        a as int,
                        i as int,
                        renamed_device(device_at(doc_root(*old(doc)), a as int, i as int), name@, metric_rows(metrics@)),
                    ),
                },
            },
        },
        r is Ok ==> config_app_ids(*final(doc)) == config_app_ids(*old(doc)) && config_device_ids(
            *final(doc),
        ) == config_device_ids(*old(doc)),
        r is Ok ==> config_app_names(*final(doc)) == config_app_names(*old(doc)),
{
    let a = locate_in_doc(doc, app_id)?;
    let ids = match device_ids(doc, a) {
        Some(ids) => ids,
        None => {
            return Err(device_not_found_response());
        },
    };
    let d = device_edit_index(&ids, dev_id, app_id)?;
    proof {
        lemma_first_hit(id_views(ids@), dev_id@, Seek::Match);
    }
    replace_device(doc, a, d, name, metrics);
    Ok(())
}

/// Removes the one device block carrying `dev_id` under application
/// `app_id`; afterwards no device block of it carries the id.
pub fn delete_device_in_doc(doc: &mut DocumentMut, app_id: &str, dev_id: &str) -> (r: Result<(), Rejection>)
    ensures
        match doc_locate(*old(doc), app_id@) {
            Err(e) => refusal(r) == Some(e) && *final(doc) == *old(doc),
            Ok(None) => refusal(r) == Some(app_not_found()) && *final(doc) == *old(doc),
            Ok(Some(a)) => match config_device_ids(*old(doc))[a as int] {
                None => refusal(r) == Some(dev_not_found()) && *final(doc) == *old(doc),
                Some(ids) => match dev_edit_target(ids, dev_id@, app_id@) {
                    Err(e) => refusal(r) == Some(e) && *final(doc) == *old(doc),
                    Ok(i) => r is Ok && config_device_ids(*final(doc)) == config_device_ids(*old(doc)).update(
                        a as int,
                        Some(ids.remove(i as int)),
                    ) && config_device_names(*final(doc)) == config_device_names(*old(doc)).update(
                        a as int,
                        Some(or_empty(config_device_names(*old(doc))[a as int]).remove(i as int)),
                    ) && doc_root(*final(doc)) == with_apps(
                        doc_root(*old(doc)),
                        apps_of(doc_root(*old(doc))).update(
                            a as int,
                            with_devs(
                                apps_of(doc_root(*old(doc)))[a as int],
                                devs_of(apps_of(doc_root(*old(doc)))[a as int]).remove(i as int),
                            ),
                        ),
                    ),
                },
            },
        },
        r is Ok ==> config_app_ids(*final(doc)) == config_app_ids(*old(doc)),
        r is Ok ==> (doc_locate(*old(doc), app_id@) matches Ok(Some(a)) && device_id_count(
            *final(doc),
            a,
            dev_id@,
        ) == Some(0nat)),
        r is Ok ==> config_app_names(*final(doc)) == config_app_names(*old(doc)),
{
    let a = locate_in_doc(doc, app_id)?;
    let ids = match device_ids(doc, a) {
        Some(ids) => ids,
        None => {
            return Err(device_not_found_response());
        },
    };
    let d = device_edit_index(&ids, dev_id, app_id)?;
    proof {
        let v = id_views(ids@);
        lemma_first_hit(v, dev_id@, Seek::Match);
        lemma_count_positive(v, d as int, dev_id@);
        lemma_count_remove(v, d as int, dev_id@);
    }
    remove_device(doc, a, d);
    Ok(())
}


// ---------------------------------------------------------------------
// Checks against the live configuration, before the document is read
// ---------------------------------------------------------------------

/// Checks that application `id` is configured.
pub fn precheck_update_application(cfg: &AppConfig, id: &str) -> (r: Result<(), Rejection>)
    ensures
        r is Ok <==> keys_of(cfg.application_list@).contains(id@),
        r is Err ==> refusal(r) == Some(app_not_found()),
{
    proof {
        lemma_last_with_key(cfg.application_list@, id@);
    }
    match find_last_index(&cfg.application_list, &owned(id)) {
        Some(_) => Ok(()),
        None => Err(application_not_found_response()),
    }
}

/// Deleting an application that still has devices.
pub open spec fn app_has_devices(n: nat) -> RejectionModel {
    refused(
        STATUS_CONFLICT,
        "application has "@ + decimal(n) + " device(s); remove devices first via /api/devices endpoints (Story 9-5)"@,
        Some("DELETE each device individually before deleting the parent application"@),
    )
}

/// Deleting the last configured application.
pub open spec fn last_app() -> RejectionModel {
    refused(
        STATUS_CONFLICT,
        "cannot delete the only configured application; application_list must contain at least one entry per AppConfig::validate"@,
        Some("create another application first via POST /api/applications, then DELETE this one"@),
    )
}

/// Refusal of deleting application `id` from the live configuration: it
/// must exist (first entry with the id), have no device, and not be the
/// only application.
pub open spec fn delete_app_refusal(list: Seq<ChirpStackApplications>, id: Seq<char>) -> Option<RejectionModel> {
    match first_with_key(list, id) {
        None => Some(app_not_found()),
        Some(a) => if a.device_list@.len() > 0 {
            Some(app_has_devices(a.device_list@.len()))
        } else if list.len() <= 1 {
            Some(last_app())
        } else {
            None
        },
    }
}

/// Checks that application `id` can be deleted.
pub fn precheck_delete_application(cfg: &AppConfig, id: &str) -> (r: Result<(), Rejection>)
    ensures
        refusal(r) == delete_app_refusal(cfg.application_list@, id@),
{
    let i = match find_first_index(cfg.application_list.as_slice(), id) {
        None => {
            return Err(application_not_found_response());
        },
        Some(i) => i,
    };
    let n = cfg.application_list[i].device_list.len();
    if n > 0 {
        let a = cat("application has ", decimal_string(n).as_str());
        return Err(
            reject(
                STATUS_CONFLICT,
                cat(a.as_str(), " device(s); remove devices first via /api/devices endpoints (Story 9-5)"),
                Some(owned("DELETE each device individually before deleting the parent application")),
            ),
        );
    }
    if cfg.application_list.len() <= 1 {
        return Err(
            reject(
                STATUS_CONFLICT,
                owned(
                    "cannot delete the only configured application; application_list must contain at least one entry per AppConfig::validate",
                ),
                Some(
                    owned(
                        "create another application first via POST /api/applications, then DELETE this one",
                    ),
                ),
            ),
        );
    }
    Ok(())
}

/// Refusal of editing device `dev` of application `app` in the live
/// configuration: the application (first entry with the id) must exist
/// and list the device.
pub open spec fn device_precheck_refusal(list: Seq<ChirpStackApplications>, app: Seq<char>, dev: Seq<char>) -> Option<
    RejectionModel,
> {
    match first_with_key(list, app) {
        None => Some(app_not_found()),
        Some(a) => if keys_of(a.device_list@).contains(dev) {
            None
        } else {
            Some(dev_not_found())
        },
    }
}

/// Checks that device `dev` of application `app` is configured.
pub fn precheck_device(cfg: &AppConfig, app: &str, dev: &str) -> (r: Result<(), Rejection>)
    ensures
        refusal(r) == device_precheck_refusal(cfg.application_list@, app@, dev@),
{
    let i = match find_first_index(cfg.application_list.as_slice(), app) {
        None => {
            return Err(application_not_found_response());
        },
        Some(i) => i,
    };
    let devices = &cfg.application_list[i].device_list;
    proof {
        lemma_last_with_key(devices@, dev@);
    }
    match find_last_index(devices, &owned(dev)) {
        Some(_) => Ok(()),
        None => Err(device_not_found_response()),
    }
}

/// Devices of the first configured application `id`; 0 when none is.
pub open spec fn device_count_of(list: Seq<ChirpStackApplications>, id: Seq<char>) -> nat {
    match first_with_key(list, id) {
        Some(a) => a.device_list@.len(),
        None => 0,
    }
}

/// Device count reported after renaming application `id`.
pub fn device_count_after_update(cfg: &AppConfig, id: &str) -> (r: usize)
    ensures
        r == device_count_of(cfg.application_list@, id@),
{
    match find_first_index(cfg.application_list.as_slice(), id) {
        Some(i) => cfg.application_list[i].device_list.len(),
        None => 0,
    }
}

// ---------------------------------------------------------------------
// Failures after the document was written
// ---------------------------------------------------------------------

/// `n` occurs in `h` as a contiguous piece.
pub open spec fn has_piece(h: Seq<char>, n: Seq<char>) -> bool {
    exists|i: int| 0 <= i && i + n.len() <= h.len() && #[trigger] h.subrange(i, i + n.len()) == n
}

/// Whether `n` occurs in `h` (`str::contains`).
pub fn contains_str(h: &str, n: &str) -> (r: bool)
    ensures
        r == has_piece(h@, n@),
{
    let hv = chars_of(h);
    let nv = chars_of(n);
    if nv.len() > hv.len() {
        proof {
            assert forall|i: int| 0 <= i && i + n@.len() <= h@.len() implies #[trigger] h@.subrange(
                i,
                i + n@.len(),
            ) != n@ by {}
        }
        return false;
    }
    let mut i: usize = 0;
    let last = hv.len() - nv.len();
    while i <= last
        invariant
            last == hv.len() - nv.len(),
            hv@ == h@,
            nv@ == n@,
            nv.len() <= hv.len(),
            i <= last + 1,
            forall|p: int| 0 <= p < i ==> #[trigger] h@.subrange(p, p + n@.len()) != n@,
        decreases last + 1 - i,
    {
        let mut k: usize = 0;
        while k < nv.len() && hv[i + k] == nv[k]
            invariant
                hv@ == h@,
                nv@ == n@,
                i + nv.len() <= hv.len(),
                k <= nv.len(),
                forall|q: int| 0 <= q < k ==> hv@[i + q] == nv@[q],
            decreases nv.len() - k,
        {
            k = k + 1;
        }
        if k == nv.len() {
            proof {
                assert(h@.subrange(i as int, i + n@.len()) =~= n@);
            }
            return true;
        }
        proof {
            assert(h@.subrange(i as int, i + n@.len())[k as int] != n@[k as int]);
        }
        i = i + 1;
    }
    proof {
        assert forall|p: int| 0 <= p && p + n@.len() <= h@.len() implies #[trigger] h@.subrange(
            p,
            p + n@.len(),
        ) != n@ by {
            assert(p < i);
        }
    }
    false
}

/// The refusal for a failed read or write of the configuration file,
/// given the error's text: 503 when the writer is poisoned, else 500.
pub open spec fn io_refusal(display: Seq<char>) -> RejectionModel {
    if has_piece(display, "config writer poisoned"@) {
        refused(
            STATUS_SERVICE_UNAVAILABLE,
            "gateway in inconsistent state: prior rollback failed"@,
            Some("restart the gateway; on-disk config may need manual review"@),
        )
    } else {
        internal()
    }
}

/// Maps a configuration IO failure (its text) to the response.
pub fn io_error_response(display: &str) -> (r: Rejection)
    ensures
        r@ == io_refusal(display@),
{
    if contains_str(display, "config writer poisoned") {
        reject(
            STATUS_SERVICE_UNAVAILABLE,
            owned("gateway in inconsistent state: prior rollback failed"),
            Some(owned("restart the gateway; on-disk config may need manual review")),
        )
    } else {
        internal_error_response()
    }
}

/// The refusal for a failed reload, given the error's reason code and
/// text: 422 with the text for a validation failure, else 500.
pub open spec fn reload_refusal(reason: Seq<char>, display: Seq<char>) -> RejectionModel {
    if reason == "validation"@ {
        refused(
            STATUS_UNPROCESSABLE_ENTITY,
            "config validation failed: "@ + display,
            Some("fix the offending field and retry"@),
        )
    } else {
        internal()
    }
}

/// Maps a reload failure to the response.
pub fn reload_error_response(reason: &str, display: &str) -> (r: Rejection)
    ensures
        r@ == reload_refusal(reason@, display@),
{
    if str_eq(reason, "validation") {
        reject(
            STATUS_UNPROCESSABLE_ENTITY,
            cat("config validation failed: ", display),
            Some(owned("fix the offending field and retry")),
        )
    } else {
        internal_error_response()
    }
}

/// When a reload asks for a restart because of `knob`: whether to roll
/// back, and the response. A knob the write did not change (`Some(false)`)
/// is drift already on disk: no rollback, 409. Otherwise (changed, or
/// not known): roll back, 500.
pub open spec fn restart_decision(knob: Seq<char>, changed: Option<bool>) -> (bool, RejectionModel) {
    if changed == Some(false) {
        (
            false,
            refused(
                STATUS_CONFLICT,
                "your TOML has unrelated changes to "@ + knob
                    + " since gateway start; review/restart the gateway before retrying"@,
                Some(
                    "the in-process Arc<AppConfig> is still on the pre-drift values; restart will pick up your TOML edit"@,
                ),
            ),
        )
    } else {
        (true, internal())
    }
}

/// Decides on a restart-required reload, given whether the write changed
/// `knob`.
pub fn restart_required_decision(knob: &str, changed: Option<bool>) -> (r: (bool, Rejection))
    ensures
        (r.0, r.1@) == restart_decision(knob@, changed),
{
    match changed {
        Some(false) => {
            let a = cat("your TOML has unrelated changes to ", knob);
            (
                false,
                reject(
                    STATUS_CONFLICT,
                    cat(a.as_str(), " since gateway start; review/restart the gateway before retrying"),
                    Some(
                        owned(
                            "the in-process Arc<AppConfig> is still on the pre-drift values; restart will pick up your TOML edit",
                        ),
                    ),
                ),
            )
        },
        _ => (true, internal_error_response()),
    }
}

/// Decides on a restart-required reload for the write of `candidate`
/// over `original_bytes`: compares `knob` in both, then as
/// [`restart_required_decision`].
pub fn handle_restart_required(knob: &str, original_bytes: &[u8], candidate: &DocumentMut) -> (r: (
    bool,
    Rejection,
))
    ensures
        (r.0, r.1@) == restart_decision(
            knob@,
            match toml_item_texts(original_bytes@) {
                None => None,
                Some(b) => Some(
                    text_in(b, dot_segments(knob@)) != text_in(doc_item_texts(*candidate), dot_segments(knob@)),
                ),
            },
        ),
{
    let changed = knob_in_delta(knob, original_bytes, candidate);
    restart_required_decision(knob, changed)
}

// ---------------------------------------------------------------------
// Laws
// ---------------------------------------------------------------------

proof fn lemma_count_one(ids: Seq<Option<Seq<char>>>, i: int, id: Seq<char>)
    requires
        0 <= i < ids.len(),
        ids[i] == Some(id),
        id_count(ids, id) == 1,
    ensures
        forall|j: int| 0 <= j < ids.len() && j != i ==> ids[j] != Some(id),
{
    assert forall|j: int| 0 <= j < ids.len() && j != i implies ids[j] != Some(id) by {
        if ids[j] == Some(id) {
            lemma_count_remove(ids, i, id);
            let k = if j < i { j } else { j - 1 };
            assert(ids.remove(i)[k] == Some(id));
            lemma_count_positive(ids.remove(i), k, id);
        }
    }
}

/// Creating application (or device) `id` among blocks `ids` is allowed
/// exactly when every block has a string id and none of them is `id`.
pub proof fn law_create_allowed(ids: Seq<Option<Seq<char>>>, id: Seq<char>, app: Seq<char>)
    ensures
        app_create_refusal(ids, id) is None <==> forall|j: int|
            0 <= j < ids.len() ==> (#[trigger] ids[j]) is Some && ids[j] != Some(id),
        dev_create_refusal(ids, id, app) is None <==> forall|j: int|
            0 <= j < ids.len() ==> (#[trigger] ids[j]) is Some && ids[j] != Some(id),
        (forall|j: int| 0 <= j < ids.len() ==> (#[trigger] ids[j]) is Some) && (exists|j: int|
            0 <= j < ids.len() && ids[j] == Some(id)) ==> app_create_refusal(ids, id) == Some(app_exists(id))
            && dev_create_refusal(ids, id, app) == Some(dev_exists(id, app)),
{
    lemma_first_hit(ids, id, Seek::MalformedOrMatch);
    if exists|j: int| 0 <= j < ids.len() && ids[j] == Some(id) {
        let j = choose|j: int| 0 <= j < ids.len() && ids[j] == Some(id);
        assert(hit(ids[j], id, Seek::MalformedOrMatch));
    }
    if first_hit(ids, id, Seek::MalformedOrMatch) is None {
        assert forall|j: int| 0 <= j < ids.len() implies (#[trigger] ids[j]) is Some && ids[j] != Some(id) by {
            assert(!hit(ids[j], id, Seek::MalformedOrMatch));
        }
    }
}

/// An edit of application (or device) `id` addresses block `i` only when
/// every block has a string id and `i` is the one block carrying `id`;
/// and when that is so, it addresses that block.
pub proof fn law_edit_target(ids: Seq<Option<Seq<char>>>, id: Seq<char>, app: Seq<char>)
    ensures
        app_edit_target(ids, id) matches Ok(i) ==> i < ids.len() && ids[i as int] == Some(id) && (forall|j: int|
            0 <= j < ids.len() ==> (#[trigger] ids[j]) is Some && (j != i ==> ids[j] != Some(id))),
        dev_edit_target(ids, id, app) matches Ok(i) ==> i < ids.len() && ids[i as int] == Some(id) && (forall|j: int|
            0 <= j < ids.len() ==> (#[trigger] ids[j]) is Some && (j != i ==> ids[j] != Some(id))),
        forall|i: int|
            0 <= i < ids.len() && ids[i] == Some(id) && (forall|j: int|
                0 <= j < ids.len() ==> (#[trigger] ids[j]) is Some && (j != i ==> ids[j] != Some(id)))
                ==> #[trigger] app_edit_target(ids, id) == Ok::<nat, RejectionModel>(i as nat)
                && dev_edit_target(ids, id, app) == Ok::<nat, RejectionModel>(i as nat),
{
    lemma_first_hit(ids, id, Seek::Malformed);
    lemma_first_hit(ids, id, Seek::Match);
    if let Ok(i) = app_edit_target(ids, id) {
        lemma_count_positive(ids, i as int, id);
        lemma_count_one(ids, i as int, id);
        assert forall|j: int| 0 <= j < ids.len() implies (#[trigger] ids[j]) is Some by {
            assert(!hit(ids[j], id, Seek::Malformed));
        }
    }
    if let Ok(i) = dev_edit_target(ids, id, app) {
        lemma_count_positive(ids, i as int, id);
        lemma_count_one(ids, i as int, id);
        assert forall|j: int| 0 <= j < ids.len() implies (#[trigger] ids[j]) is Some by {
            assert(!hit(ids[j], id, Seek::Malformed));
        }
    }
    assert forall|i: int|
        0 <= i < ids.len() && ids[i] == Some(id) && (forall|j: int|
            0 <= j < ids.len() ==> (#[trigger] ids[j]) is Some && (j != i ==> ids[j] != Some(id)))
        implies #[trigger] app_edit_target(ids, id) == Ok::<nat, RejectionModel>(i as nat)
            && dev_edit_target(ids, id, app) == Ok::<nat, RejectionModel>(i as nat) by {
        lemma_count_remove(ids, i, id);
        assert forall|j: int| 0 <= j < ids.remove(i).len() implies ids.remove(i)[j] != Some(id) by {
            if j < i {
                assert(ids.remove(i)[j] == ids[j]);
            } else {
                assert(ids.remove(i)[j] == ids[j + 1]);
            }
        }
        lemma_count_absent(ids.remove(i), id);
        if first_hit(ids, id, Seek::Malformed) is Some {
            let k = first_hit(ids, id, Seek::Malformed)->0;
            assert(ids[k as int] is Some);
        }
        let f = first_hit(ids, id, Seek::Match);
        if f is Some {
            let k = f->0 as int;
            if k != i {
                assert(ids[k] != Some(id));
            }
        } else {
            assert(!hit(ids[i], id, Seek::Match));
        }
    }
}

/// An application can be deleted exactly when it is configured (first
/// entry with the id), has no device and is not the only application; a
/// missing one is answered 404, the others 409.
pub proof fn law_delete_application(list: Seq<ChirpStackApplications>, id: Seq<char>)
    ensures
        first_with_key(list, id) is None ==> (delete_app_refusal(list, id) matches Some(r) && r.status == 404),
        first_with_key(list, id) matches Some(a) ==> (delete_app_refusal(list, id) is None <==> a.device_list@.len()
            == 0 && list.len() >= 2),
        first_with_key(list, id) is Some ==> (delete_app_refusal(list, id) matches Some(r) ==> r.status == 409),
{
}

/// A device edit is allowed exactly when the application is configured
/// and lists the device; otherwise it is answered 404.
pub proof fn law_device_precheck(list: Seq<ChirpStackApplications>, app: Seq<char>, dev: Seq<char>)
    ensures
        device_precheck_refusal(list, app, dev) is None <==> (first_with_key(list, app) matches Some(a) && exists|j: int|
            0 <= j < a.device_list@.len() && (#[trigger] a.device_list@[j]).device_id@ == dev),
        device_precheck_refusal(list, app, dev) matches Some(r) ==> r.status == 404,
{
    if let Some(a) = first_with_key(list, app) {
        if keys_of(a.device_list@).contains(dev) {
            let j = choose|j: int| 0 <= j < keys_of(a.device_list@).len() && keys_of(a.device_list@)[j] == dev;
            assert(a.device_list@[j].device_id@ == dev);
        }
        if exists|j: int| 0 <= j < a.device_list@.len() && (#[trigger] a.device_list@[j]).device_id@ == dev {
            let j = choose|j: int| 0 <= j < a.device_list@.len() && (#[trigger] a.device_list@[j]).device_id@ == dev;
            assert(keys_of(a.device_list@)[j] == dev);
        }
    }
}

/// A restart-required reload is rolled back unless the knob is known to
/// be unchanged by the write: rolled back with 500, or kept with 409.
pub proof fn law_restart_decision(knob: Seq<char>, changed: Option<bool>)
    ensures
        restart_decision(knob, changed).0 == (changed != Some(false)),
        restart_decision(knob, changed).1.status == if changed == Some(false) {
            409u16
        } else {
            500u16
        },
{
}

} // verus!
