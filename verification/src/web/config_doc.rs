//! The configuration document as the CRUD endpoints edit it: a
//! `toml_edit` document (which keeps the operator's comments and layout)
//! seen through its `[[application]]` blocks and their
//! `[[application.device]]` blocks.
//!
//! The document is modelled by what its tables hold ([`TomlValue`]);
//! each `toml_edit` call stands behind a wrapper that says what it does
//! to that model, and the edits are composed of those calls here.

use vstd::prelude::*;
use toml_edit::{ArrayOfTables, DocumentMut, Item, Table};
use crate::text::{chars_of, owned, str_eq, string_of};
use crate::web::api::MetricMappingRequest;

verus! {

/// The `toml_edit` document type.
#[verifier::external_type_specification]
#[verifier::external_body]
pub struct ExDocumentMut(DocumentMut);

/// The `toml_edit` table type.
#[verifier::external_type_specification]
#[verifier::external_body]
pub struct ExTable(Table);

/// The `toml_edit` array-of-tables type.
#[verifier::external_type_specification]
#[verifier::external_body]
pub struct ExArrayOfTables(ArrayOfTables);

/// The `toml_edit` item type.
#[verifier::external_type_specification]
#[verifier::external_body]
pub struct ExItem(Item);

/// What an item of the document holds, as the configuration logic reads
/// it.
pub enum TomlValue {
    /// `Item::Value(Value::String(..))`: a string.
    Str(Seq<char>),
    /// `Item::ArrayOfTables`: each table by its entries, in order.
    Tables(Seq<Map<Seq<char>, TomlValue>>),
    /// Any other value or table, by the text its `to_string` renders.
    Other(Seq<char>),
    /// `Item::None`: no item at all.
    Absent,
}

/// The entries of the document's root table: each key whose item is not
/// `Item::None`, with what that item holds.
pub uninterp spec fn doc_root(doc: DocumentMut) -> Map<Seq<char>, TomlValue>;

/// The entries of a table: each key whose item is not `Item::None`, with
/// what that item holds.
pub uninterp spec fn table_entries(t: Table) -> Map<Seq<char>, TomlValue>;

/// The tables of an array of tables, in order, each by its entries
/// (every element of a `toml_edit` array of tables is a table).
pub uninterp spec fn aot_tables(a: ArrayOfTables) -> Seq<Map<Seq<char>, TomlValue>>;

/// What an item holds.
pub uninterp spec fn item_value(item: Item) -> TomlValue;

/// `m` after the item under `k` is set to one holding `v` (an absent
/// item leaves no entry).
pub open spec fn put(m: Map<Seq<char>, TomlValue>, k: Seq<char>, v: TomlValue) -> Map<Seq<char>, TomlValue> {
    if v is Absent {
        m.remove(k)
    } else {
        m.insert(k, v)
    }
}

/// A table with no entries.
pub open spec fn no_entries() -> Map<Seq<char>, TomlValue> {
    Map::empty()
}

/// An array with no tables.
pub open spec fn no_tables() -> Seq<Map<Seq<char>, TomlValue>> {
    Seq::empty()
}

/// `Table::get` on the document's root table.
#[verifier::external_body]
fn root_get<'a>(doc: &'a DocumentMut, key: &str) -> (r: Option<&'a Item>)
    ensures
        r is Some == doc_root(*doc).contains_key(key@),
        r matches Some(i) ==> item_value(*i) == doc_root(*doc)[key@],
        r matches Some(i) ==> item_texts(*i) == sub_path(doc_item_texts(*doc), seq![key@]),
        r is None ==> forall|p: Seq<Seq<char>>| !(#[trigger] doc_item_texts(*doc).contains_key(seq![key@] + p)),
{
    doc.get(key)
}

/// `Table::get_mut` on the document's root table: the item under `key`,
/// which then stands in the document as the caller leaves it.
#[verifier::external_body]
fn root_get_mut<'a>(doc: &'a mut DocumentMut, key: &str) -> (r: Option<&'a mut Item>)
    ensures
        r is Some == doc_root(*old(doc)).contains_key(key@),
        r is Some ==> item_value(*r.unwrap()) == doc_root(*old(doc))[key@],
        r is Some ==> doc_root(*final(doc)) == put(doc_root(*old(doc)), key@, item_value(*final(r.unwrap()))),
        r is None ==> *final(doc) == *old(doc),
{
    doc.get_mut(key)
}

/// `Table::insert` on the document's root table.
#[verifier::external_body]
fn root_insert(doc: &mut DocumentMut, key: &str, item: Item)
    ensures
        doc_root(*final(doc)) == put(doc_root(*old(doc)), key@, item_value(item)),
{
    doc.insert(key, item);
}

/// `Table::get`.
#[verifier::external_body]
fn table_get<'a>(t: &'a Table, key: &str) -> (r: Option<&'a Item>)
    ensures
        r is Some == table_entries(*t).contains_key(key@),
        r matches Some(i) ==> item_value(*i) == table_entries(*t)[key@],
{
    t.get(key)
}

/// `Table::get_mut`: the item under `key`, which then stands in the
/// table as the caller leaves it.
#[verifier::external_body]
fn table_get_mut<'a>(t: &'a mut Table, key: &str) -> (r: Option<&'a mut Item>)
    ensures
        r is Some == table_entries(*old(t)).contains_key(key@),
        r is Some ==> item_value(*r.unwrap()) == table_entries(*old(t))[key@],
        r is Some ==> table_entries(*final(t)) == put(table_entries(*old(t)), key@, item_value(*final(r.unwrap()))),
        r is None ==> *final(t) == *old(t),
{
    t.get_mut(key)
}

/// `Table::insert`.
#[verifier::external_body]
fn table_insert(t: &mut Table, key: &str, item: Item)
    ensures
        table_entries(*final(t)) == put(table_entries(*old(t)), key@, item_value(item)),
{
    t.insert(key, item);
}

/// `Table::remove`.
#[verifier::external_body]
fn table_remove(t: &mut Table, key: &str)
    ensures
        table_entries(*final(t)) == table_entries(*old(t)).remove(key@),
{
    t.remove(key);
}

/// `Table::new`: an empty table.
#[verifier::external_body]
fn new_table() -> (r: Table)
    ensures
        table_entries(r) == no_entries(),
{
    Table::new()
}

/// `Item::as_array_of_tables`.
#[verifier::external_body]
fn item_as_tables(item: &Item) -> (r: Option<&ArrayOfTables>)
    ensures
        r is Some == item_value(*item) is Tables,
        r matches Some(a) ==> item_value(*item) == TomlValue::Tables(aot_tables(*a)),
{
    item.as_array_of_tables()
}

/// `Item::as_array_of_tables_mut`: the array, which then stands in the
/// item as the caller leaves it.
#[verifier::external_body]
fn item_as_tables_mut(item: &mut Item) -> (r: Option<&mut ArrayOfTables>)
    ensures
        r is Some == item_value(*old(item)) is Tables,
        r is Some ==> item_value(*old(item)) == TomlValue::Tables(aot_tables(*r.unwrap())),
        r is Some ==> item_value(*final(item)) == TomlValue::Tables(aot_tables(*final(r.unwrap()))),
        r is None ==> *final(item) == *old(item),
{
    item.as_array_of_tables_mut()
}

/// `Item::as_str`.
#[verifier::external_body]
fn item_as_str(item: &Item) -> (r: Option<&str>)
    ensures
        r is Some == item_value(*item) is Str,
        r matches Some(s) ==> item_value(*item) == TomlValue::Str(s@),
{
    item.as_str()
}

/// `toml_edit::value` of a string: an item holding `s`.
#[verifier::external_body]
fn str_item(s: &str) -> (r: Item)
    ensures
        item_value(r) == TomlValue::Str(s@),
{
    toml_edit::value(s)
}

/// `Item::ArrayOfTables`: an item holding `a`.
#[verifier::external_body]
fn tables_item(a: ArrayOfTables) -> (r: Item)
    ensures
        item_value(r) == TomlValue::Tables(aot_tables(a)),
{
    Item::ArrayOfTables(a)
}

/// `ArrayOfTables::new`: an empty array.
#[verifier::external_body]
fn new_array() -> (r: ArrayOfTables)
    ensures
        aot_tables(r) == no_tables(),
{
    ArrayOfTables::new()
}

/// `ArrayOfTables::len`.
#[verifier::external_body]
fn tables_len(a: &ArrayOfTables) -> (r: usize)
    ensures
        r == aot_tables(*a).len(),
{
    a.len()
}

/// `ArrayOfTables::get`.
#[verifier::external_body]
fn tables_get(a: &ArrayOfTables, idx: usize) -> (r: Option<&Table>)
    ensures
        r is Some == (idx < aot_tables(*a).len()),
        r matches Some(t) ==> table_entries(*t) == aot_tables(*a)[idx as int],
{
    a.get(idx)
}

/// `ArrayOfTables::get_mut`: the table, which then stands in the array
/// as the caller leaves it.
#[verifier::external_body]
fn tables_get_mut(a: &mut ArrayOfTables, idx: usize) -> (r: Option<&mut Table>)
    ensures
        r is Some == (idx < aot_tables(*old(a)).len()),
        r is Some ==> table_entries(*r.unwrap()) == aot_tables(*old(a))[idx as int],
        r is Some ==> aot_tables(*final(a)) == aot_tables(*old(a)).update(
            idx as int,
            table_entries(*final(r.unwrap())),
        ),
        r is None ==> *final(a) == *old(a),
{
    a.get_mut(idx)
}

/// `ArrayOfTables::push`: `t` becomes the last table.
#[verifier::external_body]
fn array_push(a: &mut ArrayOfTables, t: Table)
    ensures
        aot_tables(*final(a)) == aot_tables(*old(a)).push(table_entries(t)),
{
    a.push(t);
}

/// `ArrayOfTables::remove` (which panics past the end).
#[verifier::external_body]
fn tables_remove(a: &mut ArrayOfTables, idx: usize)
    requires
        idx < aot_tables(*old(a)).len(),
    ensures
        aot_tables(*final(a)) == aot_tables(*old(a)).remove(idx as int),
{
    a.remove(idx);
}

/// What the TOML document written in `bytes` holds, by item path (see
/// [`doc_item_texts`]); `None` when the bytes are not UTF-8 or not TOML.
pub uninterp spec fn toml_item_texts(bytes: Seq<u8>) -> Option<Map<Seq<Seq<char>>, Seq<char>>>;

/// `DocumentMut`'s `FromStr`, on UTF-8 bytes; `None` when the bytes are
/// not UTF-8 or not TOML. Of the document, its items are stated.
#[verifier::external_body]
pub(crate) fn parse_document(bytes: &[u8]) -> (r: Option<DocumentMut>)
    ensures
        r is Some == toml_item_texts(bytes@) is Some,
        r matches Some(d) ==> toml_item_texts(bytes@) == Some(doc_item_texts(d)),
{
    std::str::from_utf8(bytes).ok()?.parse::<DocumentMut>().ok()
}

// ---------------------------------------------------------------------
// The configuration schema over the model
// ---------------------------------------------------------------------

/// The array of tables under `key` in `m`, if that is what it holds.
pub open spec fn tables_at(m: Map<Seq<char>, TomlValue>, key: Seq<char>) -> Option<Seq<Map<Seq<char>, TomlValue>>> {
    if m.contains_key(key) {
        match m[key] {
            TomlValue::Tables(ts) => Some(ts),
            _ => None,
        }
    } else {
        None
    }
}

/// The string under `key` in `m`, if that is what it holds.
pub open spec fn str_at(m: Map<Seq<char>, TomlValue>, key: Seq<char>) -> Option<Seq<char>> {
    if m.contains_key(key) {
        match m[key] {
            TomlValue::Str(s) => Some(s),
            _ => None,
        }
    } else {
        None
    }
}

/// The tables under `key` in `m`, or none when it holds no array of
/// tables.
pub open spec fn tables_or_empty(m: Map<Seq<char>, TomlValue>, key: Seq<char>) -> Seq<Map<Seq<char>, TomlValue>> {
    match tables_at(m, key) {
        Some(ts) => ts,
        None => Seq::empty(),
    }
}

/// The `[[application]]` tables of a root table.
pub open spec fn apps_of(root: Map<Seq<char>, TomlValue>) -> Seq<Map<Seq<char>, TomlValue>> {
    tables_or_empty(root, "application"@)
}

/// The `[[application.device]]` tables of an application table.
pub open spec fn devs_of(app: Map<Seq<char>, TomlValue>) -> Seq<Map<Seq<char>, TomlValue>> {
    tables_or_empty(app, "device"@)
}

/// `root` with `apps` as its `[[application]]` tables.
pub open spec fn with_apps(root: Map<Seq<char>, TomlValue>, apps: Seq<Map<Seq<char>, TomlValue>>) -> Map<
    Seq<char>,
    TomlValue,
> {
    root.insert("application"@, TomlValue::Tables(apps))
}

/// `app` with `devs` as its `[[application.device]]` tables.
pub open spec fn with_devs(app: Map<Seq<char>, TomlValue>, devs: Seq<Map<Seq<char>, TomlValue>>) -> Map<
    Seq<char>,
    TomlValue,
> {
    app.insert("device"@, TomlValue::Tables(devs))
}

/// A new `[[application]]` table.
pub open spec fn app_block(id: Seq<char>, name: Seq<char>) -> Map<Seq<char>, TomlValue> {
    no_entries().insert("application_name"@, TomlValue::Str(name)).insert("application_id"@, TomlValue::Str(id))
}

/// The row of `[[application.device.read_metric]]` written for `m`:
/// name, ChirpStack key and type, and the unit where given.
pub open spec fn metric_row(m: MetricMappingRequest) -> Map<Seq<char>, TomlValue> {
    let base = no_entries().insert("metric_name"@, TomlValue::Str(m.metric_name@)).insert(
        "chirpstack_metric_name"@,
        TomlValue::Str(m.chirpstack_metric_name@),
    ).insert("metric_type"@, TomlValue::Str(m.metric_type@));
    match m.metric_unit {
        Some(u) => base.insert("metric_unit"@, TomlValue::Str(u@)),
        None => base,
    }
}

/// The rows written for a metric list, in order.
pub open spec fn metric_rows(list: Seq<MetricMappingRequest>) -> Seq<Map<Seq<char>, TomlValue>> {
    list.map_values(|m: MetricMappingRequest| metric_row(m))
}

/// `t` with `rows` as its `read_metric` tables when there are any.
pub open spec fn with_metrics(t: Map<Seq<char>, TomlValue>, rows: Seq<Map<Seq<char>, TomlValue>>) -> Map<
    Seq<char>,
    TomlValue,
> {
    if rows.len() > 0 {
        t.insert("read_metric"@, TomlValue::Tables(rows))
    } else {
        t
    }
}

/// A new `[[application.device]]` table.
pub open spec fn device_block(id: Seq<char>, name: Seq<char>, rows: Seq<Map<Seq<char>, TomlValue>>) -> Map<
    Seq<char>,
    TomlValue,
> {
    with_metrics(
        no_entries().insert("device_id"@, TomlValue::Str(id)).insert("device_name"@, TomlValue::Str(name)),
        rows,
    )
}

/// A device table renamed to `name` with its metric tables replaced by
/// `rows`; its other entries (such as its commands) kept.
pub open spec fn renamed_device(dev: Map<Seq<char>, TomlValue>, name: Seq<char>, rows: Seq<Map<Seq<char>, TomlValue>>) -> Map<
    Seq<char>,
    TomlValue,
> {
    with_metrics(dev.insert("device_name"@, TomlValue::Str(name)).remove("read_metric"@), rows)
}

/// Whether the document's `application` key holds an array of tables.
pub closed spec fn config_app_array(doc: DocumentMut) -> bool {
    tables_at(doc_root(doc), "application"@) is Some
}

/// The `[[application]]` blocks, in order, each by its `application_id`
/// when that is a string. Empty when there is no such array.
pub closed spec fn config_app_ids(doc: DocumentMut) -> Seq<Option<Seq<char>>> {
    apps_of(doc_root(doc)).map_values(|t: Map<Seq<char>, TomlValue>| str_at(t, "application_id"@))
}

/// The `[[application]]` blocks, in order, each by its
/// `application_name` when that is a string.
pub closed spec fn config_app_names(doc: DocumentMut) -> Seq<Option<Seq<char>>> {
    apps_of(doc_root(doc)).map_values(|t: Map<Seq<char>, TomlValue>| str_at(t, "application_name"@))
}

/// The `[[application.device]]` blocks of one application table by the
/// string under `key`, or `None` when it has no device array.
pub open spec fn dev_strings(app: Map<Seq<char>, TomlValue>, key: Seq<char>) -> Option<Seq<Option<Seq<char>>>> {
    match tables_at(app, "device"@) {
        Some(ds) => Some(ds.map_values(|d: Map<Seq<char>, TomlValue>| str_at(d, key))),
        None => None,
    }
}

/// Per `[[application]]` block, in order: its device blocks by
/// `device_id`, or `None` when it has no device array.
pub closed spec fn config_device_ids(doc: DocumentMut) -> Seq<Option<Seq<Option<Seq<char>>>>> {
    apps_of(doc_root(doc)).map_values(|t: Map<Seq<char>, TomlValue>| dev_strings(t, "device_id"@))
}

/// Per `[[application]]` block, in order: its device blocks by
/// `device_name`, or `None` when it has no device array.
pub closed spec fn config_device_names(doc: DocumentMut) -> Seq<Option<Seq<Option<Seq<char>>>>> {
    apps_of(doc_root(doc)).map_values(|t: Map<Seq<char>, TomlValue>| dev_strings(t, "device_name"@))
}

/// The device entries of one block, or none when it has no device array.
pub open spec fn or_empty(o: Option<Seq<Option<Seq<char>>>>) -> Seq<Option<Seq<char>>> {
    match o {
        Some(v) => v,
        None => Seq::empty(),
    }
}

/// `Some(s@)` for `Some(s)`, element-wise.
pub open spec fn id_views(ids: Seq<Option<String>>) -> Seq<Option<Seq<char>>> {
    ids.map_values(
        |o: Option<String>|
            match o {
                Some(s) => Some(s@),
                None => None,
            },
    )
}

proof fn lemma_keys_distinct()
    ensures
        "application"@ != "application_id"@,
        "application"@ != "application_name"@,
        "application_id"@ != "application_name"@,
        "device"@ != "application_id"@,
        "device"@ != "application_name"@,
        "device_id"@ != "device_name"@,
        "device_id"@ != "read_metric"@,
        "device_name"@ != "read_metric"@,
{
    reveal_strlit("application");
    reveal_strlit("application_id");
    reveal_strlit("application_name");
    reveal_strlit("device");
    reveal_strlit("device_id");
    reveal_strlit("device_name");
    reveal_strlit("read_metric");
    assert("application"@.len() != "application_id"@.len());
    assert("application"@.len() != "application_name"@.len());
    assert("application_id"@.len() != "application_name"@.len());
    assert("device"@.len() != "application_id"@.len());
    assert("device"@.len() != "application_name"@.len());
    assert("device_id"@.len() != "device_name"@.len());
    assert("device_id"@.len() != "read_metric"@.len());
    assert("device_name"@[0] != "read_metric"@[0]);
}

// ---------------------------------------------------------------------
// Reading and editing the blocks
// ---------------------------------------------------------------------

/// The `[[application]]` array of tables, when the document has one.
fn app_array(doc: &DocumentMut) -> (r: Option<&ArrayOfTables>)
    ensures
        r is Some == config_app_array(*doc),
        r matches Some(a) ==> aot_tables(*a) == apps_of(doc_root(*doc)),
{
    match root_get(doc, "application") {
        Some(item) => item_as_tables(item),
        None => None,
    }
}

/// The string under `key` in each table of `a`, in order.
fn strings_under(a: &ArrayOfTables, key: &str) -> (r: Vec<Option<String>>)
    ensures
        id_views(r@) == aot_tables(*a).map_values(|t: Map<Seq<char>, TomlValue>| str_at(t, key@)),
{
    let ghost ts = aot_tables(*a);
    let n = tables_len(a);
    let mut out: Vec<Option<String>> = Vec::new();
    let mut i: usize = 0;
    proof {
        assert(id_views(out@) =~= ts.take(0).map_values(|t: Map<Seq<char>, TomlValue>| str_at(t, key@)));
    }
    while i < n
        invariant
            i <= n,
            n == ts.len(),
            ts == aot_tables(*a),
            id_views(out@) == ts.take(i as int).map_values(|t: Map<Seq<char>, TomlValue>| str_at(t, key@)),
        decreases n - i,
    {
        let v: Option<String> = match tables_get(a, i) {
            Some(t) => match table_get(t, key) {
                Some(item) => match item_as_str(item) {
                    Some(s) => Some(owned(s)),
                    None => None,
                },
                None => None,
            },
            None => None,
        };
        let ghost before = out@;
        let ghost vv: Option<Seq<char>> = if v is Some {
            Some(v->0@)
        } else {
            None
        };
        proof {
            assert(vv == str_at(ts[i as int], key@));
        }
        out.push(v);
        proof {
            assert(id_views(out@) =~= id_views(before).push(vv));
            assert(ts.take(i + 1).map_values(|t: Map<Seq<char>, TomlValue>| str_at(t, key@)) =~= ts.take(
                i as int,
            ).map_values(|t: Map<Seq<char>, TomlValue>| str_at(t, key@)).push(str_at(ts[i as int], key@)));
        }
        i = i + 1;
    }
    proof {
        assert(ts.take(n as int) =~= ts);
    }
    out
}

/// Reads `application_id` of each `[[application]]` block; `None` when
/// the document has no such array.
pub(crate) fn application_ids(doc: &DocumentMut) -> (r: Option<Vec<Option<String>>>)
    ensures
        r is Some == config_app_array(*doc),
        r matches Some(v) ==> id_views(v@) == config_app_ids(*doc),
        config_app_names(*doc).len() == config_app_ids(*doc).len(),
        config_device_ids(*doc).len() == config_app_ids(*doc).len(),
        config_device_names(*doc).len() == config_app_ids(*doc).len(),
        r is None ==> config_app_ids(*doc).len() == 0,
{
    match app_array(doc) {
        Some(a) => Some(strings_under(a, "application_id")),
        None => None,
    }
}

/// Reads `device_id` of each `[[application.device]]` block under the
/// `[[application]]` block at `app_idx`; `None` when that block has no
/// device array.
pub(crate) fn device_ids(doc: &DocumentMut, app_idx: usize) -> (r: Option<Vec<Option<String>>>)
    requires
        config_app_array(*doc),
        app_idx < config_app_ids(*doc).len(),
    ensures
        r is Some == config_device_ids(*doc)[app_idx as int] is Some,
        r matches Some(v) ==> Some(id_views(v@)) == config_device_ids(*doc)[app_idx as int],
        r matches Some(v) ==> (config_device_names(*doc)[app_idx as int] matches Some(ns) && ns.len() == v@.len()),
{
    let apps = match app_array(doc) {
        Some(a) => a,
        None => {
            return None;
        },
    };
    let t = match tables_get(apps, app_idx) {
        Some(t) => t,
        None => {
            return None;
        },
    };
    let item = match table_get(t, "device") {
        Some(i) => i,
        None => {
            return None;
        },
    };
    proof {
        let app = apps_of(doc_root(*doc))[app_idx as int];
        assert(config_device_ids(*doc)[app_idx as int] == dev_strings(app, "device_id"@));
        assert(config_device_names(*doc)[app_idx as int] == dev_strings(app, "device_name"@));
    }
    match item_as_tables(item) {
        Some(devs) => {
            let v = strings_under(devs, "device_id");
            proof {
                assert(id_views(v@).len() == v@.len());
            }
            Some(v)
        },
        None => None,
    }
}

/// Appends `[[application]]` with `application_name` and
/// `application_id`, creating the array when the document has no
/// `application` key; `false`, with the document unchanged, when that
/// key holds something else.
pub(crate) fn push_application(doc: &mut DocumentMut, id: &str, name: &str) -> (r: bool)
    ensures
        r == (config_app_array(*old(doc)) || !doc_root(*old(doc)).contains_key("application"@)),
        r ==> doc_root(*final(doc)) == with_apps(
            doc_root(*old(doc)),
            apps_of(doc_root(*old(doc))).push(app_block(id@, name@)),
        ),
        r ==> config_app_array(*final(doc)),
        r ==> config_app_ids(*final(doc)) == config_app_ids(*old(doc)).push(Some(id@)),
        r ==> config_app_names(*final(doc)) == config_app_names(*old(doc)).push(Some(name@)),
        r ==> config_device_ids(*final(doc)) == config_device_ids(*old(doc)).push(None),
        r ==> config_device_names(*final(doc)) == config_device_names(*old(doc)).push(None),
        !r ==> *final(doc) == *old(doc),
{
    proof {
        lemma_keys_distinct();
    }
    let ghost root0 = doc_root(*doc);
    let present = match root_get(doc, "application") {
        Some(item) => {
            if item_as_tables(item).is_none() {
                return false;
            }
            true
        },
        None => false,
    };
    let mut t = new_table();
    table_insert(&mut t, "application_name", str_item(name));
    table_insert(&mut t, "application_id", str_item(id));
    proof {
        assert(table_entries(t) =~= app_block(id@, name@));
    }
    if !present {
        root_insert(doc, "application", tables_item(new_array()));
    }
    proof {
        assert(apps_of(doc_root(*doc)) == apps_of(root0));
    }
    match root_get_mut(doc, "application") {
        Some(item) => match item_as_tables_mut(item) {
            Some(arr) => {
                array_push(arr, t);
            },
            None => {},
        },
        None => {},
    }
    proof {
        let apps = apps_of(root0).push(app_block(id@, name@));
        assert(doc_root(*doc) =~= with_apps(root0, apps));
        assert(apps_of(doc_root(*doc)) == apps);
        assert(config_app_ids(*doc) =~= config_app_ids(*old(doc)).push(Some(id@)));
        assert(config_app_names(*doc) =~= config_app_names(*old(doc)).push(Some(name@)));
        assert(config_device_ids(*doc) =~= config_device_ids(*old(doc)).push(None));
        assert(config_device_names(*doc) =~= config_device_names(*old(doc)).push(None));
    }
    true
}

/// Sets `application_name` of the `[[application]]` block at `idx`.
pub(crate) fn set_application_name(doc: &mut DocumentMut, idx: usize, name: &str)
    requires
        config_app_array(*old(doc)),
        idx < config_app_ids(*old(doc)).len(),
    ensures
        doc_root(*final(doc)) == with_apps(
            doc_root(*old(doc)),
            apps_of(doc_root(*old(doc))).update(
                idx as int,
                apps_of(doc_root(*old(doc)))[idx as int].insert("application_name"@, TomlValue::Str(name@)),
            ),
        ),
        config_app_array(*final(doc)),
        config_app_ids(*final(doc)) == config_app_ids(*old(doc)),
        config_app_names(*final(doc)) == config_app_names(*old(doc)).update(idx as int, Some(name@)),
        config_device_ids(*final(doc)) == config_device_ids(*old(doc)),
        config_device_names(*final(doc)) == config_device_names(*old(doc)),
{
    proof {
        lemma_keys_distinct();
    }
    let ghost root0 = doc_root(*doc);
    let v = str_item(name);
    match root_get_mut(doc, "application") {
        Some(item) => match item_as_tables_mut(item) {
            Some(apps) => match tables_get_mut(apps, idx) {
                Some(t) => {
                    table_insert(t, "application_name", v);
                },
                None => {},
            },
            None => {},
        },
        None => {},
    }
    proof {
        let apps = apps_of(root0);
        let t1 = apps[idx as int].insert("application_name"@, TomlValue::Str(name@));
        assert(doc_root(*doc) =~= with_apps(root0, apps.update(idx as int, t1)));
        assert(apps_of(doc_root(*doc)) == apps.update(idx as int, t1));
        assert(config_app_ids(*doc) =~= config_app_ids(*old(doc)));
        assert(config_app_names(*doc) =~= config_app_names(*old(doc)).update(idx as int, Some(name@)));
        assert(config_device_ids(*doc) =~= config_device_ids(*old(doc)));
        assert(config_device_names(*doc) =~= config_device_names(*old(doc)));
    }
}

/// Removes the `[[application]]` block at `idx`, with its devices.
pub(crate) fn remove_application(doc: &mut DocumentMut, idx: usize)
    requires
        config_app_array(*old(doc)),
        idx < config_app_ids(*old(doc)).len(),
    ensures
        doc_root(*final(doc)) == with_apps(doc_root(*old(doc)), apps_of(doc_root(*old(doc))).remove(idx as int)),
        config_app_array(*final(doc)),
        config_app_ids(*final(doc)) == config_app_ids(*old(doc)).remove(idx as int),
        config_app_names(*final(doc)) == config_app_names(*old(doc)).remove(idx as int),
        config_device_ids(*final(doc)) == config_device_ids(*old(doc)).remove(idx as int),
        config_device_names(*final(doc)) == config_device_names(*old(doc)).remove(idx as int),
{
    let ghost root0 = doc_root(*doc);
    match root_get_mut(doc, "application") {
        Some(item) => match item_as_tables_mut(item) {
            Some(apps) => {
                tables_remove(apps, idx);
            },
            None => {},
        },
        None => {},
    }
    proof {
        let apps = apps_of(root0).remove(idx as int);
        assert(doc_root(*doc) =~= with_apps(root0, apps));
        assert(apps_of(doc_root(*doc)) == apps);
        assert(config_app_ids(*doc) =~= config_app_ids(*old(doc)).remove(idx as int));
        assert(config_app_names(*doc) =~= config_app_names(*old(doc)).remove(idx as int));
        assert(config_device_ids(*doc) =~= config_device_ids(*old(doc)).remove(idx as int));
        assert(config_device_names(*doc) =~= config_device_names(*old(doc)).remove(idx as int));
    }
}

/// The `[[application.device.read_metric]]` array for `list`, in order;
/// `metric_unit` only where given.
pub fn read_metric_array(list: &Vec<MetricMappingRequest>) -> (r: ArrayOfTables)
    ensures
        aot_tables(r) == metric_rows(list@),
{
    let mut arr = new_array();
    let mut i: usize = 0;
    proof {
        assert(aot_tables(arr) =~= metric_rows(list@.take(0)));
    }
    while i < list.len()
        invariant
            i <= list.len(),
            aot_tables(arr) == metric_rows(list@.take(i as int)),
        decreases list.len() - i,
    {
        let m = &list[i];
        let mut row = new_table();
        table_insert(&mut row, "metric_name", str_item(m.metric_name.as_str()));
        table_insert(&mut row, "chirpstack_metric_name", str_item(m.chirpstack_metric_name.as_str()));
        table_insert(&mut row, "metric_type", str_item(m.metric_type.as_str()));
        match &m.metric_unit {
            Some(unit) => table_insert(&mut row, "metric_unit", str_item(unit.as_str())),
            None => {},
        }
        array_push(&mut arr, row);
        proof {
            assert(table_entries(row) =~= metric_row(*m));
            assert(metric_rows(list@.take(i + 1)) =~= metric_rows(list@.take(i as int)).push(
                metric_row(list@[i as int]),
            ));
        }
        i = i + 1;
    }
    proof {
        assert(list@.take(list.len() as int) =~= list@);
    }
    arr
}

/// A new `[[application.device]]` table: id, name and, when `list` is
/// not empty, its `read_metric` array.
pub fn device_table(device_id: &str, device_name: &str, list: &Vec<MetricMappingRequest>) -> (r: Table)
    ensures
        table_entries(r) == device_block(device_id@, device_name@, metric_rows(list@)),
        str_at(table_entries(r), "device_id"@) == Some(device_id@),
        str_at(table_entries(r), "device_name"@) == Some(device_name@),
{
    proof {
        lemma_keys_distinct();
    }
    let mut t = new_table();
    table_insert(&mut t, "device_id", str_item(device_id));
    table_insert(&mut t, "device_name", str_item(device_name));
    if list.len() > 0 {
        table_insert(&mut t, "read_metric", tables_item(read_metric_array(list)));
    }
    proof {
        assert(table_entries(t) =~= device_block(device_id@, device_name@, metric_rows(list@)));
    }
    t
}

/// Appends `table` to the `[[application.device]]` array of the block
/// at `app_idx`, creating the array when the block has no `device` key;
/// `false`, with the document unchanged, when that key holds something
/// else.
pub(crate) fn push_device(doc: &mut DocumentMut, app_idx: usize, table: Table) -> (r: bool)
    requires
        config_app_array(*old(doc)),
        app_idx < config_app_ids(*old(doc)).len(),
    ensures
        r == (config_device_ids(*old(doc))[app_idx as int] is Some || !apps_of(doc_root(*old(doc)))[app_idx as int].contains_key("device"@)),
        r ==> doc_root(*final(doc)) == with_apps(
            doc_root(*old(doc)),
            apps_of(doc_root(*old(doc))).update(
                app_idx as int,
                with_devs(
                    apps_of(doc_root(*old(doc)))[app_idx as int],
                    devs_of(apps_of(doc_root(*old(doc)))[app_idx as int]).push(table_entries(table)),
                ),
            ),
        ),
        r ==> config_app_array(*final(doc)) && config_app_ids(*final(doc)) == config_app_ids(*old(doc)),
        r ==> config_app_names(*final(doc)) == config_app_names(*old(doc)),
        r ==> config_device_ids(*final(doc)) == config_device_ids(*old(doc)).update(
            app_idx as int,
            Some(or_empty(config_device_ids(*old(doc))[app_idx as int]).push(str_at(table_entries(table), "device_id"@))),
        ),
        r ==> config_device_names(*final(doc)) == config_device_names(*old(doc)).update(
            app_idx as int,
            Some(
                or_empty(config_device_names(*old(doc))[app_idx as int]).push(
                    str_at(table_entries(table), "device_name"@),
                ),
            ),
        ),
        !r ==> *final(doc) == *old(doc),
{
    proof {
        lemma_keys_distinct();
    }
    let ghost root0 = doc_root(*doc);
    let ghost app0 = apps_of(root0)[app_idx as int];
    let ghost entry = table_entries(table);
    let present = match app_array(doc) {
        Some(apps) => match tables_get(apps, app_idx) {
            Some(t) => match table_get(t, "device") {
                Some(item) => {
                    if item_as_tables(item).is_none() {
                        return false;
                    }
                    true
                },
                None => false,
            },
            None => false,
        },
        None => false,
    };
    match root_get_mut(doc, "application") {
        Some(item) => match item_as_tables_mut(item) {
            Some(apps) => match tables_get_mut(apps, app_idx) {
                Some(app) => {
                    if !present {
                        table_insert(app, "device", tables_item(new_array()));
                    }
                    proof {
                        assert(devs_of(table_entries(*app)) == devs_of(app0));
                    }
                    match table_get_mut(app, "device") {
                        Some(ditem) => match item_as_tables_mut(ditem) {
                            Some(devs) => {
                                array_push(devs, table);
                            },
                            None => {},
                        },
                        None => {},
                    }
                    proof {
                        assert(table_entries(*app) =~= with_devs(app0, devs_of(app0).push(entry)));
                    }
                },
                None => {},
            },
            None => {},
        },
        None => {},
    }
    proof {
        let devs1 = devs_of(app0).push(table_entries(table));
        let app1 = with_devs(app0, devs1);
        let apps1 = apps_of(root0).update(app_idx as int, app1);
        assert(doc_root(*doc) =~= with_apps(root0, apps1));
        assert(apps_of(doc_root(*doc)) == apps1);
        assert(dev_strings(app1, "device_id"@) == Some(devs1.map_values(|d: Map<Seq<char>, TomlValue>| str_at(d, "device_id"@))));
        assert(devs1.map_values(|d: Map<Seq<char>, TomlValue>| str_at(d, "device_id"@)) =~= or_empty(
            config_device_ids(*old(doc))[app_idx as int],
        ).push(str_at(table_entries(table), "device_id"@)));
        assert(devs1.map_values(|d: Map<Seq<char>, TomlValue>| str_at(d, "device_name"@)) =~= or_empty(
            config_device_names(*old(doc))[app_idx as int],
        ).push(str_at(table_entries(table), "device_name"@)));
        assert(config_app_ids(*doc) =~= config_app_ids(*old(doc)));
        assert(config_app_names(*doc) =~= config_app_names(*old(doc)));
        assert(config_device_ids(*doc) =~= config_device_ids(*old(doc)).update(
            app_idx as int,
            Some(or_empty(config_device_ids(*old(doc))[app_idx as int]).push(str_at(table_entries(table), "device_id"@))),
        ));
        assert(config_device_names(*doc) =~= config_device_names(*old(doc)).update(
            app_idx as int,
            Some(or_empty(config_device_names(*old(doc))[app_idx as int]).push(str_at(table_entries(table), "device_name"@))),
        ));
    }
    true
}

/// The device tables of the application block at `a` with the one at
/// `d` replaced by `dev`.
pub open spec fn with_device(root: Map<Seq<char>, TomlValue>, a: int, d: int, dev: Map<Seq<char>, TomlValue>) -> Map<
    Seq<char>,
    TomlValue,
> {
    let app = apps_of(root)[a];
    with_apps(root, apps_of(root).update(a, with_devs(app, devs_of(app).update(d, dev))))
}

/// The device table at `d` of the application block at `a`.
pub open spec fn device_at(root: Map<Seq<char>, TomlValue>, a: int, d: int) -> Map<Seq<char>, TomlValue> {
    devs_of(apps_of(root)[a])[d]
}

/// In the `[[application.device]]` block at `dev_idx` under the block at
/// `app_idx`: sets `device_name`, removes `read_metric` and, when
/// `metrics` is not empty, writes it anew. Other keys of the block (such
/// as its commands) are left alone.
pub(crate) fn replace_device(
    doc: &mut DocumentMut,
    app_idx: usize,
    dev_idx: usize,
    name: &str,
    metrics: &Vec<MetricMappingRequest>,
)
    requires
        config_app_array(*old(doc)),
        app_idx < config_app_ids(*old(doc)).len(),
        config_device_ids(*old(doc))[app_idx as int] matches Some(ids) && dev_idx < ids.len(),
    ensures
        doc_root(*final(doc)) == with_device(
            doc_root(*old(doc)),
            app_idx as int,
            dev_idx as int,
            renamed_device(device_at(doc_root(*old(doc)), app_idx as int, dev_idx as int), name@, metric_rows(metrics@)),
        ),
        config_app_array(*final(doc)),
        config_app_ids(*final(doc)) == config_app_ids(*old(doc)),
        config_device_ids(*final(doc)) == config_device_ids(*old(doc)),
        config_app_names(*final(doc)) == config_app_names(*old(doc)),
        config_device_names(*final(doc)) == config_device_names(*old(doc)).update(
            app_idx as int,
            Some(or_empty(config_device_names(*old(doc))[app_idx as int]).update(dev_idx as int, Some(name@))),
        ),
{
    proof {
        lemma_keys_distinct();
    }
    let ghost root0 = doc_root(*doc);
    let v = str_item(name);
    let m = if metrics.len() > 0 {
        Some(tables_item(read_metric_array(metrics)))
    } else {
        None
    };
    match root_get_mut(doc, "application") {
        Some(item) => match item_as_tables_mut(item) {
            Some(apps) => match tables_get_mut(apps, app_idx) {
                Some(app) => match table_get_mut(app, "device") {
                    Some(ditem) => match item_as_tables_mut(ditem) {
                        Some(devs) => match tables_get_mut(devs, dev_idx) {
                            Some(dev) => {
                                table_insert(dev, "device_name", v);
                                table_remove(dev, "read_metric");
                                match m {
                                    Some(mi) => table_insert(dev, "read_metric", mi),
                                    None => {},
                                }
                            },
                            None => {},
                        },
                        None => {},
                    },
                    None => {},
                },
                None => {},
            },
            None => {},
        },
        None => {},
    }
    proof {
        let app0 = apps_of(root0)[app_idx as int];
        let dev0 = devs_of(app0)[dev_idx as int];
        let dev1 = renamed_device(dev0, name@, metric_rows(metrics@));
        let devs1 = devs_of(app0).update(dev_idx as int, dev1);
        let app1 = with_devs(app0, devs1);
        let apps1 = apps_of(root0).update(app_idx as int, app1);
        assert(doc_root(*doc) =~= with_apps(root0, apps1));
        assert(apps_of(doc_root(*doc)) == apps1);
        assert(devs1.map_values(|d: Map<Seq<char>, TomlValue>| str_at(d, "device_id"@)) =~= devs_of(app0).map_values(
            |d: Map<Seq<char>, TomlValue>| str_at(d, "device_id"@),
        ));
        assert(devs1.map_values(|d: Map<Seq<char>, TomlValue>| str_at(d, "device_name"@)) =~= or_empty(
            config_device_names(*old(doc))[app_idx as int],
        ).update(dev_idx as int, Some(name@)));
        assert(config_app_ids(*doc) =~= config_app_ids(*old(doc)));
        assert(config_app_names(*doc) =~= config_app_names(*old(doc)));
        assert(config_device_ids(*doc) =~= config_device_ids(*old(doc)));
        assert(config_device_names(*doc) =~= config_device_names(*old(doc)).update(
            app_idx as int,
            Some(or_empty(config_device_names(*old(doc))[app_idx as int]).update(dev_idx as int, Some(name@))),
        ));
    }
}

/// Removes the `[[application.device]]` block at `dev_idx` under the
/// block at `app_idx`, with its sub-tables.
pub(crate) fn remove_device(doc: &mut DocumentMut, app_idx: usize, dev_idx: usize)
    requires
        config_app_array(*old(doc)),
        app_idx < config_app_ids(*old(doc)).len(),
        config_device_ids(*old(doc))[app_idx as int] matches Some(ids) && dev_idx < ids.len(),
    ensures
        doc_root(*final(doc)) == with_apps(
            doc_root(*old(doc)),
            apps_of(doc_root(*old(doc))).update(
                app_idx as int,
                with_devs(
                    apps_of(doc_root(*old(doc)))[app_idx as int],
                    devs_of(apps_of(doc_root(*old(doc)))[app_idx as int]).remove(dev_idx as int),
                ),
            ),
        ),
        config_app_array(*final(doc)),
        config_app_ids(*final(doc)) == config_app_ids(*old(doc)),
        config_device_ids(*final(doc)) == config_device_ids(*old(doc)).update(
            app_idx as int,
            Some(config_device_ids(*old(doc))[app_idx as int]->0.remove(dev_idx as int)),
        ),
        config_app_names(*final(doc)) == config_app_names(*old(doc)),
        config_device_names(*final(doc)) == config_device_names(*old(doc)).update(
            app_idx as int,
            Some(or_empty(config_device_names(*old(doc))[app_idx as int]).remove(dev_idx as int)),
        ),
{
    proof {
        lemma_keys_distinct();
    }
    let ghost root0 = doc_root(*doc);
    match root_get_mut(doc, "application") {
        Some(item) => match item_as_tables_mut(item) {
            Some(apps) => match tables_get_mut(apps, app_idx) {
                Some(app) => match table_get_mut(app, "device") {
                    Some(ditem) => match item_as_tables_mut(ditem) {
                        Some(devs) => {
                            tables_remove(devs, dev_idx);
                        },
                        None => {},
                    },
                    None => {},
                },
                None => {},
            },
            None => {},
        },
        None => {},
    }
    proof {
        let app0 = apps_of(root0)[app_idx as int];
        let devs1 = devs_of(app0).remove(dev_idx as int);
        let app1 = with_devs(app0, devs1);
        let apps1 = apps_of(root0).update(app_idx as int, app1);
        assert(doc_root(*doc) =~= with_apps(root0, apps1));
        assert(apps_of(doc_root(*doc)) == apps1);
        assert(devs1.map_values(|d: Map<Seq<char>, TomlValue>| str_at(d, "device_id"@)) =~= config_device_ids(
            *old(doc),
        )[app_idx as int]->0.remove(dev_idx as int));
        assert(devs1.map_values(|d: Map<Seq<char>, TomlValue>| str_at(d, "device_name"@)) =~= or_empty(
            config_device_names(*old(doc))[app_idx as int],
        ).remove(dev_idx as int));
        assert(config_app_ids(*doc) =~= config_app_ids(*old(doc)));
        assert(config_app_names(*doc) =~= config_app_names(*old(doc)));
        assert(config_device_ids(*doc) =~= config_device_ids(*old(doc)).update(
            app_idx as int,
            Some(config_device_ids(*old(doc))[app_idx as int]->0.remove(dev_idx as int)),
        ));
        assert(config_device_names(*doc) =~= config_device_names(*old(doc)).update(
            app_idx as int,
            Some(or_empty(config_device_names(*old(doc))[app_idx as int]).remove(dev_idx as int)),
        ));
    }
}

/// The items of a document, each by its path of keys from the root
/// table (at least one key), with the text its `to_string` renders.
pub uninterp spec fn doc_item_texts(doc: DocumentMut) -> Map<Seq<Seq<char>>, Seq<char>>;

/// The items within an item, each by its path of keys from it (the
/// empty path for the item itself), with the text its `to_string`
/// renders.
pub uninterp spec fn item_texts(item: Item) -> Map<Seq<Seq<char>>, Seq<char>>;

/// The entries of `m` under the path `q`, by their paths from there.
pub open spec fn sub_path(m: Map<Seq<Seq<char>>, Seq<char>>, q: Seq<Seq<char>>) -> Map<Seq<Seq<char>>, Seq<char>> {
    Map::new(|p: Seq<Seq<char>>| m.contains_key(q + p), |p: Seq<Seq<char>>| m[q + p])
}

/// `Item::get` (indexing into a table-like item): the item under `key`.
#[verifier::external_body]
fn item_get<'a>(item: &'a Item, key: &str) -> (r: Option<&'a Item>)
    ensures
        r matches Some(c) ==> item_texts(*c) == sub_path(item_texts(*item), seq![key@]),
        r is None ==> forall|p: Seq<Seq<char>>| !(#[trigger] item_texts(*item).contains_key(seq![key@] + p)),
{
    item.get(key)
}

/// The empty path: an item itself.
pub open spec fn here() -> Seq<Seq<char>> {
    Seq::empty()
}

/// `Item`'s `to_string`.
#[verifier::external_body]
fn item_text(item: &Item) -> (r: String)
    ensures
        item_texts(*item).get(here()) == Some(r@),
{
    item.to_string()
}

/// The text of the item at a non-empty `path` in `items`, or the empty
/// text when there is none.
pub open spec fn text_in(items: Map<Seq<Seq<char>>, Seq<char>>, path: Seq<Seq<char>>) -> Seq<char> {
    if path.len() > 0 && items.contains_key(path) {
        items[path]
    } else {
        Seq::empty()
    }
}

/// Views of a list of strings.
pub open spec fn string_views(v: Seq<String>) -> Seq<Seq<char>> {
    v.map_values(|s: String| s@)
}

proof fn lemma_sub_path_push(m: Map<Seq<Seq<char>>, Seq<char>>, q: Seq<Seq<char>>, k: Seq<char>)
    ensures
        sub_path(sub_path(m, q), seq![k]) == sub_path(m, q.push(k)),
{
    assert forall|p: Seq<Seq<char>>| #![auto] q + (seq![k] + p) == q.push(k) + p by {
        assert(q + (seq![k] + p) =~= q.push(k) + p);
    }
    assert(sub_path(sub_path(m, q), seq![k]) =~= sub_path(m, q.push(k)));
}

/// The text of the item at `path` in `doc`, or the empty string when
/// the path does not resolve.
fn text_at(doc: &DocumentMut, path: &Vec<String>) -> (r: String)
    ensures
        r@ == text_in(doc_item_texts(*doc), string_views(path@)),
{
    let ghost m = doc_item_texts(*doc);
    let ghost pv = string_views(path@);
    if path.len() == 0 {
        return String::new();
    }
    let mut cur = root_get(doc, path[0].as_str());
    proof {
        assert(pv.take(1) =~= seq![path@[0]@]);
    }
    let mut i: usize = 1;
    while i < path.len()
        invariant
            1 <= i <= path.len(),
            m == doc_item_texts(*doc),
            pv == string_views(path@),
            cur matches Some(item) ==> item_texts(*item) == sub_path(m, pv.take(i as int)),
            cur is None ==> forall|p: Seq<Seq<char>>| !(#[trigger] m.contains_key(pv.take(i as int) + p)),
        decreases path.len() - i,
    {
        let ghost q = pv.take(i as int);
        let ghost k = path@[i as int]@;
        proof {
            assert(pv.take(i + 1) =~= q.push(k));
            lemma_sub_path_push(m, q, k);
            assert forall|p: Seq<Seq<char>>| #![auto] q + (seq![k] + p) == q.push(k) + p by {
                assert(q + (seq![k] + p) =~= q.push(k) + p);
            }
        }
        let next = match cur {
            Some(item) => item_get(item, path[i].as_str()),
            None => None,
        };
        proof {
            if cur is None {
                assert forall|p: Seq<Seq<char>>| !(#[trigger] m.contains_key(q.push(k) + p)) by {
                    assert(!m.contains_key(q + (seq![k] + p)));
                }
            } else if next is None {
                let item = cur->0;
                assert forall|p: Seq<Seq<char>>| !(#[trigger] m.contains_key(q.push(k) + p)) by {
                    assert(!item_texts(*item).contains_key(seq![k] + p));
                    assert(!sub_path(m, q).contains_key(seq![k] + p));
                }
            }
        }
        cur = next;
        i = i + 1;
    }
    proof {
        assert(pv.take(i as int) =~= pv);
        assert(pv + Seq::<Seq<char>>::empty() =~= pv);
    }
    match cur {
        Some(item) => item_text(item),
        None => {
            proof {
                assert(!m.contains_key(pv + Seq::<Seq<char>>::empty()));
            }
            String::new()
        },
    }
}

/// The pieces of `s` between the dots, in order (`str::split('.')`).
pub open spec fn dot_segments(s: Seq<char>) -> Seq<Seq<char>>
    decreases s.len(),
{
    if s.len() == 0 {
        seq![Seq::empty()]
    } else {
        let rest = dot_segments(s.drop_last());
        if s.last() == '.' {
            rest.push(Seq::empty())
        } else {
            rest.update(rest.len() - 1, rest.last().push(s.last()))
        }
    }
}

proof fn lemma_dot_segments_nonempty(s: Seq<char>)
    ensures
        dot_segments(s).len() >= 1,
    decreases s.len(),
{
    if s.len() > 0 {
        lemma_dot_segments_nonempty(s.drop_last());
    }
}

/// Splits a dotted knob name at every `.`.
pub fn split_dots(s: &str) -> (r: Vec<String>)
    ensures
        r@.map_values(|x: String| x@) == dot_segments(s@),
{
    let v = chars_of(s);
    let mut out: Vec<String> = Vec::new();
    let mut cur: Vec<char> = Vec::new();
    let mut i: usize = 0;
    proof {
        assert(v@.take(0) =~= Seq::<char>::empty());
    }
    while i < v.len()
        invariant
            i <= v.len(),
            v@ == s@,
            out@.map_values(|x: String| x@).push(cur@) == dot_segments(v@.take(i as int)),
        decreases v.len() - i,
    {
        let c = v[i];
        let ghost prev = out@.map_values(|x: String| x@);
        let ghost old_cur = cur@;
        proof {
            assert(v@.take(i + 1).drop_last() =~= v@.take(i as int));
            assert(v@.take(i + 1).last() == c);
            lemma_dot_segments_nonempty(v@.take(i as int));
        }
        if c == '.' {
            out.push(string_of(&cur));
            cur = Vec::new();
            proof {
                assert(out@.map_values(|x: String| x@) =~= prev.push(old_cur));
            }
        } else {
            cur.push(c);
            proof {
                assert(out@.map_values(|x: String| x@) == prev);
                assert(prev.push(cur@) =~= prev.push(old_cur).update(prev.len() as int, old_cur.push(c)));
            }
        }
        proof {
            assert(out@.map_values(|x: String| x@).push(cur@) =~= dot_segments(v@.take(i + 1)));
        }
        i = i + 1;
    }
    out.push(string_of(&cur));
    proof {
        assert(v@.take(v.len() as int) =~= v@);
    }
    out
}

/// Whether the dotted `knob` renders differently in the original bytes
/// and in the candidate document; `None` when the original bytes are
/// not UTF-8 TOML.
pub fn knob_in_delta(knob: &str, original_bytes: &[u8], candidate: &DocumentMut) -> (r: Option<bool>)
    ensures
        match toml_item_texts(original_bytes@) {
            None => r is None,
            Some(before) => r == Some(
                text_in(before, dot_segments(knob@)) != text_in(doc_item_texts(*candidate), dot_segments(knob@)),
            ),
        },
{
    let original = parse_document(original_bytes)?;
    let path = split_dots(knob);
    let before = text_at(&original, &path);
    let after = text_at(candidate, &path);
    Some(!str_eq(before.as_str(), after.as_str()))
}

// ---------------------------------------------------------------------
// Laws
// ---------------------------------------------------------------------

proof fn lemma_metric_keys_distinct()
    ensures
        "metric_name"@ != "chirpstack_metric_name"@,
        "metric_name"@ != "metric_type"@,
        "metric_name"@ != "metric_unit"@,
        "chirpstack_metric_name"@ != "metric_type"@,
        "chirpstack_metric_name"@ != "metric_unit"@,
        "metric_type"@ != "metric_unit"@,
{
    reveal_strlit("metric_name");
    reveal_strlit("chirpstack_metric_name");
    reveal_strlit("metric_type");
    reveal_strlit("metric_unit");
    assert("metric_name"@.len() != "chirpstack_metric_name"@.len());
    assert("metric_name"@[7] != "metric_type"@[7]);
    assert("metric_name"@[7] != "metric_unit"@[7]);
    assert("chirpstack_metric_name"@.len() != "metric_type"@.len());
    assert("chirpstack_metric_name"@.len() != "metric_unit"@.len());
    assert("metric_type"@[7] != "metric_unit"@[7]);
}

/// Each `read_metric` table written for a metric list holds, in list
/// order, the request's `metric_name`, `chirpstack_metric_name` and
/// `metric_type`, and its `metric_unit` exactly when the request gives
/// one.
pub proof fn law_metric_rows(list: Seq<MetricMappingRequest>, i: int)
    requires
        0 <= i < list.len(),
    ensures
        metric_rows(list).len() == list.len(),
        str_at(metric_rows(list)[i], "metric_name"@) == Some(list[i].metric_name@),
        str_at(metric_rows(list)[i], "chirpstack_metric_name"@) == Some(list[i].chirpstack_metric_name@),
        str_at(metric_rows(list)[i], "metric_type"@) == Some(list[i].metric_type@),
        str_at(metric_rows(list)[i], "metric_unit"@) == match list[i].metric_unit {
            Some(u) => Some(u@),
            None => None,
        },
{
    lemma_metric_keys_distinct();
}

/// A new application table holds the given id and name.
pub proof fn law_app_block(id: Seq<char>, name: Seq<char>)
    ensures
        str_at(app_block(id, name), "application_id"@) == Some(id),
        str_at(app_block(id, name), "application_name"@) == Some(name),
{
    lemma_keys_distinct();
}

/// A new device table holds the given id and name, and its metric tables
/// exactly when there are any.
pub proof fn law_device_block(id: Seq<char>, name: Seq<char>, rows: Seq<Map<Seq<char>, TomlValue>>)
    ensures
        str_at(device_block(id, name, rows), "device_id"@) == Some(id),
        str_at(device_block(id, name, rows), "device_name"@) == Some(name),
        tables_at(device_block(id, name, rows), "read_metric"@) == if rows.len() > 0 {
            Some(rows)
        } else {
            None::<Seq<Map<Seq<char>, TomlValue>>>
        },
{
    lemma_keys_distinct();
}

/// An updated device table has the new name and the new metric tables
/// (none when there are none); every other entry is as it was.
pub proof fn law_renamed_device(dev: Map<Seq<char>, TomlValue>, name: Seq<char>, rows: Seq<Map<Seq<char>, TomlValue>>)
    ensures
        str_at(renamed_device(dev, name, rows), "device_name"@) == Some(name),
        tables_at(renamed_device(dev, name, rows), "read_metric"@) == if rows.len() > 0 {
            Some(rows)
        } else {
            None::<Seq<Map<Seq<char>, TomlValue>>>
        },
        forall|k: Seq<char>|
            k != "device_name"@ && k != "read_metric"@ ==> (#[trigger] renamed_device(dev, name, rows).contains_key(k)
                == dev.contains_key(k) && (dev.contains_key(k) ==> renamed_device(dev, name, rows)[k] == dev[k])),
{
    lemma_keys_distinct();
}

} // verus!
