//! Inventory drift: compares the configured applications / devices /
//! metrics against ChirpStack's inventory and classifies every resource
//! as `ok`, `stale`, `available` or `drifted`.
//!
//! Rows come out sorted (application id, then device id, then metric
//! name, with the key breaking ties and standing in for the name of a
//! key only ChirpStack reports), so two computations over the same
//! inputs give the same output row for row.

use vstd::prelude::*;
use crate::chirpstack_inventory::{
    wire_type_str, InventoryApplication, InventoryDevice, ObservedKey, WireType,
};
use crate::config::{AppConfig, ChirpStackApplications, ChirpstackDevice, OpcMetricTypeConfig, ReadMetric};
use crate::keyed::{collect_keys, find_last_index, keys_of, last_with_key, lemma_key_source, lemma_last_with_key, Keyed};
use crate::text::{
    chars_lt, chars_of, lemma_seq_lt_asymmetric, lemma_seq_lt_irreflexive, lemma_seq_lt_total,
    lemma_seq_lt_transitive, seq_lt, sorted_distinct, sorted_distinct_keys, str_eq, strictly_sorted, views,
};

verus! {

// ---------------------------------------------------------------------
// Response shape
// ---------------------------------------------------------------------

/// Configured side of an application row.
#[derive(Debug, Clone)]
pub struct ApplicationOpcgwView {
    pub application_id: String,
    pub application_name: String,
}

/// ChirpStack side of an application row.
#[derive(Debug, Clone)]
pub struct ApplicationChirpstackView {
    pub id: String,
    pub name: String,
}

/// Configured side of a device row.
#[derive(Debug, Clone)]
pub struct DeviceOpcgwView {
    pub device_id: String,
    pub device_name: String,
}

/// ChirpStack side of a device row.
#[derive(Debug, Clone)]
pub struct DeviceChirpstackView {
    pub dev_eui: String,
    pub name: String,
    pub last_seen_at: Option<String>,
}

/// Configured side of a metric row.
#[derive(Debug, Clone)]
pub struct MetricOpcgwView {
    pub chirpstack_metric_name: String,
    pub metric_name: String,
    pub metric_type: &'static str,
}

/// ChirpStack side of a metric row: an observed uplink key.
#[derive(Debug, Clone)]
pub struct MetricChirpstackView {
    pub key: String,
    pub inferred_wire_type: &'static str,
    pub sample_value: String,
}

/// Why a row is `drifted` (or soft-`stale` for metrics).
#[derive(Debug, Clone)]
pub struct DriftDetails {
    pub reason: &'static str,
    pub opcgw_name: Option<String>,
    pub chirpstack_name: Option<String>,
    pub opcgw_type: Option<&'static str>,
    pub inferred_type: Option<&'static str>,
}

/// One row of the `applications` section.
#[derive(Debug, Clone)]
pub struct ApplicationDriftRow {
    pub class: &'static str,
    pub opcgw: Option<ApplicationOpcgwView>,
    pub chirpstack: Option<ApplicationChirpstackView>,
    pub drift_details: Option<DriftDetails>,
}

/// One row of the `devices` section.
#[derive(Debug, Clone)]
pub struct DeviceDriftRow {
    pub class: &'static str,
    pub application_id: String,
    pub opcgw: Option<DeviceOpcgwView>,
    pub chirpstack: Option<DeviceChirpstackView>,
    pub drift_details: Option<DriftDetails>,
}

/// One row of the `metrics` section.
#[derive(Debug, Clone)]
pub struct MetricDriftRow {
    pub class: &'static str,
    pub application_id: String,
    pub device_id: String,
    pub opcgw: Option<MetricOpcgwView>,
    pub chirpstack_observed: Option<MetricChirpstackView>,
    pub drift_details: Option<DriftDetails>,
}

/// Per-class row counts.
#[derive(Debug, Clone, Copy, PartialEq, Eq, Structural)]
pub struct DriftSummary {
    pub ok: usize,
    pub stale: usize,
    pub available: usize,
    pub drifted: usize,
    pub total: usize,
}

/// The whole drift response body.
#[derive(Debug, Clone)]
pub struct DriftResponse {
    pub applications: Vec<ApplicationDriftRow>,
    pub devices: Vec<DeviceDriftRow>,
    pub metrics: Vec<MetricDriftRow>,
    pub fetched_at: String,
    pub chirpstack_reachable: bool,
    pub summary: DriftSummary,
}

/// Drift classification of one resource.
#[derive(Debug, Clone, Copy, PartialEq, Eq, Structural)]
pub enum DriftClass {
    InSync,
    Stale,
    Available,
    Drifted,
}

/// Wire name of each class.
pub open spec fn class_str(c: DriftClass) -> Seq<char> {
    match c {
        DriftClass::InSync => "ok"@,
        DriftClass::Stale => "stale"@,
        DriftClass::Available => "available"@,
        DriftClass::Drifted => "drifted"@,
    }
}

impl DriftClass {
    /// Wire name of the class.
    pub fn as_str(self) -> (r: &'static str)
        ensures
            r@ == class_str(self),
    {
        match self {
            DriftClass::InSync => "ok",
            DriftClass::Stale => "stale",
            DriftClass::Available => "available",
            DriftClass::Drifted => "drifted",
        }
    }
}

/// Reason for a name that differs between the two sides.
pub const REASON_NAME_DIFFERS: &'static str = "name_differs";
/// Reason for a configured metric key absent from recent uplinks.
pub const REASON_NOT_IN_RECENT_UPLINKS: &'static str = "not_in_recent_uplinks";
/// Reason for a configured type that differs from the inferred wire type.
pub const REASON_WIRE_TYPE_MISMATCH: &'static str = "wire_type_mismatch";

// ---------------------------------------------------------------------
// Inputs
// ---------------------------------------------------------------------

/// Configured application with its devices and their metrics.
#[derive(Debug, Clone)]
pub struct OpcgwApplicationView {
    pub application_id: String,
    pub application_name: String,
    pub devices: Vec<OpcgwDeviceView>,
}

/// Configured device with its metrics.
#[derive(Debug, Clone)]
pub struct OpcgwDeviceView {
    pub device_id: String,
    pub device_name: String,
    pub metrics: Vec<OpcgwMetricView>,
}

/// Configured metric.
#[derive(Debug, Clone)]
pub struct OpcgwMetricView {
    pub chirpstack_metric_name: String,
    pub metric_name: String,
    pub metric_type: OpcMetricTypeConfig,
}

/// ChirpStack devices listed under one application.
#[derive(Debug, Clone)]
pub struct DevicesForApplication {
    pub application_id: String,
    pub devices: Vec<InventoryDevice>,
}

/// Keys observed in the recent uplinks of one (application, device).
#[derive(Debug, Clone)]
pub struct ObservedForDevice {
    pub application_id: String,
    pub dev_eui: String,
    pub observed: Vec<ObservedKey>,
}

/// ChirpStack-side snapshot. Lookups by application id (and by
/// application id + DevEUI) take the last matching entry, as a map
/// filled from these lists in order would. A device with no entry in
/// `observed_by_device` is treated like one with no observed keys.
#[derive(Debug, Clone)]
pub struct ChirpstackInventoryView {
    pub applications: Vec<InventoryApplication>,
    pub devices_by_app: Vec<DevicesForApplication>,
    pub observed_by_device: Vec<ObservedForDevice>,
}

impl Default for ChirpstackInventoryView {
    fn default() -> (r: Self)
        ensures
            r.applications@.len() == 0,
            r.devices_by_app@.len() == 0,
            r.observed_by_device@.len() == 0,
    {
        ChirpstackInventoryView { applications: Vec::new(), devices_by_app: Vec::new(), observed_by_device: Vec::new() }
    }
}

impl Keyed for OpcgwApplicationView {
    open spec fn key_view(&self) -> Seq<char> {
        self.application_id@
    }

    fn key(&self) -> (r: &String) {
        &self.application_id
    }
}

impl Keyed for InventoryApplication {
    open spec fn key_view(&self) -> Seq<char> {
        self.id@
    }

    fn key(&self) -> (r: &String) {
        &self.id
    }
}

impl Keyed for DevicesForApplication {
    open spec fn key_view(&self) -> Seq<char> {
        self.application_id@
    }

    fn key(&self) -> (r: &String) {
        &self.application_id
    }
}

impl Keyed for OpcgwDeviceView {
    open spec fn key_view(&self) -> Seq<char> {
        self.device_id@
    }

    fn key(&self) -> (r: &String) {
        &self.device_id
    }
}

impl Keyed for InventoryDevice {
    open spec fn key_view(&self) -> Seq<char> {
        self.dev_eui@
    }

    fn key(&self) -> (r: &String) {
        &self.dev_eui
    }
}

impl Keyed for OpcgwMetricView {
    open spec fn key_view(&self) -> Seq<char> {
        self.chirpstack_metric_name@
    }

    fn key(&self) -> (r: &String) {
        &self.chirpstack_metric_name
    }
}

impl Keyed for ObservedKey {
    open spec fn key_view(&self) -> Seq<char> {
        self.key@
    }

    fn key(&self) -> (r: &String) {
        &self.key
    }
}

/// Wire name of a configured metric type.
pub open spec fn opc_type_str(t: OpcMetricTypeConfig) -> Seq<char> {
    match t {
        OpcMetricTypeConfig::Float => "Float"@,
        OpcMetricTypeConfig::Int => "Int"@,
        OpcMetricTypeConfig::Bool => "Bool"@,
        OpcMetricTypeConfig::String => "String"@,
    }
}

impl OpcMetricTypeConfig {
    /// Wire name of the configured type.
    pub fn as_wire_str(&self) -> (r: &'static str)
        ensures
            r@ == opc_type_str(*self),
    {
        match self {
            OpcMetricTypeConfig::Float => "Float",
            OpcMetricTypeConfig::Int => "Int",
            OpcMetricTypeConfig::Bool => "Bool",
            OpcMetricTypeConfig::String => "String",
        }
    }
}

/// Whether a configured type and an inferred wire type are the same kind.
pub open spec fn spec_opc_matches_wire(t: OpcMetricTypeConfig, w: WireType) -> bool {
    match (t, w) {
        (OpcMetricTypeConfig::Float, WireType::Float) => true,
        (OpcMetricTypeConfig::Int, WireType::Int) => true,
        (OpcMetricTypeConfig::Bool, WireType::Bool) => true,
        (OpcMetricTypeConfig::String, WireType::String) => true,
        _ => false,
    }
}

/// Whether a configured type matches an inferred wire type.
pub fn opc_matches_wire(opcgw_type: &OpcMetricTypeConfig, observed: WireType) -> (r: bool)
    ensures
        r == spec_opc_matches_wire(*opcgw_type, observed),
{
    match (opcgw_type, observed) {
        (OpcMetricTypeConfig::Float, WireType::Float) => true,
        (OpcMetricTypeConfig::Int, WireType::Int) => true,
        (OpcMetricTypeConfig::Bool, WireType::Bool) => true,
        (OpcMetricTypeConfig::String, WireType::String) => true,
        _ => false,
    }
}


// ---------------------------------------------------------------------
// Row models
// ---------------------------------------------------------------------

/// `Some(x@)` for `Some(x)`.
pub open spec fn opt_string(o: Option<String>) -> Option<Seq<char>> {
    match o {
        Some(s) => Some(s@),
        None => None,
    }
}

/// `Some(x@)` for `Some(x)`, on string slices.
pub open spec fn opt_str(o: Option<&'static str>) -> Option<Seq<char>> {
    match o {
        Some(s) => Some(s@),
        None => None,
    }
}

/// The value behind an optional reference.
pub open spec fn deref_opt<T>(o: Option<&T>) -> Option<T> {
    match o {
        Some(x) => Some(*x),
        None => None,
    }
}

/// Abstract value of a [`DriftDetails`].
pub struct DetailsModel {
    pub reason: Seq<char>,
    pub opcgw_name: Option<Seq<char>>,
    pub chirpstack_name: Option<Seq<char>>,
    pub opcgw_type: Option<Seq<char>>,
    pub inferred_type: Option<Seq<char>>,
}

impl View for DriftDetails {
    type V = DetailsModel;

    open spec fn view(&self) -> DetailsModel {
        DetailsModel {
            reason: self.reason@,
            opcgw_name: opt_string(self.opcgw_name),
            chirpstack_name: opt_string(self.chirpstack_name),
            opcgw_type: opt_str(self.opcgw_type),
            inferred_type: opt_str(self.inferred_type),
        }
    }
}

/// `Some(d@)` for `Some(d)`.
pub open spec fn opt_details(o: Option<DriftDetails>) -> Option<DetailsModel> {
    match o {
        Some(d) => Some(d@),
        None => None,
    }
}

/// Abstract value of an [`ApplicationDriftRow`]: the class, the
/// configured `(id, name)`, the ChirpStack `(id, name)` and the details.
pub struct AppRowModel {
    pub class: Seq<char>,
    pub opcgw: Option<(Seq<char>, Seq<char>)>,
    pub chirpstack: Option<(Seq<char>, Seq<char>)>,
    pub details: Option<DetailsModel>,
}

impl View for ApplicationDriftRow {
    type V = AppRowModel;

    open spec fn view(&self) -> AppRowModel {
        AppRowModel {
            class: self.class@,
            opcgw: match self.opcgw {
                Some(v) => Some((v.application_id@, v.application_name@)),
                None => None,
            },
            chirpstack: match self.chirpstack {
                Some(v) => Some((v.id@, v.name@)),
                None => None,
            },
            details: opt_details(self.drift_details),
        }
    }
}

/// Abstract value of a [`DeviceDriftRow`]: class, application id,
/// configured `(id, name)`, ChirpStack `(dev_eui, name, last_seen_at)`
/// and details.
pub struct DevRowModel {
    pub class: Seq<char>,
    pub application_id: Seq<char>,
    pub opcgw: Option<(Seq<char>, Seq<char>)>,
    pub chirpstack: Option<(Seq<char>, Seq<char>, Option<Seq<char>>)>,
    pub details: Option<DetailsModel>,
}

impl View for DeviceDriftRow {
    type V = DevRowModel;

    open spec fn view(&self) -> DevRowModel {
        DevRowModel {
            class: self.class@,
            application_id: self.application_id@,
            opcgw: match self.opcgw {
                Some(v) => Some((v.device_id@, v.device_name@)),
                None => None,
            },
            chirpstack: match self.chirpstack {
                Some(v) => Some((v.dev_eui@, v.name@, opt_string(v.last_seen_at))),
                None => None,
            },
            details: opt_details(self.drift_details),
        }
    }
}

/// Abstract value of a [`MetricDriftRow`]: class, application id,
/// device id, configured `(key, name, type)`, observed
/// `(key, wire type, sample)` and details.
pub struct MetricRowModel {
    pub class: Seq<char>,
    pub application_id: Seq<char>,
    pub device_id: Seq<char>,
    pub opcgw: Option<(Seq<char>, Seq<char>, Seq<char>)>,
    pub observed: Option<(Seq<char>, Seq<char>, Seq<char>)>,
    pub details: Option<DetailsModel>,
}

impl View for MetricDriftRow {
    type V = MetricRowModel;

    open spec fn view(&self) -> MetricRowModel {
        MetricRowModel {
            class: self.class@,
            application_id: self.application_id@,
            device_id: self.device_id@,
            opcgw: match self.opcgw {
                Some(v) => Some((v.chirpstack_metric_name@, v.metric_name@, v.metric_type@)),
                None => None,
            },
            observed: match self.chirpstack_observed {
                Some(v) => Some((v.key@, v.inferred_wire_type@, v.sample_value@)),
                None => None,
            },
            details: opt_details(self.drift_details),
        }
    }
}

/// Class of a resource seen on the configured side (`has_opcgw`), on the
/// ChirpStack side (`has_chirpstack`), and, when on both, whether the
/// two sides agree.
pub open spec fn pair_class(has_opcgw: bool, has_chirpstack: bool, agree: bool) -> DriftClass {
    if has_opcgw && has_chirpstack {
        if agree {
            DriftClass::InSync
        } else {
            DriftClass::Drifted
        }
    } else if has_opcgw {
        DriftClass::Stale
    } else {
        DriftClass::Available
    }
}

/// Details of a name mismatch.
pub open spec fn name_details(opcgw_name: Seq<char>, chirpstack_name: Seq<char>) -> DetailsModel {
    DetailsModel {
        reason: REASON_NAME_DIFFERS@,
        opcgw_name: Some(opcgw_name),
        chirpstack_name: Some(chirpstack_name),
        opcgw_type: None,
        inferred_type: None,
    }
}

/// Details of a configured type that differs from the inferred one.
pub open spec fn type_details(opcgw_type: Seq<char>, inferred_type: Seq<char>) -> DetailsModel {
    DetailsModel {
        reason: REASON_WIRE_TYPE_MISMATCH@,
        opcgw_name: None,
        chirpstack_name: None,
        opcgw_type: Some(opcgw_type),
        inferred_type: Some(inferred_type),
    }
}

/// Details of a configured metric missing from the recent uplinks.
pub open spec fn uplink_details() -> DetailsModel {
    DetailsModel {
        reason: REASON_NOT_IN_RECENT_UPLINKS@,
        opcgw_name: None,
        chirpstack_name: None,
        opcgw_type: None,
        inferred_type: None,
    }
}

/// The application row for the configured entry `o` and the ChirpStack
/// entry `c` of one application id.
pub open spec fn spec_app_row(o: Option<OpcgwApplicationView>, c: Option<InventoryApplication>) -> AppRowModel {
    let agree = match (o, c) {
        (Some(a), Some(b)) => a.application_name@ == b.name@,
        _ => false,
    };
    AppRowModel {
        class: class_str(pair_class(o is Some, c is Some, agree)),
        opcgw: match o {
            Some(a) => Some((a.application_id@, a.application_name@)),
            None => None,
        },
        chirpstack: match c {
            Some(b) => Some((b.id@, b.name@)),
            None => None,
        },
        details: match (o, c) {
            (Some(a), Some(b)) => if agree {
                None
            } else {
                Some(name_details(a.application_name@, b.name@))
            },
            _ => None,
        },
    }
}

/// The device row, under application `app_id`, for the configured entry
/// `o` and the ChirpStack entry `c` of one device id.
pub open spec fn spec_dev_row(app_id: Seq<char>, o: Option<OpcgwDeviceView>, c: Option<InventoryDevice>) -> DevRowModel {
    let agree = match (o, c) {
        (Some(a), Some(b)) => a.device_name@ == b.name@,
        _ => false,
    };
    DevRowModel {
        class: class_str(pair_class(o is Some, c is Some, agree)),
        application_id: app_id,
        opcgw: match o {
            Some(a) => Some((a.device_id@, a.device_name@)),
            None => None,
        },
        chirpstack: match c {
            Some(b) => Some((b.dev_eui@, b.name@, opt_string(b.last_seen_at))),
            None => None,
        },
        details: match (o, c) {
            (Some(a), Some(b)) => if agree {
                None
            } else {
                Some(name_details(a.device_name@, b.name@))
            },
            _ => None,
        },
    }
}

/// The metric row, under `(app_id, dev_id)`, for the configured metric
/// `o` and the observed key `k` of one metric key.
pub open spec fn spec_metric_row(
    app_id: Seq<char>,
    dev_id: Seq<char>,
    o: Option<OpcgwMetricView>,
    k: Option<ObservedKey>,
) -> MetricRowModel {
    let agree = match (o, k) {
        (Some(m), Some(x)) => spec_opc_matches_wire(m.metric_type, x.wire_type),
        _ => false,
    };
    MetricRowModel {
        class: class_str(pair_class(o is Some, k is Some, agree)),
        application_id: app_id,
        device_id: dev_id,
        opcgw: match o {
            Some(m) => Some((m.chirpstack_metric_name@, m.metric_name@, opc_type_str(m.metric_type))),
            None => None,
        },
        observed: match k {
            Some(x) => Some((x.key@, wire_type_str(x.wire_type), x.sample_value@)),
            None => None,
        },
        details: match (o, k) {
            (Some(m), Some(x)) => if agree {
                None
            } else {
                Some(type_details(opc_type_str(m.metric_type), wire_type_str(x.wire_type)))
            },
            (Some(_), None) => Some(uplink_details()),
            _ => None,
        },
    }
}


/// The id a row is listed under: the configured side's, else ChirpStack's.
pub open spec fn app_row_key(r: AppRowModel) -> Seq<char> {
    match r.opcgw {
        Some(p) => p.0,
        None => match r.chirpstack {
            Some(p) => p.0,
            None => Seq::empty(),
        },
    }
}

/// The device id a row is listed under.
pub open spec fn dev_row_key(r: DevRowModel) -> Seq<char> {
    match r.opcgw {
        Some(p) => p.0,
        None => match r.chirpstack {
            Some(p) => p.0,
            None => Seq::empty(),
        },
    }
}

/// The metric key a row is listed under.
pub open spec fn metric_row_key(r: MetricRowModel) -> Seq<char> {
    match r.opcgw {
        Some(p) => p.0,
        None => match r.observed {
            Some(p) => p.0,
            None => Seq::empty(),
        },
    }
}

/// The name a metric row is listed under: the configured metric name,
/// else the observed key.
pub open spec fn metric_row_name(r: MetricRowModel) -> Seq<char> {
    match r.opcgw {
        Some(p) => p.1,
        None => match r.observed {
            Some(p) => p.0,
            None => Seq::empty(),
        },
    }
}

/// Metric rows of one device: strictly ascending by metric name, then by
/// key; all under `(app_id, dev_id)`.
pub open spec fn metric_group_ordered(rows: Seq<MetricRowModel>, app_id: Seq<char>, dev_id: Seq<char>) -> bool {
    &&& forall|i: int, j: int|
        0 <= i < j < rows.len() ==> name_key_lt(
            metric_row_name(#[trigger] rows[i]),
            metric_row_key(rows[i]),
            metric_row_name(#[trigger] rows[j]),
            metric_row_key(rows[j]),
        )
    &&& forall|j: int|
        0 <= j < rows.len() ==> (#[trigger] rows[j]).application_id == app_id && rows[j].device_id
            == dev_id
}

/// Device rows of one application: ascending by device id, all under `app_id`.
pub open spec fn dev_group_ordered(rows: Seq<DevRowModel>, app_id: Seq<char>) -> bool {
    &&& strictly_sorted(rows.map_values(|r: DevRowModel| dev_row_key(r)))
    &&& forall|j: int| 0 <= j < rows.len() ==> (#[trigger] rows[j]).application_id == app_id
}

/// Metric rows of one application grouped by device: one group per
/// device id of `dev_keys`, in that (ascending) order.
pub open spec fn metric_table_ordered(
    table: Seq<Seq<MetricRowModel>>,
    app_id: Seq<char>,
    dev_keys: Seq<Seq<char>>,
) -> bool {
    &&& strictly_sorted(dev_keys)
    &&& table.len() == dev_keys.len()
    &&& forall|d: int| 0 <= d < table.len() ==> metric_group_ordered(#[trigger] table[d], app_id, dev_keys[d])
}

fn name_mismatch(opcgw_name: &String, chirpstack_name: &String) -> (r: DriftDetails)
    ensures
        r@ == name_details(opcgw_name@, chirpstack_name@),
{
    DriftDetails {
        reason: REASON_NAME_DIFFERS,
        opcgw_name: Some(opcgw_name.clone()),
        chirpstack_name: Some(chirpstack_name.clone()),
        opcgw_type: None,
        inferred_type: None,
    }
}

fn app_row(o: Option<&OpcgwApplicationView>, c: Option<&InventoryApplication>) -> (res: (
    ApplicationDriftRow,
    DriftClass,
))
    ensures
        res.0@ == spec_app_row(deref_opt(o), deref_opt(c)),
        res.0@.class == class_str(res.1),
{
    let (class, drift_details) = match (o, c) {
        (Some(a), Some(b)) => {
            if a.application_name == b.name {
                (DriftClass::InSync, None)
            } else {
                (DriftClass::Drifted, Some(name_mismatch(&a.application_name, &b.name)))
            }
        },
        (Some(_), None) => (DriftClass::Stale, None),
        _ => (DriftClass::Available, None),
    };
    let opcgw = match o {
        Some(a) => Some(
            ApplicationOpcgwView {
                application_id: a.application_id.clone(),
                application_name: a.application_name.clone(),
            },
        ),
        None => None,
    };
    let chirpstack = match c {
        Some(b) => Some(ApplicationChirpstackView { id: b.id.clone(), name: b.name.clone() }),
        None => None,
    };
    (ApplicationDriftRow { class: class.as_str(), opcgw, chirpstack, drift_details }, class)
}

fn dev_row(app_id: &String, o: Option<&OpcgwDeviceView>, c: Option<&InventoryDevice>) -> (res: (
    DeviceDriftRow,
    DriftClass,
))
    ensures
        res.0@ == spec_dev_row(app_id@, deref_opt(o), deref_opt(c)),
        res.0@.class == class_str(res.1),
{
    let (class, drift_details) = match (o, c) {
        (Some(a), Some(b)) => {
            if a.device_name == b.name {
                (DriftClass::InSync, None)
            } else {
                (DriftClass::Drifted, Some(name_mismatch(&a.device_name, &b.name)))
            }
        },
        (Some(_), None) => (DriftClass::Stale, None),
        _ => (DriftClass::Available, None),
    };
    let opcgw = match o {
        Some(a) => Some(
            DeviceOpcgwView { device_id: a.device_id.clone(), device_name: a.device_name.clone() },
        ),
        None => None,
    };
    let chirpstack = match c {
        Some(b) => Some(
            DeviceChirpstackView {
                dev_eui: b.dev_eui.clone(),
                name: b.name.clone(),
                last_seen_at: b.last_seen_at.clone(),
            },
        ),
        None => None,
    };
    (
        DeviceDriftRow {
            class: class.as_str(),
            application_id: app_id.clone(),
            opcgw,
            chirpstack,
            drift_details,
        },
        class,
    )
}

fn metric_row(
    app_id: &String,
    dev_id: &String,
    o: Option<&OpcgwMetricView>,
    k: Option<&ObservedKey>,
) -> (res: (MetricDriftRow, DriftClass))
    ensures
        res.0@ == spec_metric_row(app_id@, dev_id@, deref_opt(o), deref_opt(k)),
        res.0@.class == class_str(res.1),
{
    let (class, drift_details) = match (o, k) {
        (Some(m), Some(x)) => {
            if opc_matches_wire(&m.metric_type, x.wire_type) {
                (DriftClass::InSync, None)
            } else {
                (
                    DriftClass::Drifted,
                    Some(
                        DriftDetails {
                            reason: REASON_WIRE_TYPE_MISMATCH,
                            opcgw_name: None,
                            chirpstack_name: None,
                            opcgw_type: Some(m.metric_type.as_wire_str()),
                            inferred_type: Some(x.wire_type.as_str()),
                        },
                    ),
                )
            }
        },
        (Some(_), None) => (
            DriftClass::Stale,
            Some(
                DriftDetails {
                    reason: REASON_NOT_IN_RECENT_UPLINKS,
                    opcgw_name: None,
                    chirpstack_name: None,
                    opcgw_type: None,
                    inferred_type: None,
                },
            ),
        ),
        _ => (DriftClass::Available, None),
    };
    let opcgw = match o {
        Some(m) => Some(
            MetricOpcgwView {
                chirpstack_metric_name: m.chirpstack_metric_name.clone(),
                metric_name: m.metric_name.clone(),
                metric_type: m.metric_type.as_wire_str(),
            },
        ),
        None => None,
    };
    let chirpstack_observed = match k {
        Some(x) => Some(
            MetricChirpstackView {
                key: x.key.clone(),
                inferred_wire_type: x.wire_type.as_str(),
                sample_value: x.sample_value.clone(),
            },
        ),
        None => None,
    };
    (
        MetricDriftRow {
            class: class.as_str(),
            application_id: app_id.clone(),
            device_id: dev_id.clone(),
            opcgw,
            chirpstack_observed,
            drift_details,
        },
        class,
    )
}


// ---------------------------------------------------------------------
// Summary counting
// ---------------------------------------------------------------------

/// Number of entries of `classes` that are the wire name of `c`.
pub open spec fn class_count(classes: Seq<Seq<char>>, c: DriftClass) -> nat
    decreases classes.len(),
{
    if classes.len() == 0 {
        0
    } else {
        class_count(classes.drop_last(), c) + if classes.last() == class_str(c) {
            1nat
        } else {
            0nat
        }
    }
}

/// `after` is `before` with the rows of classes `added` counted in.
pub open spec fn counted(before: DriftSummary, after: DriftSummary, added: Seq<Seq<char>>) -> bool {
    &&& after.ok == before.ok + class_count(added, DriftClass::InSync)
    &&& after.stale == before.stale + class_count(added, DriftClass::Stale)
    &&& after.available == before.available + class_count(added, DriftClass::Available)
    &&& after.drifted == before.drifted + class_count(added, DriftClass::Drifted)
    &&& after.total == before.total + added.len()
}

/// `s` can count `n` more rows: no counter passes its total, and the
/// total stays within `usize`.
pub open spec fn room_for(s: DriftSummary, n: int) -> bool {
    &&& s.total + n <= usize::MAX
    &&& s.ok <= s.total
    &&& s.stale <= s.total
    &&& s.available <= s.total
    &&& s.drifted <= s.total
}

/// Every row counted so far went into exactly one class counter.
pub open spec fn balanced(s: DriftSummary) -> bool {
    s.ok + s.stale + s.available + s.drifted == s.total
}

/// The empty summary.
pub open spec fn zero_summary() -> DriftSummary {
    DriftSummary { ok: 0, stale: 0, available: 0, drifted: 0, total: 0 }
}

/// The four wire names are pairwise distinct.
pub proof fn lemma_class_str_injective(a: DriftClass, b: DriftClass)
    ensures
        class_str(a) == class_str(b) <==> a == b,
{
    reveal_strlit("ok");
    reveal_strlit("stale");
    reveal_strlit("available");
    reveal_strlit("drifted");
    if a != b {
        assert(class_str(a).len() != class_str(b).len());
    }
}

proof fn lemma_class_count_concat(a: Seq<Seq<char>>, b: Seq<Seq<char>>, c: DriftClass)
    ensures
        class_count(a + b, c) == class_count(a, c) + class_count(b, c),
    decreases b.len(),
{
    if b.len() == 0 {
        assert(a + b =~= a);
    } else {
        lemma_class_count_concat(a, b.drop_last(), c);
        assert((a + b).drop_last() =~= a + b.drop_last());
    }
}

proof fn lemma_class_count_le(a: Seq<Seq<char>>, c: DriftClass)
    ensures
        class_count(a, c) <= a.len(),
    decreases a.len(),
{
    if a.len() > 0 {
        lemma_class_count_le(a.drop_last(), c);
    }
}

proof fn lemma_class_count_single(k: DriftClass, c: DriftClass)
    ensures
        class_count(seq![class_str(k)], c) == if k == c { 1nat } else { 0nat },
{
    lemma_class_str_injective(k, c);
    let s = seq![class_str(k)];
    assert(s.drop_last() =~= Seq::<Seq<char>>::empty());
    assert(class_count(s.drop_last(), c) == 0);
    assert(s.last() == class_str(k));
}

proof fn lemma_counted_trans(
    s0: DriftSummary,
    s1: DriftSummary,
    s2: DriftSummary,
    a: Seq<Seq<char>>,
    b: Seq<Seq<char>>,
)
    requires
        counted(s0, s1, a),
        counted(s1, s2, b),
    ensures
        counted(s0, s2, a + b),
{
    lemma_class_count_concat(a, b, DriftClass::InSync);
    lemma_class_count_concat(a, b, DriftClass::Stale);
    lemma_class_count_concat(a, b, DriftClass::Available);
    lemma_class_count_concat(a, b, DriftClass::Drifted);
}

proof fn lemma_counted_nothing(s: DriftSummary)
    ensures
        counted(s, s, Seq::<Seq<char>>::empty()),
{
}

/// Counts one row of class `class` into `summary`.
pub fn increment_summary(summary: &mut DriftSummary, class: DriftClass)
    requires
        old(summary).total < usize::MAX,
        class == DriftClass::InSync ==> old(summary).ok < usize::MAX,
        class == DriftClass::Stale ==> old(summary).stale < usize::MAX,
        class == DriftClass::Available ==> old(summary).available < usize::MAX,
        class == DriftClass::Drifted ==> old(summary).drifted < usize::MAX,
    ensures
        final(summary).total == old(summary).total + 1,
        final(summary).ok == old(summary).ok + if class == DriftClass::InSync { 1int } else { 0int },
        final(summary).stale == old(summary).stale + if class == DriftClass::Stale { 1int } else { 0int },
        final(summary).available == old(summary).available + if class == DriftClass::Available {
            1int
        } else {
            0int
        },
        final(summary).drifted == old(summary).drifted + if class == DriftClass::Drifted {
            1int
        } else {
            0int
        },
{
    summary.total = summary.total + 1;
    match class {
        DriftClass::InSync => summary.ok = summary.ok + 1,
        DriftClass::Stale => summary.stale = summary.stale + 1,
        DriftClass::Available => summary.available = summary.available + 1,
        DriftClass::Drifted => summary.drifted = summary.drifted + 1,
    }
}

/// [`increment_summary`] inside a computation that has room left.
fn count_row(summary: &mut DriftSummary, class: DriftClass, Ghost(rest): Ghost<int>)
    requires
        rest >= 0,
        room_for(*old(summary), 1 + rest),
    ensures
        counted(*old(summary), *final(summary), seq![class_str(class)]),
        room_for(*final(summary), rest),
        balanced(*old(summary)) ==> balanced(*final(summary)),
{
    proof {
        lemma_class_count_single(class, DriftClass::InSync);
        lemma_class_count_single(class, DriftClass::Stale);
        lemma_class_count_single(class, DriftClass::Available);
        lemma_class_count_single(class, DriftClass::Drifted);
    }
    increment_summary(summary, class);
}


// ---------------------------------------------------------------------
// Metric rows
// ---------------------------------------------------------------------

/// The metric keys of one device, configured or observed, in ascending
/// key order.
pub open spec fn metric_keys(metrics: Seq<OpcgwMetricView>, observed: Seq<ObservedKey>) -> Seq<Seq<char>> {
    sorted_distinct(keys_of(metrics) + keys_of(observed))
}

/// The name a metric key of a device is listed under: the configured
/// metric's name, or the key itself where only ChirpStack reports it.
pub open spec fn listed_name(metrics: Seq<OpcgwMetricView>, k: Seq<char>) -> Seq<char> {
    match last_with_key(metrics, k) {
        Some(m) => m.metric_name@,
        None => k,
    }
}

/// Whether `(n1, k1)` comes strictly before `(n2, k2)`: by name, then
/// by key.
pub open spec fn name_key_lt(n1: Seq<char>, k1: Seq<char>, n2: Seq<char>, k2: Seq<char>) -> bool {
    seq_lt(n1, n2) || (n1 == n2 && seq_lt(k1, k2))
}

/// Whether the row of key `a` is listed before the row of key `b`.
pub open spec fn listed_before(metrics: Seq<OpcgwMetricView>, a: Seq<char>, b: Seq<char>) -> bool {
    name_key_lt(listed_name(metrics, a), a, listed_name(metrics, b), b)
}

/// Keys in strictly ascending (name, key) order.
pub open spec fn listed_in_order(metrics: Seq<OpcgwMetricView>, s: Seq<Seq<char>>) -> bool {
    forall|i: int, j: int| 0 <= i < j < s.len() ==> listed_before(metrics, #[trigger] s[i], #[trigger] s[j])
}

/// The metric keys of a device in the order its rows are listed:
/// ascending by metric name, then by key.
pub open spec fn metric_order(metrics: Seq<OpcgwMetricView>, observed: Seq<ObservedKey>) -> Seq<Seq<char>> {
    choose|r: Seq<Seq<char>>|
        listed_in_order(metrics, r) && r.to_set() == metric_keys(metrics, observed).to_set()
}

proof fn lemma_name_key_order(n1: Seq<char>, k1: Seq<char>, n2: Seq<char>, k2: Seq<char>, n3: Seq<char>, k3: Seq<char>)
    ensures
        !name_key_lt(n1, k1, n1, k1),
        name_key_lt(n1, k1, n2, k2) ==> !name_key_lt(n2, k2, n1, k1),
        name_key_lt(n1, k1, n2, k2) && name_key_lt(n2, k2, n3, k3) ==> name_key_lt(n1, k1, n3, k3),
        k1 != k2 ==> name_key_lt(n1, k1, n2, k2) || name_key_lt(n2, k2, n1, k1),
{
    lemma_seq_lt_irreflexive(n1);
    lemma_seq_lt_irreflexive(k1);
    lemma_seq_lt_asymmetric(n1, n2);
    lemma_seq_lt_asymmetric(k1, k2);
    if seq_lt(n1, n2) && seq_lt(n2, n3) {
        lemma_seq_lt_transitive(n1, n2, n3);
    }
    if seq_lt(k1, k2) && seq_lt(k2, k3) {
        lemma_seq_lt_transitive(k1, k2, k3);
    }
    lemma_seq_lt_total(n1, n2);
    lemma_seq_lt_total(k1, k2);
    if name_key_lt(n1, k1, n2, k2) && name_key_lt(n2, k2, n3, k3) {
        if seq_lt(n1, n2) && n2 == n3 {
        } else if n1 == n2 && seq_lt(n2, n3) {
        }
    }
}

proof fn lemma_listed(metrics: Seq<OpcgwMetricView>, a: Seq<char>, b: Seq<char>, c: Seq<char>)
    ensures
        !listed_before(metrics, a, a),
        listed_before(metrics, a, b) ==> !listed_before(metrics, b, a),
        listed_before(metrics, a, b) && listed_before(metrics, b, c) ==> listed_before(metrics, a, c),
        a != b ==> listed_before(metrics, a, b) || listed_before(metrics, b, a),
{
    lemma_name_key_order(
        listed_name(metrics, a),
        a,
        listed_name(metrics, b),
        b,
        listed_name(metrics, c),
        c,
    );
}

/// Two sequences of keys in (name, key) order with the same elements
/// are equal.
proof fn lemma_listed_unique(metrics: Seq<OpcgwMetricView>, a: Seq<Seq<char>>, b: Seq<Seq<char>>)
    requires
        listed_in_order(metrics, a),
        listed_in_order(metrics, b),
        a.to_set() == b.to_set(),
    ensures
        a == b,
    decreases a.len(),
{
    if a.len() == 0 {
        if b.len() > 0 {
            assert(b.to_set().contains(b[0]));
        }
        assert(a =~= b);
    } else if b.len() == 0 {
        assert(a.to_set().contains(a[0]));
    } else {
        assert(a.to_set().contains(a[0]));
        assert(b.to_set().contains(b[0]));
        let ia = choose|k: int| 0 <= k < a.len() && a[k] == b[0];
        let ib = choose|k: int| 0 <= k < b.len() && b[k] == a[0];
        if a[0] != b[0] {
            assert(ia > 0);
            assert(ib > 0);
            assert(listed_before(metrics, a[0], a[ia]));
            assert(listed_before(metrics, b[0], b[ib]));
            lemma_listed(metrics, a[0], b[0], a[0]);
        }
        let a1 = a.drop_first();
        let b1 = b.drop_first();
        assert forall|x: Seq<char>| a1.to_set().contains(x) implies b1.to_set().contains(x) by {
            let k = choose|k: int| 0 <= k < a1.len() && a1[k] == x;
            assert(a[k + 1] == x);
            assert(listed_before(metrics, a[0], x));
            assert(b.to_set().contains(x));
            let m = choose|m: int| 0 <= m < b.len() && b[m] == x;
            if m == 0 {
                lemma_listed(metrics, x, x, x);
            }
            assert(b1[m - 1] == x);
        }
        assert forall|x: Seq<char>| b1.to_set().contains(x) implies a1.to_set().contains(x) by {
            let k = choose|k: int| 0 <= k < b1.len() && b1[k] == x;
            assert(b[k + 1] == x);
            assert(listed_before(metrics, b[0], x));
            assert(a.to_set().contains(x));
            let m = choose|m: int| 0 <= m < a.len() && a[m] == x;
            if m == 0 {
                lemma_listed(metrics, x, x, x);
            }
            assert(a1[m - 1] == x);
        }
        assert(a1.to_set() =~= b1.to_set());
        assert forall|i: int, j: int| 0 <= i < j < a1.len() implies listed_before(metrics, #[trigger] a1[i], #[trigger] a1[j]) by {
            assert(a1[i] == a[i + 1] && a1[j] == a[j + 1]);
        }
        assert forall|i: int, j: int| 0 <= i < j < b1.len() implies listed_before(metrics, #[trigger] b1[i], #[trigger] b1[j]) by {
            assert(b1[i] == b[i + 1] && b1[j] == b[j + 1]);
        }
        lemma_listed_unique(metrics, a1, b1);
        assert(a =~= seq![a[0]] + a1);
        assert(b =~= seq![b[0]] + b1);
    }
}

/// Inserting `k` where it belongs keeps a sequence in (name, key) order.
proof fn lemma_listed_insert(metrics: Seq<OpcgwMetricView>, s: Seq<Seq<char>>, j: int, k: Seq<char>)
    requires
        listed_in_order(metrics, s),
        0 <= j <= s.len(),
        forall|t: int| 0 <= t < j ==> listed_before(metrics, #[trigger] s[t], k),
        j < s.len() ==> listed_before(metrics, k, s[j]),
    ensures
        listed_in_order(metrics, s.insert(j, k)),
        s.insert(j, k).to_set() == s.to_set().insert(k),
{
    let r = s.insert(j, k);
    assert forall|a: int, b: int| 0 <= a < b < r.len() implies listed_before(metrics, #[trigger] r[a], #[trigger] r[b]) by {
        if b > j {
            assert(r[b] == s[b - 1]);
            if b - 1 > j {
                lemma_listed(metrics, k, s[j], s[b - 1]);
            }
            assert(listed_before(metrics, k, r[b]));
            if a < j {
                assert(r[a] == s[a]);
                lemma_listed(metrics, r[a], k, r[b]);
            } else if a > j {
                assert(r[a] == s[a - 1]);
            }
        } else if b == j {
            assert(r[a] == s[a]);
        } else {
            assert(r[a] == s[a]);
            assert(r[b] == s[b]);
        }
    }
    assert forall|x: Seq<char>| r.to_set().contains(x) implies s.to_set().insert(k).contains(x) by {
        let p = choose|p: int| 0 <= p < r.len() && r[p] == x;
        if p < j {
            assert(s[p] == x);
        } else if p > j {
            assert(s[p - 1] == x);
        }
    }
    assert forall|x: Seq<char>| s.to_set().insert(k).contains(x) implies r.to_set().contains(x) by {
        if x == k {
            assert(r[j] == x);
        } else {
            let p = choose|p: int| 0 <= p < s.len() && s[p] == x;
            if p < j {
                assert(r[p] == x);
            } else {
                assert(r[p + 1] == x);
            }
        }
    }
    assert(r.to_set() =~= s.to_set().insert(k));
}

/// The name key `k` is listed under.
fn listed_name_of(metrics: &Vec<OpcgwMetricView>, k: &String) -> (r: String)
    ensures
        r@ == listed_name(metrics@, k@),
{
    match find_last_index(metrics, k) {
        Some(j) => metrics[j].metric_name.clone(),
        None => k.clone(),
    }
}

/// Whether `(an, a)` comes strictly before `(bn, b)`.
fn name_key_before(an: &String, a: &String, bn: &String, b: &String) -> (r: bool)
    ensures
        r == name_key_lt(an@, a@, bn@, b@),
{
    if chars_lt(&chars_of(an.as_str()), &chars_of(bn.as_str())) {
        true
    } else if str_eq(an.as_str(), bn.as_str()) {
        chars_lt(&chars_of(a.as_str()), &chars_of(b.as_str()))
    } else {
        false
    }
}

/// Reorders distinct keys ascending by listed name, then by key.
fn order_by_name(metrics: &Vec<OpcgwMetricView>, keys: &Vec<String>) -> (r: Vec<String>)
    requires
        strictly_sorted(views(keys@)),
    ensures
        listed_in_order(metrics@, views(r@)),
        views(r@).to_set() == views(keys@).to_set(),
{
    let mut out: Vec<String> = Vec::new();
    let mut names: Vec<String> = Vec::new();
    let mut n: usize = 0;
    proof {
        assert(views(out@).to_set() =~= views(keys@.take(0)).to_set());
    }
    while n < keys.len()
        invariant
            n <= keys.len(),
            strictly_sorted(views(keys@)),
            listed_in_order(metrics@, views(out@)),
            views(out@).to_set() == views(keys@.take(n as int)).to_set(),
            names@.len() == out@.len(),
            forall|t: int| 0 <= t < out@.len() ==> (#[trigger] names@[t])@ == listed_name(metrics@, out@[t]@),
        decreases keys.len() - n,
    {
        let k = &keys[n];
        let kn = listed_name_of(metrics, k);
        let mut j: usize = 0;
        while j < out.len() && !name_key_before(&kn, k, &names[j], &out[j])
            invariant
                j <= out.len(),
                names@.len() == out@.len(),
                kn@ == listed_name(metrics@, k@),
                forall|t: int| 0 <= t < out@.len() ==> (#[trigger] names@[t])@ == listed_name(metrics@, out@[t]@),
                forall|t: int| 0 <= t < j ==> !listed_before(metrics@, k@, #[trigger] views(out@)[t]),
            decreases out.len() - j,
        {
            proof {
                assert(names@[j as int]@ == listed_name(metrics@, out@[j as int]@));
            }
            j = j + 1;
        }
        let ghost old_out = views(out@);
        proof {
            assert(views(keys@.take(n + 1)) =~= views(keys@.take(n as int)).push(k@));
            assert forall|t: int| 0 <= t < j implies listed_before(metrics@, #[trigger] old_out[t], k@) by {
                assert(old_out.to_set().contains(old_out[t]));
                let p = choose|p: int| 0 <= p < n && views(keys@.take(n as int))[p] == old_out[t];
                assert(views(keys@)[p] == old_out[t]);
                assert(seq_lt(views(keys@)[p], views(keys@)[n as int]));
                lemma_seq_lt_irreflexive(k@);
                lemma_listed(metrics@, old_out[t], k@, k@);
            }
            if j < out.len() {
                assert(names@[j as int]@ == listed_name(metrics@, out@[j as int]@));
                assert(listed_before(metrics@, k@, old_out[j as int]));
            }
            lemma_listed_insert(metrics@, old_out, j as int, k@);
            Seq::<Seq<char>>::lemma_to_set_insert_commutes(views(keys@.take(n as int)), k@);
        }
        let ghost old_names = names@;
        let ghost old_raw = out@;
        out.insert(j, k.clone());
        names.insert(j, kn);
        proof {
            assert(views(out@) =~= old_out.insert(j as int, k@));
            assert(views(keys@.take(n + 1)) =~= views(keys@.take(n as int)) + seq![k@]);
            assert forall|t: int| 0 <= t < out@.len() implies (#[trigger] names@[t])@ == listed_name(metrics@, out@[t]@) by {
                if t < j {
                    assert(names@[t] == old_names[t] && out@[t] == old_raw[t]);
                } else if t > j {
                    assert(names@[t] == old_names[t - 1] && out@[t] == old_raw[t - 1]);
                }
            }
        }
        n = n + 1;
    }
    proof {
        assert(keys@.take(keys.len() as int) =~= keys@);
    }
    out
}

/// The metric rows of device `dev_id` under `app_id`.
pub open spec fn spec_metric_rows(
    app_id: Seq<char>,
    dev_id: Seq<char>,
    metrics: Seq<OpcgwMetricView>,
    observed: Seq<ObservedKey>,
) -> Seq<MetricRowModel> {
    metric_order(metrics, observed).map_values(
        |k: Seq<char>|
            spec_metric_row(app_id, dev_id, last_with_key(metrics, k), last_with_key(observed, k)),
    )
}

/// Views of metric rows.
pub open spec fn metric_views(rows: Seq<MetricDriftRow>) -> Seq<MetricRowModel> {
    rows.map_values(|r: MetricDriftRow| r@)
}

/// Classes of metric rows.
pub open spec fn metric_classes(rows: Seq<MetricRowModel>) -> Seq<Seq<char>> {
    rows.map_values(|r: MetricRowModel| r.class)
}

fn compute_metric_rows(
    app_id: &String,
    dev_id: &String,
    metrics: &Vec<OpcgwMetricView>,
    observed: &Vec<ObservedKey>,
    metric_rows: &mut Vec<MetricDriftRow>,
    summary: &mut DriftSummary,
    Ghost(rest): Ghost<int>,
)
    requires
        rest >= 0,
        room_for(*old(summary), spec_metric_rows(app_id@, dev_id@, metrics@, observed@).len() + rest),
    ensures
        metric_views(final(metric_rows)@) == metric_views(old(metric_rows)@) + spec_metric_rows(
            app_id@,
            dev_id@,
            metrics@,
            observed@,
        ),
        counted(
            *old(summary),
            *final(summary),
            metric_classes(spec_metric_rows(app_id@, dev_id@, metrics@, observed@)),
        ),
        room_for(*final(summary), rest),
        balanced(*old(summary)) ==> balanced(*final(summary)),
        metric_group_ordered(spec_metric_rows(app_id@, dev_id@, metrics@, observed@), app_id@, dev_id@),
{
    let mut all: Vec<String> = Vec::new();
    collect_keys(metrics, &mut all);
    collect_keys(observed, &mut all);
    let sorted = sorted_distinct_keys(&all);
    let keys = order_by_name(metrics, &sorted);
    proof {
        assert(views(all@) =~= keys_of(metrics@) + keys_of(observed@));
        assert(views(keys@).to_set() == metric_keys(metrics@, observed@).to_set());
        lemma_listed_unique(metrics@, views(keys@), metric_order(metrics@, observed@));
    }
    let ghost rows = spec_metric_rows(app_id@, dev_id@, metrics@, observed@);
    let ghost start_rows = metric_views(metric_rows@);
    let ghost start_sum = *summary;
    proof {
        assert(views(all@) =~= keys_of(metrics@) + keys_of(observed@));
        assert(metric_views(metric_rows@) =~= start_rows + rows.take(0));
        assert(metric_classes(rows.take(0)) =~= Seq::<Seq<char>>::empty());
    }
    let mut i: usize = 0;
    while i < keys.len()
        invariant
            i <= keys.len(),
            views(keys@) == metric_order(metrics@, observed@),
            rows == spec_metric_rows(app_id@, dev_id@, metrics@, observed@),
            rows.len() == keys.len(),
            metric_views(metric_rows@) == start_rows + rows.take(i as int),
            counted(start_sum, *summary, metric_classes(rows.take(i as int))),
            room_for(*summary, rows.len() - i + rest),
            rest >= 0,
            balanced(start_sum) ==> balanced(*summary),
        decreases keys.len() - i,
    {
        let k = &keys[i];
        let mi = find_last_index(metrics, k);
        let oi = find_last_index(observed, k);
        let m = match mi {
            Some(j) => Some(&metrics[j]),
            None => None,
        };
        let x = match oi {
            Some(j) => Some(&observed[j]),
            None => None,
        };
        let (row, class) = metric_row(app_id, dev_id, m, x);
        proof {
            assert(views(keys@)[i as int] == k@);
            assert(row@ == rows[i as int]);
        }
        let ghost before_rows = metric_rows@;
        let ghost mid = *summary;
        metric_rows.push(row);
        count_row(summary, class, Ghost(rows.len() - i - 1 + rest));
        proof {
            lemma_counted_trans(start_sum, mid, *summary, metric_classes(rows.take(i as int)), seq![class_str(class)]);
            assert(rows.take(i + 1) =~= rows.take(i as int).push(rows[i as int]));
            assert(metric_classes(rows.take(i + 1)) =~= metric_classes(rows.take(i as int)) + seq![class_str(class)]);
            assert(metric_views(metric_rows@) =~= metric_views(before_rows).push(row@));
            assert(metric_views(metric_rows@) =~= start_rows + rows.take(i + 1));
        }
        i = i + 1;
    }
    proof {
        assert(rows.take(rows.len() as int) =~= rows);
        let ks = views(keys@);
        assert(ks.to_set() == views(all@).to_set());
        assert forall|j: int| 0 <= j < rows.len() implies metric_row_key(#[trigger] rows[j]) == ks[j]
            && metric_row_name(rows[j]) == listed_name(metrics@, ks[j]) by {
            lemma_key_source(metrics@, observed@, ks, j);
        }
        assert forall|a: int, b: int| 0 <= a < b < rows.len() implies name_key_lt(
            metric_row_name(#[trigger] rows[a]),
            metric_row_key(rows[a]),
            metric_row_name(#[trigger] rows[b]),
            metric_row_key(rows[b]),
        ) by {
            assert(listed_before(metrics@, ks[a], ks[b]));
        }
    }
}


// ---------------------------------------------------------------------
// Device rows
// ---------------------------------------------------------------------

/// The last entry of `s` for `(app_id, dev_id)`, if any.
pub open spec fn last_observed(s: Seq<ObservedForDevice>, app_id: Seq<char>, dev_id: Seq<char>) -> Option<
    ObservedForDevice,
>
    decreases s.len(),
{
    if s.len() == 0 {
        None
    } else if s.last().application_id@ == app_id && s.last().dev_eui@ == dev_id {
        Some(s.last())
    } else {
        last_observed(s.drop_last(), app_id, dev_id)
    }
}

/// The keys observed for `(app_id, dev_id)`; none when the snapshot has
/// no entry for the device.
pub open spec fn observed_for(cs: ChirpstackInventoryView, app_id: Seq<char>, dev_id: Seq<char>) -> Seq<
    ObservedKey,
> {
    match last_observed(cs.observed_by_device@, app_id, dev_id) {
        Some(e) => e.observed@,
        None => Seq::empty(),
    }
}

fn find_observed(s: &Vec<ObservedForDevice>, app_id: &String, dev_id: &String) -> (r: Option<usize>)
    ensures
        r is None ==> last_observed(s@, app_id@, dev_id@) is None,
        r matches Some(i) ==> i < s@.len() && last_observed(s@, app_id@, dev_id@) == Some(s@[i as int]),
{
    let mut i = s.len();
    proof {
        assert(s@.take(s@.len() as int) =~= s@);
    }
    while i > 0
        invariant
            i <= s@.len(),
            last_observed(s@, app_id@, dev_id@) == last_observed(s@.take(i as int), app_id@, dev_id@),
        decreases i,
    {
        proof {
            assert(s@.take(i as int).drop_last() =~= s@.take(i - 1));
            assert(s@.take(i as int).last() == s@[i - 1]);
        }
        if s[i - 1].application_id == *app_id && s[i - 1].dev_eui == *dev_id {
            return Some(i - 1);
        }
        i = i - 1;
    }
    None
}

/// The device keys of one application, configured or in ChirpStack, in order.
pub open spec fn device_keys(o_devs: Seq<OpcgwDeviceView>, c_devs: Seq<InventoryDevice>) -> Seq<Seq<char>> {
    sorted_distinct(keys_of(o_devs) + keys_of(c_devs))
}

/// The device rows of application `app_id`.
pub open spec fn spec_dev_rows(
    app_id: Seq<char>,
    o_devs: Seq<OpcgwDeviceView>,
    c_devs: Seq<InventoryDevice>,
) -> Seq<DevRowModel> {
    device_keys(o_devs, c_devs).map_values(
        |d: Seq<char>| spec_dev_row(app_id, last_with_key(o_devs, d), last_with_key(c_devs, d)),
    )
}

/// The metric rows of one device: only a device present on both sides
/// has any.
pub open spec fn spec_dev_metric_rows(
    app_id: Seq<char>,
    dev_id: Seq<char>,
    o: Option<OpcgwDeviceView>,
    c: Option<InventoryDevice>,
    cs: ChirpstackInventoryView,
) -> Seq<MetricRowModel> {
    match (o, c) {
        (Some(od), Some(_)) => spec_metric_rows(app_id, dev_id, od.metrics@, observed_for(cs, app_id, dev_id)),
        _ => Seq::empty(),
    }
}

/// The metric rows of application `app_id`, grouped by device.
pub open spec fn spec_metric_table(
    app_id: Seq<char>,
    o_devs: Seq<OpcgwDeviceView>,
    c_devs: Seq<InventoryDevice>,
    cs: ChirpstackInventoryView,
) -> Seq<Seq<MetricRowModel>> {
    device_keys(o_devs, c_devs).map_values(
        |d: Seq<char>|
            spec_dev_metric_rows(app_id, d, last_with_key(o_devs, d), last_with_key(c_devs, d), cs),
    )
}

/// Views of device rows.
pub open spec fn dev_views(rows: Seq<DeviceDriftRow>) -> Seq<DevRowModel> {
    rows.map_values(|r: DeviceDriftRow| r@)
}

/// Classes of device rows.
pub open spec fn dev_classes(rows: Seq<DevRowModel>) -> Seq<Seq<char>> {
    rows.map_values(|r: DevRowModel| r.class)
}

proof fn lemma_counted_swap(
    s0: DriftSummary,
    s1: DriftSummary,
    a: Seq<Seq<char>>,
    b: Seq<Seq<char>>,
    c: Seq<Seq<char>>,
)
    requires
        counted(s0, s1, (a + b) + c),
    ensures
        counted(s0, s1, (a + c) + b),
{
    lemma_class_count_concat(a + b, c, DriftClass::InSync);
    lemma_class_count_concat(a + b, c, DriftClass::Stale);
    lemma_class_count_concat(a + b, c, DriftClass::Available);
    lemma_class_count_concat(a + b, c, DriftClass::Drifted);
    lemma_class_count_concat(a, b, DriftClass::InSync);
    lemma_class_count_concat(a, b, DriftClass::Stale);
    lemma_class_count_concat(a, b, DriftClass::Available);
    lemma_class_count_concat(a, b, DriftClass::Drifted);
    lemma_class_count_concat(a + c, b, DriftClass::InSync);
    lemma_class_count_concat(a + c, b, DriftClass::Stale);
    lemma_class_count_concat(a + c, b, DriftClass::Available);
    lemma_class_count_concat(a + c, b, DriftClass::Drifted);
    lemma_class_count_concat(a, c, DriftClass::InSync);
    lemma_class_count_concat(a, c, DriftClass::Stale);
    lemma_class_count_concat(a, c, DriftClass::Available);
    lemma_class_count_concat(a, c, DriftClass::Drifted);
}

proof fn lemma_flatten_take_len<A>(t: Seq<Seq<A>>, i: int)
    requires
        0 <= i < t.len(),
    ensures
        t.take(i + 1).flatten() == t.take(i).flatten() + t[i],
        t.take(i + 1).flatten().len() <= t.flatten().len(),
{
    assert(t.take(i + 1) =~= t.take(i).push(t[i]));
    t.take(i).lemma_flatten_push(t[i]);
    assert(t =~= t.take(i + 1) + t.skip(i + 1));
    vstd::seq_lib::lemma_flatten_concat(t.take(i + 1), t.skip(i + 1));
}

fn compute_device_rows(
    app_id: &String,
    o_devs: &Vec<OpcgwDeviceView>,
    c_devs: &Vec<InventoryDevice>,
    chirpstack: &ChirpstackInventoryView,
    device_rows: &mut Vec<DeviceDriftRow>,
    metric_rows: &mut Vec<MetricDriftRow>,
    summary: &mut DriftSummary,
    Ghost(rest): Ghost<int>,
)
    requires
        rest >= 0,
        room_for(
            *old(summary),
            spec_dev_rows(app_id@, o_devs@, c_devs@).len() + spec_metric_table(
                app_id@,
                o_devs@,
                c_devs@,
                *chirpstack,
            ).flatten().len() + rest,
        ),
    ensures
        dev_views(final(device_rows)@) == dev_views(old(device_rows)@) + spec_dev_rows(
            app_id@,
            o_devs@,
            c_devs@,
        ),
        metric_views(final(metric_rows)@) == metric_views(old(metric_rows)@) + spec_metric_table(
            app_id@,
            o_devs@,
            c_devs@,
            *chirpstack,
        ).flatten(),
        counted(
            *old(summary),
            *final(summary),
            dev_classes(spec_dev_rows(app_id@, o_devs@, c_devs@)) + metric_classes(
                spec_metric_table(app_id@, o_devs@, c_devs@, *chirpstack).flatten(),
            ),
        ),
        room_for(*final(summary), rest),
        balanced(*old(summary)) ==> balanced(*final(summary)),
        dev_group_ordered(spec_dev_rows(app_id@, o_devs@, c_devs@), app_id@),
        spec_dev_rows(app_id@, o_devs@, c_devs@).map_values(|r: DevRowModel| dev_row_key(r))
            == device_keys(o_devs@, c_devs@),
        metric_table_ordered(
            spec_metric_table(app_id@, o_devs@, c_devs@, *chirpstack),
            app_id@,
            device_keys(o_devs@, c_devs@),
        ),
{
    let mut all: Vec<String> = Vec::new();
    collect_keys(o_devs, &mut all);
    collect_keys(c_devs, &mut all);
    let keys = sorted_distinct_keys(&all);
    let ghost rows = spec_dev_rows(app_id@, o_devs@, c_devs@);
    let ghost table = spec_metric_table(app_id@, o_devs@, c_devs@, *chirpstack);
    let ghost start_devs = dev_views(device_rows@);
    let ghost start_metrics = metric_views(metric_rows@);
    let ghost start_sum = *summary;
    proof {
        assert(views(all@) =~= keys_of(o_devs@) + keys_of(c_devs@));
        assert(dev_views(device_rows@) =~= start_devs + rows.take(0));
        assert(table.take(0) =~= Seq::<Seq<MetricRowModel>>::empty());
        assert(table.take(0).flatten() =~= Seq::<MetricRowModel>::empty());
        assert(metric_views(metric_rows@) =~= start_metrics + table.take(0).flatten());
        assert(dev_classes(rows.take(0)) + metric_classes(table.take(0).flatten()) =~= Seq::<
            Seq<char>,
        >::empty());
    }
    let mut i: usize = 0;
    while i < keys.len()
        invariant
            i <= keys.len(),
            views(keys@) == device_keys(o_devs@, c_devs@),
            rows == spec_dev_rows(app_id@, o_devs@, c_devs@),
            table == spec_metric_table(app_id@, o_devs@, c_devs@, *chirpstack),
            rows.len() == keys.len(),
            table.len() == keys.len(),
            dev_views(device_rows@) == start_devs + rows.take(i as int),
            metric_views(metric_rows@) == start_metrics + table.take(i as int).flatten(),
            counted(
                start_sum,
                *summary,
                dev_classes(rows.take(i as int)) + metric_classes(table.take(i as int).flatten()),
            ),
            room_for(
                *summary,
                (rows.len() - i) + (table.flatten().len() - table.take(i as int).flatten().len())
                    + rest,
            ),
            table.take(i as int).flatten().len() <= table.flatten().len(),
            rest >= 0,
            balanced(start_sum) ==> balanced(*summary),
            forall|g: int|
                0 <= g < i ==> metric_group_ordered(#[trigger] table[g], app_id@, views(keys@)[g]),
        decreases keys.len() - i,
    {
        let d = &keys[i];
        let oi = find_last_index(o_devs, d);
        let ci = find_last_index(c_devs, d);
        let o = match oi {
            Some(j) => Some(&o_devs[j]),
            None => None,
        };
        let c = match ci {
            Some(j) => Some(&c_devs[j]),
            None => None,
        };
        let (row, class) = dev_row(app_id, o, c);
        proof {
            assert(views(keys@)[i as int] == d@);
            assert(row@ == rows[i as int]);
            lemma_flatten_take_len(table, i as int);
        }
        let ghost before_devs = device_rows@;
        let ghost s1 = *summary;
        device_rows.push(row);
        count_row(
            summary,
            class,
            Ghost(
                (rows.len() - i - 1) + (table.flatten().len() - table.take(i as int).flatten().len())
                    + rest,
            ),
        );
        let ghost s2 = *summary;
        let ghost dc = dev_classes(rows.take(i as int));
        let ghost mc = metric_classes(table.take(i as int).flatten());
        proof {
            lemma_counted_trans(start_sum, s1, s2, dc + mc, seq![class_str(class)]);
            lemma_counted_swap(start_sum, s2, dc, mc, seq![class_str(class)]);
            assert(rows.take(i + 1) =~= rows.take(i as int).push(rows[i as int]));
            assert(dev_classes(rows.take(i + 1)) =~= dc + seq![class_str(class)]);
            assert(dev_views(device_rows@) =~= dev_views(before_devs).push(row@));
            assert(dev_views(device_rows@) =~= start_devs + rows.take(i + 1));
        }
        let ghost before_metrics = metric_views(metric_rows@);
        match (o, c) {
            (Some(od), Some(_)) => {
                let ki = find_observed(&chirpstack.observed_by_device, app_id, d);
                let empty: Vec<ObservedKey> = Vec::new();
                let observed = match ki {
                    Some(j) => &chirpstack.observed_by_device[j].observed,
                    None => &empty,
                };
                proof {
                    assert(observed@ == observed_for(*chirpstack, app_id@, d@));
                    assert(table[i as int] == spec_metric_rows(app_id@, d@, od.metrics@, observed@));
                }
                compute_metric_rows(
                    app_id,
                    d,
                    &od.metrics,
                    observed,
                    metric_rows,
                    summary,
                    Ghost(
                        (rows.len() - i - 1) + (table.flatten().len() - table.take(i + 1).flatten().len())
                            + rest,
                    ),
                );
            },
            _ => {
                proof {
                    assert(table[i as int] =~= Seq::<MetricRowModel>::empty());
                    assert(table[i as int].map_values(|r: MetricRowModel| metric_row_key(r)) =~= Seq::<
                        Seq<char>,
                    >::empty());
                    assert(metric_classes(table[i as int]) =~= Seq::<Seq<char>>::empty());
                    lemma_counted_nothing(*summary);
                }
            },
        }
        proof {
            let s3 = *summary;
            let added = metric_classes(table[i as int]);
            lemma_counted_trans(start_sum, s2, s3, (dc + seq![class_str(class)]) + mc, added);
            assert(table.take(i + 1).flatten() == table.take(i as int).flatten() + table[i as int]);
            assert(metric_classes(table.take(i + 1).flatten()) =~= mc + added);
            assert(((dc + seq![class_str(class)]) + mc) + added =~= dev_classes(rows.take(i + 1))
                + metric_classes(table.take(i + 1).flatten()));
            assert(metric_views(metric_rows@) =~= start_metrics + table.take(i + 1).flatten());
        }
        i = i + 1;
    }
    proof {
        assert(rows.take(rows.len() as int) =~= rows);
        assert(table.take(table.len() as int) =~= table);
        let ks = views(keys@);
        assert forall|j: int| 0 <= j < rows.len() implies dev_row_key(#[trigger] rows[j]) == ks[j] by {
            lemma_key_source(o_devs@, c_devs@, ks, j);
        }
        assert(rows.map_values(|r: DevRowModel| dev_row_key(r)) =~= ks);
    }
}


// ---------------------------------------------------------------------
// Whole diff
// ---------------------------------------------------------------------

/// All application ids, configured or in ChirpStack, in order.
pub open spec fn app_keys(opcgw: Seq<OpcgwApplicationView>, cs: ChirpstackInventoryView) -> Seq<Seq<char>> {
    sorted_distinct(keys_of(opcgw) + keys_of(cs.applications@))
}

/// The configured devices of an application entry (none when absent).
pub open spec fn opcgw_devices(o: Option<OpcgwApplicationView>) -> Seq<OpcgwDeviceView> {
    match o {
        Some(a) => a.devices@,
        None => Seq::empty(),
    }
}

/// ChirpStack's devices of application `app_id` (none when the snapshot
/// has no list for it).
pub open spec fn chirpstack_devices(cs: ChirpstackInventoryView, app_id: Seq<char>) -> Seq<InventoryDevice> {
    match last_with_key(cs.devices_by_app@, app_id) {
        Some(e) => e.devices@,
        None => Seq::empty(),
    }
}

/// The application rows of the diff.
pub open spec fn drift_app_rows(opcgw: Seq<OpcgwApplicationView>, cs: ChirpstackInventoryView) -> Seq<
    AppRowModel,
> {
    app_keys(opcgw, cs).map_values(
        |a: Seq<char>| spec_app_row(last_with_key(opcgw, a), last_with_key(cs.applications@, a)),
    )
}

/// The device rows of the diff, grouped by application.
pub open spec fn drift_dev_table(opcgw: Seq<OpcgwApplicationView>, cs: ChirpstackInventoryView) -> Seq<
    Seq<DevRowModel>,
> {
    app_keys(opcgw, cs).map_values(
        |a: Seq<char>|
            spec_dev_rows(a, opcgw_devices(last_with_key(opcgw, a)), chirpstack_devices(cs, a)),
    )
}

/// The metric rows of the diff, grouped by application.
pub open spec fn drift_metric_table(opcgw: Seq<OpcgwApplicationView>, cs: ChirpstackInventoryView) -> Seq<
    Seq<MetricRowModel>,
> {
    app_keys(opcgw, cs).map_values(
        |a: Seq<char>|
            spec_metric_table(
                a,
                opcgw_devices(last_with_key(opcgw, a)),
                chirpstack_devices(cs, a),
                cs,
            ).flatten(),
    )
}

/// Number of rows of the diff, all sections together.
pub open spec fn drift_row_count(opcgw: Seq<OpcgwApplicationView>, cs: ChirpstackInventoryView) -> nat {
    drift_app_rows(opcgw, cs).len() + drift_dev_table(opcgw, cs).flatten().len() + drift_metric_table(
        opcgw,
        cs,
    ).flatten().len()
}

/// Views of application rows.
pub open spec fn app_views(rows: Seq<ApplicationDriftRow>) -> Seq<AppRowModel> {
    rows.map_values(|r: ApplicationDriftRow| r@)
}

/// Classes of application rows.
pub open spec fn app_classes(rows: Seq<AppRowModel>) -> Seq<Seq<char>> {
    rows.map_values(|r: AppRowModel| r.class)
}

/// The classes of every row of the diff: applications, then devices,
/// then metrics.
pub open spec fn drift_classes(opcgw: Seq<OpcgwApplicationView>, cs: ChirpstackInventoryView) -> Seq<
    Seq<char>,
> {
    app_classes(drift_app_rows(opcgw, cs)) + dev_classes(drift_dev_table(opcgw, cs).flatten())
        + metric_classes(drift_metric_table(opcgw, cs).flatten())
}

/// The device ids of application `a`, configured or in ChirpStack, in order.
pub open spec fn app_device_keys(opcgw: Seq<OpcgwApplicationView>, cs: ChirpstackInventoryView, a: Seq<char>) -> Seq<
    Seq<char>,
> {
    device_keys(opcgw_devices(last_with_key(opcgw, a)), chirpstack_devices(cs, a))
}

/// The metric rows of application `a`, grouped by device.
pub open spec fn app_metric_groups(
    opcgw: Seq<OpcgwApplicationView>,
    cs: ChirpstackInventoryView,
    a: Seq<char>,
) -> Seq<Seq<MetricRowModel>> {
    spec_metric_table(a, opcgw_devices(last_with_key(opcgw, a)), chirpstack_devices(cs, a), cs)
}

/// The rows of the application at position `g` of [`app_keys`] are in
/// order: its device rows by device id, its metric rows by device id and
/// then by key.
pub open spec fn app_groups_ordered(opcgw: Seq<OpcgwApplicationView>, cs: ChirpstackInventoryView, g: int) -> bool {
    let a = app_keys(opcgw, cs)[g];
    &&& dev_group_ordered(drift_dev_table(opcgw, cs)[g], a)
    &&& drift_dev_table(opcgw, cs)[g].map_values(|r: DevRowModel| dev_row_key(r)) == app_device_keys(
        opcgw,
        cs,
        a,
    )
    &&& metric_table_ordered(app_metric_groups(opcgw, cs, a), a, app_device_keys(opcgw, cs, a))
}

proof fn lemma_count5(
    a: Seq<Seq<char>>,
    b: Seq<Seq<char>>,
    c: Seq<Seq<char>>,
    d: Seq<Seq<char>>,
    e: Seq<Seq<char>>,
    k: DriftClass,
)
    ensures
        class_count(((a + b) + c) + (d + e), k) == class_count((a + (b + d)) + (c + e), k),
{
    lemma_class_count_concat((a + b) + c, d + e, k);
    lemma_class_count_concat(a + b, c, k);
    lemma_class_count_concat(a, b, k);
    lemma_class_count_concat(d, e, k);
    lemma_class_count_concat(a + (b + d), c + e, k);
    lemma_class_count_concat(a, b + d, k);
    lemma_class_count_concat(b, d, k);
    lemma_class_count_concat(c, e, k);
}

proof fn lemma_counted_regroup(
    s0: DriftSummary,
    s1: DriftSummary,
    a: Seq<Seq<char>>,
    b: Seq<Seq<char>>,
    c: Seq<Seq<char>>,
    d: Seq<Seq<char>>,
    e: Seq<Seq<char>>,
)
    requires
        counted(s0, s1, ((a + b) + c) + (d + e)),
    ensures
        counted(s0, s1, (a + (b + d)) + (c + e)),
{
    lemma_count5(a, b, c, d, e, DriftClass::InSync);
    lemma_count5(a, b, c, d, e, DriftClass::Stale);
    lemma_count5(a, b, c, d, e, DriftClass::Available);
    lemma_count5(a, b, c, d, e, DriftClass::Drifted);
}

/// Compares the configured applications / devices / metrics with
/// ChirpStack's inventory.
///
/// Each section lists every id of either side once: applications and
/// devices in ascending id order, each device's metric rows in ascending
/// (metric name, key) order. A device's metric rows exist only when the
/// device is on both sides. The summary counts each row once, under its
/// class.
#[verifier::rlimit(40)]
pub fn compute_drift(opcgw: &[OpcgwApplicationView], chirpstack: &ChirpstackInventoryView) -> (res: (
    Vec<ApplicationDriftRow>,
    Vec<DeviceDriftRow>,
    Vec<MetricDriftRow>,
    DriftSummary,
))
    requires
        drift_row_count(opcgw@, *chirpstack) <= usize::MAX,
    ensures
        app_views(res.0@) == drift_app_rows(opcgw@, *chirpstack),
        dev_views(res.1@) == drift_dev_table(opcgw@, *chirpstack).flatten(),
        metric_views(res.2@) == drift_metric_table(opcgw@, *chirpstack).flatten(),
        counted(zero_summary(), res.3, drift_classes(opcgw@, *chirpstack)),
        res.3.ok + res.3.stale + res.3.available + res.3.drifted == res.3.total,
        strictly_sorted(app_keys(opcgw@, *chirpstack)),
        drift_app_rows(opcgw@, *chirpstack).map_values(|r: AppRowModel| app_row_key(r)) == app_keys(
            opcgw@,
            *chirpstack,
        ),
        forall|g: int|
            0 <= g < app_keys(opcgw@, *chirpstack).len() ==> #[trigger] app_groups_ordered(
                opcgw@,
                *chirpstack,
                g,
            ),
{
    let mut all: Vec<String> = Vec::new();
    collect_keys(opcgw, &mut all);
    collect_keys(&chirpstack.applications, &mut all);
    let keys = sorted_distinct_keys(&all);
    let ghost apps = drift_app_rows(opcgw@, *chirpstack);
    let ghost dtab = drift_dev_table(opcgw@, *chirpstack);
    let ghost mtab = drift_metric_table(opcgw@, *chirpstack);
    let mut application_rows: Vec<ApplicationDriftRow> = Vec::new();
    let mut device_rows: Vec<DeviceDriftRow> = Vec::new();
    let mut metric_rows: Vec<MetricDriftRow> = Vec::new();
    let mut summary = DriftSummary { ok: 0, stale: 0, available: 0, drifted: 0, total: 0 };
    let empty_devs: Vec<OpcgwDeviceView> = Vec::new();
    let empty_cs_devs: Vec<InventoryDevice> = Vec::new();
    proof {
        assert(views(all@) =~= keys_of(opcgw@) + keys_of(chirpstack.applications@));
        assert(app_views(application_rows@) =~= apps.take(0));
        assert(dtab.take(0).flatten() =~= Seq::<DevRowModel>::empty());
        assert(mtab.take(0).flatten() =~= Seq::<MetricRowModel>::empty());
        assert(dev_views(device_rows@) =~= dtab.take(0).flatten());
        assert(metric_views(metric_rows@) =~= mtab.take(0).flatten());
        assert(app_classes(apps.take(0)) + dev_classes(dtab.take(0).flatten()) + metric_classes(
            mtab.take(0).flatten(),
        ) =~= Seq::<Seq<char>>::empty());
    }
    let mut i: usize = 0;
    while i < keys.len()
        invariant
            i <= keys.len(),
            views(keys@) == app_keys(opcgw@, *chirpstack),
            apps == drift_app_rows(opcgw@, *chirpstack),
            dtab == drift_dev_table(opcgw@, *chirpstack),
            mtab == drift_metric_table(opcgw@, *chirpstack),
            apps.len() == keys.len(),
            dtab.len() == keys.len(),
            mtab.len() == keys.len(),
            empty_devs@ == Seq::<OpcgwDeviceView>::empty(),
            empty_cs_devs@ == Seq::<InventoryDevice>::empty(),
            app_views(application_rows@) == apps.take(i as int),
            dev_views(device_rows@) == dtab.take(i as int).flatten(),
            metric_views(metric_rows@) == mtab.take(i as int).flatten(),
            counted(
                zero_summary(),
                summary,
                app_classes(apps.take(i as int)) + dev_classes(dtab.take(i as int).flatten())
                    + metric_classes(mtab.take(i as int).flatten()),
            ),
            room_for(
                summary,
                (apps.len() - i) + (dtab.flatten().len() - dtab.take(i as int).flatten().len()) + (
                mtab.flatten().len() - mtab.take(i as int).flatten().len()),
            ),
            dtab.take(i as int).flatten().len() <= dtab.flatten().len(),
            mtab.take(i as int).flatten().len() <= mtab.flatten().len(),
            balanced(summary),
            forall|g: int| 0 <= g < i ==> #[trigger] app_groups_ordered(opcgw@, *chirpstack, g),
        decreases keys.len() - i,
    {
        let a = &keys[i];
        let oi = find_last_index(opcgw, a);
        let ci = find_last_index(&chirpstack.applications, a);
        let o = match oi {
            Some(j) => Some(&opcgw[j]),
            None => None,
        };
        let c = match ci {
            Some(j) => Some(&chirpstack.applications[j]),
            None => None,
        };
        let (row, class) = app_row(o, c);
        proof {
            assert(views(keys@)[i as int] == a@);
            assert(row@ == apps[i as int]);
            lemma_flatten_take_len(dtab, i as int);
            lemma_flatten_take_len(mtab, i as int);
        }
        let ghost before_apps = application_rows@;
        let ghost s1 = summary;
        application_rows.push(row);
        let ghost rest = (apps.len() - i - 1) + (dtab.flatten().len() - dtab.take(i as int).flatten().len())
            + (mtab.flatten().len() - mtab.take(i as int).flatten().len());
        count_row(&mut summary, class, Ghost(rest));
        let ghost s2 = summary;
        let ghost ac = app_classes(apps.take(i as int));
        let ghost dc = dev_classes(dtab.take(i as int).flatten());
        let ghost mc = metric_classes(mtab.take(i as int).flatten());
        let ghost x = seq![class_str(class)];
        proof {
            lemma_counted_trans(zero_summary(), s1, s2, ac + dc + mc, x);
            assert((ac + dc + mc) + x =~= (ac + (dc + mc)) + x);
            lemma_counted_swap(zero_summary(), s2, ac, dc + mc, x);
            assert(apps.take(i + 1) =~= apps.take(i as int).push(apps[i as int]));
            assert(app_classes(apps.take(i + 1)) =~= ac + x);
            assert(app_views(application_rows@) =~= app_views(before_apps).push(row@));
        }
        let o_devs = match o {
            Some(app) => &app.devices,
            None => &empty_devs,
        };
        let di = find_last_index(&chirpstack.devices_by_app, a);
        let c_devs = match di {
            Some(j) => &chirpstack.devices_by_app[j].devices,
            None => &empty_cs_devs,
        };
        let ghost s3_before_devs = dev_views(device_rows@);
        let ghost s3_before_metrics = metric_views(metric_rows@);
        proof {
            assert(o_devs@ == opcgw_devices(last_with_key(opcgw@, a@)));
            assert(c_devs@ == chirpstack_devices(*chirpstack, a@));
            assert(dtab[i as int] == spec_dev_rows(a@, o_devs@, c_devs@));
            assert(mtab[i as int] == spec_metric_table(a@, o_devs@, c_devs@, *chirpstack).flatten());
        }
        compute_device_rows(
            a,
            o_devs,
            c_devs,
            chirpstack,
            &mut device_rows,
            &mut metric_rows,
            &mut summary,
            Ghost(
                (apps.len() - i - 1) + (dtab.flatten().len() - dtab.take(i + 1).flatten().len()) + (
                mtab.flatten().len() - mtab.take(i + 1).flatten().len()),
            ),
        );
        proof {
            let s3 = summary;
            let dn = dev_classes(dtab[i as int]);
            let mn = metric_classes(mtab[i as int]);
            lemma_counted_trans(zero_summary(), s2, s3, (ac + x) + (dc + mc), dn + mn);
            assert((ac + x) + (dc + mc) =~= ((ac + x) + dc) + mc);
            lemma_counted_regroup(zero_summary(), s3, ac + x, dc, mc, dn, mn);
            assert(dtab.take(i + 1).flatten() == dtab.take(i as int).flatten() + dtab[i as int]);
            assert(mtab.take(i + 1).flatten() == mtab.take(i as int).flatten() + mtab[i as int]);
            assert(dev_classes(dtab.take(i + 1).flatten()) =~= dc + dn);
            assert(metric_classes(mtab.take(i + 1).flatten()) =~= mc + mn);
            assert(((ac + x) + (dc + dn)) + (mc + mn) =~= app_classes(apps.take(i + 1)) + dev_classes(
                dtab.take(i + 1).flatten(),
            ) + metric_classes(mtab.take(i + 1).flatten()));
            assert(dev_views(device_rows@) =~= dtab.take(i + 1).flatten());
            assert(metric_views(metric_rows@) =~= mtab.take(i + 1).flatten());
        }
        i = i + 1;
    }
    proof {
        assert(apps.take(apps.len() as int) =~= apps);
        assert(dtab.take(dtab.len() as int) =~= dtab);
        assert(mtab.take(mtab.len() as int) =~= mtab);
        let ks = views(keys@);
        assert forall|j: int| 0 <= j < apps.len() implies app_row_key(#[trigger] apps[j]) == ks[j] by {
            lemma_key_source(opcgw@, chirpstack.applications@, ks, j);
        }
        assert(apps.map_values(|r: AppRowModel| app_row_key(r)) =~= ks);
    }
    (application_rows, device_rows, metric_rows, summary)
}


// ---------------------------------------------------------------------
// Degraded response (ChirpStack unreachable)
// ---------------------------------------------------------------------

/// Placeholder row of a configured application.
pub open spec fn degraded_app_row(a: OpcgwApplicationView) -> AppRowModel {
    AppRowModel {
        class: class_str(DriftClass::InSync),
        opcgw: Some((a.application_id@, a.application_name@)),
        chirpstack: None,
        details: None,
    }
}

/// Placeholder row of a configured device.
pub open spec fn degraded_dev_row(app_id: Seq<char>, d: OpcgwDeviceView) -> DevRowModel {
    DevRowModel {
        class: class_str(DriftClass::InSync),
        application_id: app_id,
        opcgw: Some((d.device_id@, d.device_name@)),
        chirpstack: None,
        details: None,
    }
}

/// Placeholder row of a configured metric.
pub open spec fn degraded_metric_row(app_id: Seq<char>, dev_id: Seq<char>, m: OpcgwMetricView) -> MetricRowModel {
    MetricRowModel {
        class: class_str(DriftClass::InSync),
        application_id: app_id,
        device_id: dev_id,
        opcgw: Some((m.chirpstack_metric_name@, m.metric_name@, opc_type_str(m.metric_type))),
        observed: None,
        details: None,
    }
}

/// Placeholder rows of the devices of one application, in order.
pub open spec fn degraded_dev_rows(a: OpcgwApplicationView) -> Seq<DevRowModel> {
    a.devices@.map_values(|d: OpcgwDeviceView| degraded_dev_row(a.application_id@, d))
}

/// Placeholder rows of the metrics of one device, in order.
pub open spec fn degraded_device_metrics(app_id: Seq<char>, d: OpcgwDeviceView) -> Seq<MetricRowModel> {
    d.metrics@.map_values(|m: OpcgwMetricView| degraded_metric_row(app_id, d.device_id@, m))
}

/// Placeholder rows of the metrics of one application, device by device.
pub open spec fn degraded_metric_rows(a: OpcgwApplicationView) -> Seq<MetricRowModel> {
    a.devices@.map_values(|d: OpcgwDeviceView| degraded_device_metrics(a.application_id@, d)).flatten()
}

/// Number of placeholder rows, all sections together.
pub open spec fn degraded_count(opcgw: Seq<OpcgwApplicationView>) -> nat {
    opcgw.len() + opcgw.map_values(|a: OpcgwApplicationView| degraded_dev_rows(a)).flatten().len()
        + opcgw.map_values(|a: OpcgwApplicationView| degraded_metric_rows(a)).flatten().len()
}

fn degraded_device_metric_rows(app_id: &String, dev: &OpcgwDeviceView, out: &mut Vec<MetricDriftRow>)
    ensures
        metric_views(final(out)@) == metric_views(old(out)@) + degraded_device_metrics(app_id@, *dev),
{
    let ghost start = metric_views(out@);
    let ghost rows = degraded_device_metrics(app_id@, *dev);
    let mut k: usize = 0;
    proof {
        assert(metric_views(out@) =~= start + rows.take(0));
    }
    while k < dev.metrics.len()
        invariant
            k <= dev.metrics.len(),
            rows == degraded_device_metrics(app_id@, *dev),
            metric_views(out@) == start + rows.take(k as int),
        decreases dev.metrics.len() - k,
    {
        let m = &dev.metrics[k];
        let row = MetricDriftRow {
            class: DriftClass::InSync.as_str(),
            application_id: app_id.clone(),
            device_id: dev.device_id.clone(),
            opcgw: Some(
                MetricOpcgwView {
                    chirpstack_metric_name: m.chirpstack_metric_name.clone(),
                    metric_name: m.metric_name.clone(),
                    metric_type: m.metric_type.as_wire_str(),
                },
            ),
            chirpstack_observed: None,
            drift_details: None,
        };
        let ghost before = out@;
        out.push(row);
        proof {
            assert(row@ == rows[k as int]);
            assert(rows.take(k + 1) =~= rows.take(k as int).push(rows[k as int]));
            assert(metric_views(out@) =~= metric_views(before).push(row@));
        }
        k = k + 1;
    }
    proof {
        assert(rows.take(rows.len() as int) =~= rows);
    }
}

fn degraded_app_rows(
    app: &OpcgwApplicationView,
    devices: &mut Vec<DeviceDriftRow>,
    metrics: &mut Vec<MetricDriftRow>,
)
    ensures
        dev_views(final(devices)@) == dev_views(old(devices)@) + degraded_dev_rows(*app),
        metric_views(final(metrics)@) == metric_views(old(metrics)@) + degraded_metric_rows(*app),
{
    let ghost start_d = dev_views(devices@);
    let ghost start_m = metric_views(metrics@);
    let ghost drows = degraded_dev_rows(*app);
    let ghost mtab = app.devices@.map_values(
        |d: OpcgwDeviceView| degraded_device_metrics(app.application_id@, d),
    );
    let mut j: usize = 0;
    proof {
        assert(dev_views(devices@) =~= start_d + drows.take(0));
        assert(mtab.take(0).flatten() =~= Seq::<MetricRowModel>::empty());
        assert(metric_views(metrics@) =~= start_m + mtab.take(0).flatten());
    }
    while j < app.devices.len()
        invariant
            j <= app.devices.len(),
            drows == degraded_dev_rows(*app),
            mtab == app.devices@.map_values(
                |d: OpcgwDeviceView| degraded_device_metrics(app.application_id@, d),
            ),
            dev_views(devices@) == start_d + drows.take(j as int),
            metric_views(metrics@) == start_m + mtab.take(j as int).flatten(),
        decreases app.devices.len() - j,
    {
        let dev = &app.devices[j];
        let row = DeviceDriftRow {
            class: DriftClass::InSync.as_str(),
            application_id: app.application_id.clone(),
            opcgw: Some(
                DeviceOpcgwView { device_id: dev.device_id.clone(), device_name: dev.device_name.clone() },
            ),
            chirpstack: None,
            drift_details: None,
        };
        let ghost before = devices@;
        devices.push(row);
        proof {
            assert(row@ == drows[j as int]);
            assert(drows.take(j + 1) =~= drows.take(j as int).push(drows[j as int]));
            assert(dev_views(devices@) =~= dev_views(before).push(row@));
        }
        degraded_device_metric_rows(&app.application_id, dev, metrics);
        proof {
            assert(mtab.take(j + 1) =~= mtab.take(j as int).push(mtab[j as int]));
            mtab.take(j as int).lemma_flatten_push(mtab[j as int]);
            assert(metric_views(metrics@) =~= start_m + mtab.take(j + 1).flatten());
        }
        j = j + 1;
    }
    proof {
        assert(drows.take(drows.len() as int) =~= drows);
        assert(mtab.take(mtab.len() as int) =~= mtab);
    }
}

/// The response given when ChirpStack cannot be reached: every configured
/// application, device and metric, in configuration order, as an `ok`
/// placeholder with no ChirpStack side; the summary counts them all as
/// `ok`.
pub fn build_degraded_response(opcgw: &[OpcgwApplicationView], fetched_at: String) -> (r: DriftResponse)
    requires
        degraded_count(opcgw@) <= usize::MAX,
    ensures
        app_views(r.applications@) == opcgw@.map_values(|a: OpcgwApplicationView| degraded_app_row(a)),
        dev_views(r.devices@) == opcgw@.map_values(
            |a: OpcgwApplicationView| degraded_dev_rows(a),
        ).flatten(),
        metric_views(r.metrics@) == opcgw@.map_values(
            |a: OpcgwApplicationView| degraded_metric_rows(a),
        ).flatten(),
        r.fetched_at@ == fetched_at@,
        !r.chirpstack_reachable,
        r.summary.ok == degraded_count(opcgw@),
        r.summary.total == degraded_count(opcgw@),
        r.summary.stale == 0,
        r.summary.available == 0,
        r.summary.drifted == 0,
{
    let ghost arows = opcgw@.map_values(|a: OpcgwApplicationView| degraded_app_row(a));
    let ghost dtab = opcgw@.map_values(|a: OpcgwApplicationView| degraded_dev_rows(a));
    let ghost mtab = opcgw@.map_values(|a: OpcgwApplicationView| degraded_metric_rows(a));
    let mut applications: Vec<ApplicationDriftRow> = Vec::new();
    let mut devices: Vec<DeviceDriftRow> = Vec::new();
    let mut metrics: Vec<MetricDriftRow> = Vec::new();
    proof {
        assert(app_views(applications@) =~= arows.take(0));
        assert(dtab.take(0).flatten() =~= Seq::<DevRowModel>::empty());
        assert(mtab.take(0).flatten() =~= Seq::<MetricRowModel>::empty());
        assert(dev_views(devices@) =~= dtab.take(0).flatten());
        assert(metric_views(metrics@) =~= mtab.take(0).flatten());
    }
    let mut i: usize = 0;
    while i < opcgw.len()
        invariant
            i <= opcgw.len(),
            arows == opcgw@.map_values(|a: OpcgwApplicationView| degraded_app_row(a)),
            dtab == opcgw@.map_values(|a: OpcgwApplicationView| degraded_dev_rows(a)),
            mtab == opcgw@.map_values(|a: OpcgwApplicationView| degraded_metric_rows(a)),
            app_views(applications@) == arows.take(i as int),
            dev_views(devices@) == dtab.take(i as int).flatten(),
            metric_views(metrics@) == mtab.take(i as int).flatten(),
        decreases opcgw.len() - i,
    {
        let app = &opcgw[i];
        let row = ApplicationDriftRow {
            class: DriftClass::InSync.as_str(),
            opcgw: Some(
                ApplicationOpcgwView {
                    application_id: app.application_id.clone(),
                    application_name: app.application_name.clone(),
                },
            ),
            chirpstack: None,
            drift_details: None,
        };
        let ghost before = applications@;
        applications.push(row);
        degraded_app_rows(app, &mut devices, &mut metrics);
        proof {
            assert(row@ == arows[i as int]);
            assert(arows.take(i + 1) =~= arows.take(i as int).push(arows[i as int]));
            assert(app_views(applications@) =~= app_views(before).push(row@));
            assert(dtab.take(i + 1) =~= dtab.take(i as int).push(dtab[i as int]));
            dtab.take(i as int).lemma_flatten_push(dtab[i as int]);
            assert(mtab.take(i + 1) =~= mtab.take(i as int).push(mtab[i as int]));
            mtab.take(i as int).lemma_flatten_push(mtab[i as int]);
            assert(dev_views(devices@) =~= dtab.take(i + 1).flatten());
            assert(metric_views(metrics@) =~= mtab.take(i + 1).flatten());
        }
        i = i + 1;
    }
    proof {
        assert(arows.take(arows.len() as int) =~= arows);
        assert(dtab.take(dtab.len() as int) =~= dtab);
        assert(mtab.take(mtab.len() as int) =~= mtab);
        assert(applications@.len() == app_views(applications@).len());
        assert(devices@.len() == dev_views(devices@).len());
        assert(metrics@.len() == metric_views(metrics@).len());
    }
    let count = applications.len() + devices.len() + metrics.len();
    DriftResponse {
        applications,
        devices,
        metrics,
        fetched_at,
        chirpstack_reachable: false,
        summary: DriftSummary { ok: count, stale: 0, available: 0, drifted: 0, total: count },
    }
}


// ---------------------------------------------------------------------
// Configured side, from the live configuration
// ---------------------------------------------------------------------

/// `v` is the view of configured metric `m`.
pub open spec fn metric_view_of(v: OpcgwMetricView, m: ReadMetric) -> bool {
    &&& v.chirpstack_metric_name@ == m.chirpstack_metric_name@
    &&& v.metric_name@ == m.metric_name@
    &&& v.metric_type == m.metric_type
}

/// `v` is the view of configured device `d`, metric by metric.
pub open spec fn device_view_of(v: OpcgwDeviceView, d: ChirpstackDevice) -> bool {
    &&& v.device_id@ == d.device_id@
    &&& v.device_name@ == d.device_name@
    &&& v.metrics@.len() == d.read_metric_list@.len()
    &&& forall|k: int|
        0 <= k < v.metrics@.len() ==> metric_view_of(#[trigger] v.metrics@[k], d.read_metric_list@[k])
}

/// `v` is the view of configured application `a`, device by device.
pub open spec fn app_view_of(v: OpcgwApplicationView, a: ChirpStackApplications) -> bool {
    &&& v.application_id@ == a.application_id@
    &&& v.application_name@ == a.application_name@
    &&& v.devices@.len() == a.device_list@.len()
    &&& forall|j: int|
        0 <= j < v.devices@.len() ==> device_view_of(#[trigger] v.devices@[j], a.device_list@[j])
}

fn device_view(d: &ChirpstackDevice) -> (v: OpcgwDeviceView)
    ensures
        device_view_of(v, *d),
{
    let mut metrics: Vec<OpcgwMetricView> = Vec::new();
    let mut k: usize = 0;
    while k < d.read_metric_list.len()
        invariant
            k <= d.read_metric_list.len(),
            metrics@.len() == k,
            forall|t: int| 0 <= t < k ==> metric_view_of(#[trigger] metrics@[t], d.read_metric_list@[t]),
        decreases d.read_metric_list.len() - k,
    {
        let m = &d.read_metric_list[k];
        metrics.push(
            OpcgwMetricView {
                chirpstack_metric_name: m.chirpstack_metric_name.clone(),
                metric_name: m.metric_name.clone(),
                metric_type: m.metric_type,
            },
        );
        k = k + 1;
    }
    OpcgwDeviceView { device_id: d.device_id.clone(), device_name: d.device_name.clone(), metrics }
}

fn app_view(a: &ChirpStackApplications) -> (v: OpcgwApplicationView)
    ensures
        app_view_of(v, *a),
{
    let mut devices: Vec<OpcgwDeviceView> = Vec::new();
    let mut j: usize = 0;
    while j < a.device_list.len()
        invariant
            j <= a.device_list.len(),
            devices@.len() == j,
            forall|t: int| 0 <= t < j ==> device_view_of(#[trigger] devices@[t], a.device_list@[t]),
        decreases a.device_list.len() - j,
    {
        devices.push(device_view(&a.device_list[j]));
        j = j + 1;
    }
    OpcgwApplicationView {
        application_id: a.application_id.clone(),
        application_name: a.application_name.clone(),
        devices,
    }
}

/// The configured side of the diff, read from the live configuration:
/// one view per configured application, in configuration order.
pub fn build_opcgw_view(config: &AppConfig) -> (r: Vec<OpcgwApplicationView>)
    ensures
        r@.len() == config.application_list@.len(),
        forall|i: int| 0 <= i < r@.len() ==> app_view_of(#[trigger] r@[i], config.application_list@[i]),
{
    let mut out: Vec<OpcgwApplicationView> = Vec::new();
    let mut i: usize = 0;
    while i < config.application_list.len()
        invariant
            i <= config.application_list.len(),
            out@.len() == i,
            forall|t: int| 0 <= t < i ==> app_view_of(#[trigger] out@[t], config.application_list@[t]),
        decreases config.application_list.len() - i,
    {
        out.push(app_view(&config.application_list[i]));
        i = i + 1;
    }
    out
}

// ---------------------------------------------------------------------
// What the handler fetches
// ---------------------------------------------------------------------

/// The application ids whose ChirpStack device lists the diff needs:
/// every id on either side, once, in ascending order.
pub fn drift_fetch_app_ids(opcgw: &[OpcgwApplicationView], chirpstack_apps: &[InventoryApplication]) -> (r: Vec<
    String,
>)
    ensures
        views(r@) == sorted_distinct(keys_of(opcgw@) + keys_of(chirpstack_apps@)),
        strictly_sorted(views(r@)),
{
    let mut all: Vec<String> = Vec::new();
    collect_keys(opcgw, &mut all);
    collect_keys(chirpstack_apps, &mut all);
    proof {
        assert(views(all@) =~= keys_of(opcgw@) + keys_of(chirpstack_apps@));
    }
    sorted_distinct_keys(&all)
}

/// `(application id, device id)` of the configured devices, in
/// configuration order, of application `app_id`, that are among the
/// ChirpStack device ids `cs_keys`.
pub open spec fn targets_in_app(
    app_id: Seq<char>,
    devs: Seq<OpcgwDeviceView>,
    cs_keys: Seq<Seq<char>>,
) -> Seq<(Seq<char>, Seq<char>)>
    decreases devs.len(),
{
    if devs.len() == 0 {
        Seq::empty()
    } else {
        targets_in_app(app_id, devs.drop_last(), cs_keys) + if cs_keys.contains(
            devs.last().device_id@,
        ) {
            seq![(app_id, devs.last().device_id@)]
        } else {
            Seq::empty()
        }
    }
}

/// The devices whose recent uplinks the diff needs: those configured
/// under an application for which ChirpStack listed devices, and listed
/// there too; applications and devices in configuration order.
pub open spec fn uplink_targets_spec(opcgw: Seq<OpcgwApplicationView>, devices_by_app: Seq<DevicesForApplication>) -> Seq<
    (Seq<char>, Seq<char>),
>
    decreases opcgw.len(),
{
    if opcgw.len() == 0 {
        Seq::empty()
    } else {
        let a = opcgw.last();
        uplink_targets_spec(opcgw.drop_last(), devices_by_app) + match last_with_key(
            devices_by_app,
            a.application_id@,
        ) {
            Some(e) => targets_in_app(a.application_id@, a.devices@, keys_of(e.devices@)),
            None => Seq::empty(),
        }
    }
}

/// Views of `(application id, device id)` pairs.
pub open spec fn pair_views(s: Seq<(String, String)>) -> Seq<(Seq<char>, Seq<char>)> {
    s.map_values(|p: (String, String)| (p.0@, p.1@))
}

fn contains_key<T: Keyed>(s: &[T], k: &String) -> (r: bool)
    ensures
        r == keys_of(s@).contains(k@),
{
    let i = find_last_index(s, k);
    proof {
        lemma_last_with_key(s@, k@);
    }
    i.is_some()
}

/// The `(application id, device id)` pairs whose recent uplinks the
/// diff compares against the configured metrics.
pub fn uplink_targets(opcgw: &[OpcgwApplicationView], devices_by_app: &[DevicesForApplication]) -> (r: Vec<
    (String, String),
>)
    ensures
        pair_views(r@) == uplink_targets_spec(opcgw@, devices_by_app@),
{
    let mut out: Vec<(String, String)> = Vec::new();
    let mut i: usize = 0;
    proof {
        assert(opcgw@.take(0) =~= Seq::<OpcgwApplicationView>::empty());
        assert(pair_views(out@) =~= uplink_targets_spec(opcgw@.take(0), devices_by_app@));
    }
    while i < opcgw.len()
        invariant
            i <= opcgw.len(),
            pair_views(out@) == uplink_targets_spec(opcgw@.take(i as int), devices_by_app@),
        decreases opcgw.len() - i,
    {
        let app = &opcgw[i];
        proof {
            assert(opcgw@.take(i + 1).drop_last() =~= opcgw@.take(i as int));
            assert(opcgw@.take(i + 1).last() == *app);
        }
        match find_last_index(devices_by_app, &app.application_id) {
            Some(e) => {
                let cs_devs = &devices_by_app[e].devices;
                let ghost base = pair_views(out@);
                let mut j: usize = 0;
                proof {
                    assert(app.devices@.take(0) =~= Seq::<OpcgwDeviceView>::empty());
                    assert(pair_views(out@) =~= base + targets_in_app(
                        app.application_id@,
                        app.devices@.take(0),
                        keys_of(cs_devs@),
                    ));
                }
                while j < app.devices.len()
                    invariant
                        j <= app.devices.len(),
                        pair_views(out@) == base + targets_in_app(
                            app.application_id@,
                            app.devices@.take(j as int),
                            keys_of(cs_devs@),
                        ),
                    decreases app.devices.len() - j,
                {
                    let dev = &app.devices[j];
                    proof {
                        assert(app.devices@.take(j + 1).drop_last() =~= app.devices@.take(j as int));
                        assert(app.devices@.take(j + 1).last() == *dev);
                    }
                    if contains_key(cs_devs, &dev.device_id) {
                        let ghost before = out@;
                        out.push((app.application_id.clone(), dev.device_id.clone()));
                        proof {
                            assert(pair_views(out@) =~= pair_views(before).push(
                                (app.application_id@, dev.device_id@),
                            ));
                        }
                    } else {
                        proof {
                            assert(base + targets_in_app(
                                app.application_id@,
                                app.devices@.take(j + 1),
                                keys_of(cs_devs@),
                            ) =~= base + targets_in_app(
                                app.application_id@,
                                app.devices@.take(j as int),
                                keys_of(cs_devs@),
                            ));
                        }
                    }
                    j = j + 1;
                }
                proof {
                    assert(app.devices@.take(app.devices@.len() as int) =~= app.devices@);
                }
            },
            None => {
                proof {
                    assert(uplink_targets_spec(opcgw@.take(i + 1), devices_by_app@) =~= uplink_targets_spec(
                        opcgw@.take(i as int),
                        devices_by_app@,
                    ));
                }
            },
        }
        i = i + 1;
    }
    proof {
        assert(opcgw@.take(opcgw@.len() as int) =~= opcgw@);
    }
    out
}

// ---------------------------------------------------------------------
// Laws
// ---------------------------------------------------------------------

/// An application on both sides is `ok` when the names agree; otherwise
/// it is `drifted`, with the configured name as `opcgw_name` and
/// ChirpStack's as `chirpstack_name`. Each side of the row shows that
/// side's id and name.
pub proof fn law_application_row(a: OpcgwApplicationView, b: InventoryApplication)
    ensures
        spec_app_row(Some(a), Some(b)).opcgw == Some((a.application_id@, a.application_name@)),
        spec_app_row(Some(a), Some(b)).chirpstack == Some((b.id@, b.name@)),
        a.application_name@ == b.name@ ==> spec_app_row(Some(a), Some(b)).class == class_str(DriftClass::InSync)
            && spec_app_row(Some(a), Some(b)).details is None,
        a.application_name@ != b.name@ ==> spec_app_row(Some(a), Some(b)).class == class_str(DriftClass::Drifted)
            && (spec_app_row(Some(a), Some(b)).details matches Some(d) && d.reason == REASON_NAME_DIFFERS@
            && d.opcgw_name == Some(a.application_name@) && d.chirpstack_name == Some(b.name@)),
        spec_app_row(Some(a), None).class == class_str(DriftClass::Stale),
        spec_app_row(None, Some(b)).class == class_str(DriftClass::Available),
{
}

/// A device on both sides is `ok` when the names agree; otherwise it is
/// `drifted`, with the configured device's name as `opcgw_name` and the
/// ChirpStack device's name as `chirpstack_name`. Each side of the row
/// shows that side's id and name.
pub proof fn law_device_row(app_id: Seq<char>, a: OpcgwDeviceView, b: InventoryDevice)
    ensures
        spec_dev_row(app_id, Some(a), Some(b)).application_id == app_id,
        spec_dev_row(app_id, Some(a), Some(b)).opcgw == Some((a.device_id@, a.device_name@)),
        spec_dev_row(app_id, Some(a), Some(b)).chirpstack matches Some(c) && c.0 == b.dev_eui@ && c.1 == b.name@,
        a.device_name@ == b.name@ ==> spec_dev_row(app_id, Some(a), Some(b)).class == class_str(DriftClass::InSync)
            && spec_dev_row(app_id, Some(a), Some(b)).details is None,
        a.device_name@ != b.name@ ==> spec_dev_row(app_id, Some(a), Some(b)).class == class_str(
            DriftClass::Drifted,
        ) && (spec_dev_row(app_id, Some(a), Some(b)).details matches Some(d) && d.reason == REASON_NAME_DIFFERS@
            && d.opcgw_name == Some(a.device_name@) && d.chirpstack_name == Some(b.name@)),
        spec_dev_row(app_id, Some(a), None).class == class_str(DriftClass::Stale),
        spec_dev_row(app_id, None, Some(b)).class == class_str(DriftClass::Available),
{
}

/// A metric configured and observed is `ok` when the configured type
/// matches the wire type; otherwise `drifted`, with the configured type
/// as `opcgw_type` and the wire type as `inferred_type`. A configured
/// metric not observed is `stale`, flagged as missing from recent
/// uplinks; an observed key not configured is `available`. The row shows
/// the configured key, name and type and the observed key, type and
/// sample.
pub proof fn law_metric_row(app_id: Seq<char>, dev_id: Seq<char>, m: OpcgwMetricView, x: ObservedKey)
    ensures
        spec_metric_row(app_id, dev_id, Some(m), Some(x)).application_id == app_id,
        spec_metric_row(app_id, dev_id, Some(m), Some(x)).device_id == dev_id,
        spec_metric_row(app_id, dev_id, Some(m), Some(x)).opcgw == Some(
            (m.chirpstack_metric_name@, m.metric_name@, opc_type_str(m.metric_type)),
        ),
        spec_metric_row(app_id, dev_id, Some(m), Some(x)).observed == Some(
            (x.key@, wire_type_str(x.wire_type), x.sample_value@),
        ),
        spec_opc_matches_wire(m.metric_type, x.wire_type) ==> spec_metric_row(app_id, dev_id, Some(m), Some(x)).class
            == class_str(DriftClass::InSync) && spec_metric_row(app_id, dev_id, Some(m), Some(x)).details is None,
        !spec_opc_matches_wire(m.metric_type, x.wire_type) ==> spec_metric_row(app_id, dev_id, Some(m), Some(x)).class
            == class_str(DriftClass::Drifted) && (spec_metric_row(app_id, dev_id, Some(m), Some(x)).details matches Some(
            d,
        ) && d.reason == REASON_WIRE_TYPE_MISMATCH@ && d.opcgw_type == Some(opc_type_str(m.metric_type))
            && d.inferred_type == Some(wire_type_str(x.wire_type))),
        spec_metric_row(app_id, dev_id, Some(m), None).class == class_str(DriftClass::Stale),
        spec_metric_row(app_id, dev_id, Some(m), None).details matches Some(d) && d.reason
            == REASON_NOT_IN_RECENT_UPLINKS@,
        spec_metric_row(app_id, dev_id, None, Some(x)).class == class_str(DriftClass::Available),
        spec_metric_row(app_id, dev_id, None, Some(x)).details is None,
{
}

/// When ChirpStack is unreachable every configured application, device
/// and metric is listed as `ok`, showing its configured id and name (and
/// a metric its key, name and type), with no ChirpStack side and no
/// details.
pub proof fn law_degraded_rows(a: OpcgwApplicationView, j: int, k: int)
    requires
        0 <= j < a.devices@.len(),
    ensures
        degraded_app_row(a).class == class_str(DriftClass::InSync),
        degraded_app_row(a).opcgw == Some((a.application_id@, a.application_name@)),
        degraded_app_row(a).chirpstack is None,
        degraded_dev_rows(a).len() == a.devices@.len(),
        degraded_dev_rows(a)[j].class == class_str(DriftClass::InSync),
        degraded_dev_rows(a)[j].application_id == a.application_id@,
        degraded_dev_rows(a)[j].opcgw == Some((a.devices@[j].device_id@, a.devices@[j].device_name@)),
        degraded_dev_rows(a)[j].chirpstack is None,
        degraded_dev_rows(a)[j].details is None,
        0 <= k < a.devices@[j].metrics@.len() ==> ({
            let d = a.devices@[j];
            let m = d.metrics@[k];
            let r = degraded_device_metrics(a.application_id@, d)[k];
            &&& r.class == class_str(DriftClass::InSync)
            &&& r.application_id == a.application_id@
            &&& r.device_id == d.device_id@
            &&& r.opcgw == Some((m.chirpstack_metric_name@, m.metric_name@, opc_type_str(m.metric_type)))
            &&& r.observed is None
            &&& r.details is None
        }),
{
}

/// The keys compared for a device come from the snapshot's entry for that
/// very application and device, the last such entry; with no entry there
/// are none.
pub proof fn law_observed_source(s: Seq<ObservedForDevice>, app_id: Seq<char>, dev_id: Seq<char>)
    ensures
        match last_observed(s, app_id, dev_id) {
            Some(e) => e.application_id@ == app_id && e.dev_eui@ == dev_id && exists|i: int|
                0 <= i < s.len() && s[i] == e && forall|j: int|
                    i < j < s.len() ==> !((#[trigger] s[j]).application_id@ == app_id && s[j].dev_eui@ == dev_id),
            None => forall|i: int|
                0 <= i < s.len() ==> !((#[trigger] s[i]).application_id@ == app_id && s[i].dev_eui@ == dev_id),
        },
    decreases s.len(),
{
    if s.len() > 0 {
        let init = s.drop_last();
        law_observed_source(init, app_id, dev_id);
        let l = s.last();
        if l.application_id@ == app_id && l.dev_eui@ == dev_id {
            assert(s[s.len() - 1] == l);
        } else {
            match last_observed(init, app_id, dev_id) {
                Some(e) => {
                    let i = choose|i: int|
                        0 <= i < init.len() && init[i] == e && forall|j: int|
                            i < j < init.len() ==> !((#[trigger] init[j]).application_id@ == app_id
                                && init[j].dev_eui@ == dev_id);
                    assert(s[i] == e);
                    assert forall|j: int| i < j < s.len() implies !((#[trigger] s[j]).application_id@ == app_id
                        && s[j].dev_eui@ == dev_id) by {
                        if j < s.len() - 1 {
                            assert(s[j] == init[j]);
                        }
                    }
                },
                None => {
                    assert forall|i: int| 0 <= i < s.len() implies !((#[trigger] s[i]).application_id@ == app_id
                        && s[i].dev_eui@ == dev_id) by {
                        if i < s.len() - 1 {
                            assert(s[i] == init[i]);
                        }
                    }
                },
            }
        }
    }
}

/// The configured side of the diff shows each configured application,
/// device and metric with its own id, name, key and type.
pub proof fn law_configured_view(v: OpcgwApplicationView, a: ChirpStackApplications, j: int, k: int)
    requires
        app_view_of(v, a),
        0 <= j < a.device_list@.len(),
    ensures
        v.application_id@ == a.application_id@,
        v.application_name@ == a.application_name@,
        v.devices@.len() == a.device_list@.len(),
        v.devices@[j].device_id@ == a.device_list@[j].device_id@,
        v.devices@[j].device_name@ == a.device_list@[j].device_name@,
        0 <= k < a.device_list@[j].read_metric_list@.len() ==> v.devices@[j].metrics@[k].metric_name@
            == a.device_list@[j].read_metric_list@[k].metric_name@ && v.devices@[j].metrics@[k].chirpstack_metric_name@
            == a.device_list@[j].read_metric_list@[k].chirpstack_metric_name@ && v.devices@[j].metrics@[k].metric_type
            == a.device_list@[j].read_metric_list@[k].metric_type,
{
    assert(device_view_of(v.devices@[j], a.device_list@[j]));
    if 0 <= k < a.device_list@[j].read_metric_list@.len() {
        assert(metric_view_of(v.devices@[j].metrics@[k], a.device_list@[j].read_metric_list@[k]));
    }
}

proof fn lemma_targets_in_app(app_id: Seq<char>, devs: Seq<OpcgwDeviceView>, cs_keys: Seq<Seq<char>>, p: (Seq<char>, Seq<char>))
    ensures
        targets_in_app(app_id, devs, cs_keys).contains(p) <==> p.0 == app_id && cs_keys.contains(p.1) && exists|j: int|
            0 <= j < devs.len() && (#[trigger] devs[j]).device_id@ == p.1,
    decreases devs.len(),
{
    if devs.len() > 0 {
        let init = devs.drop_last();
        lemma_targets_in_app(app_id, init, cs_keys, p);
        let l = devs.last();
        let head = targets_in_app(app_id, init, cs_keys);
        let tail: Seq<(Seq<char>, Seq<char>)> = if cs_keys.contains(l.device_id@) {
            seq![(app_id, l.device_id@)]
        } else {
            Seq::empty()
        };
        assert(targets_in_app(app_id, devs, cs_keys) == head + tail);
        if (head + tail).contains(p) {
            let q = choose|q: int| 0 <= q < (head + tail).len() && (head + tail)[q] == p;
            if q < head.len() {
                assert(head[q] == p);
                let j = choose|j: int| 0 <= j < init.len() && (#[trigger] init[j]).device_id@ == p.1;
                assert(devs[j] == init[j]);
            } else {
                assert(tail[q - head.len()] == p);
                assert(devs[devs.len() - 1] == l);
            }
        }
        if p.0 == app_id && cs_keys.contains(p.1) && exists|j: int|
            0 <= j < devs.len() && (#[trigger] devs[j]).device_id@ == p.1 {
            let j = choose|j: int| 0 <= j < devs.len() && (#[trigger] devs[j]).device_id@ == p.1;
            if j < devs.len() - 1 {
                assert(init[j] == devs[j]);
                assert(head.contains(p));
                let q = choose|q: int| 0 <= q < head.len() && head[q] == p;
                assert((head + tail)[q] == p);
            } else {
                assert(tail[0] == p);
                assert((head + tail)[head.len() as int] == p);
            }
        }
    }
}

/// The devices whose uplinks are fetched are exactly the configured
/// devices that ChirpStack also lists under the same application.
pub proof fn law_uplink_targets(
    opcgw: Seq<OpcgwApplicationView>,
    devices_by_app: Seq<DevicesForApplication>,
    p: (Seq<char>, Seq<char>),
)
    ensures
        uplink_targets_spec(opcgw, devices_by_app).contains(p) <==> (last_with_key(devices_by_app, p.0) matches Some(
            e,
        ) && keys_of(e.devices@).contains(p.1) && exists|i: int, j: int|
            0 <= i < opcgw.len() && (#[trigger] opcgw[i]).application_id@ == p.0 && 0 <= j < opcgw[i].devices@.len()
                && (#[trigger] opcgw[i].devices@[j]).device_id@ == p.1),
    decreases opcgw.len(),
{
    if opcgw.len() > 0 {
        let init = opcgw.drop_last();
        law_uplink_targets(init, devices_by_app, p);
        let a = opcgw.last();
        let head = uplink_targets_spec(init, devices_by_app);
        let tail = match last_with_key(devices_by_app, a.application_id@) {
            Some(e) => targets_in_app(a.application_id@, a.devices@, keys_of(e.devices@)),
            None => Seq::<(Seq<char>, Seq<char>)>::empty(),
        };
        assert(uplink_targets_spec(opcgw, devices_by_app) == head + tail);
        if let Some(e) = last_with_key(devices_by_app, a.application_id@) {
            lemma_targets_in_app(a.application_id@, a.devices@, keys_of(e.devices@), p);
        }
        if (head + tail).contains(p) {
            let q = choose|q: int| 0 <= q < (head + tail).len() && (head + tail)[q] == p;
            if q < head.len() {
                assert(head[q] == p);
                assert(head.contains(p));
                let (i, j) = choose|i: int, j: int|
                    0 <= i < init.len() && (#[trigger] init[i]).application_id@ == p.0 && 0 <= j
                        < init[i].devices@.len() && (#[trigger] init[i].devices@[j]).device_id@ == p.1;
                assert(opcgw[i] == init[i]);
            } else {
                assert(tail[q - head.len()] == p);
                assert(tail.contains(p));
                let j = choose|j: int| 0 <= j < a.devices@.len() && (#[trigger] a.devices@[j]).device_id@ == p.1;
                assert(opcgw[opcgw.len() - 1] == a);
                assert(opcgw[opcgw.len() - 1].devices@[j].device_id@ == p.1);
            }
        }
        if (last_with_key(devices_by_app, p.0) matches Some(e) && keys_of(e.devices@).contains(p.1) && exists|
            i: int,
            j: int,
        |
            0 <= i < opcgw.len() && (#[trigger] opcgw[i]).application_id@ == p.0 && 0 <= j < opcgw[i].devices@.len()
                && (#[trigger] opcgw[i].devices@[j]).device_id@ == p.1) {
            let (i, j) = choose|i: int, j: int|
                0 <= i < opcgw.len() && (#[trigger] opcgw[i]).application_id@ == p.0 && 0 <= j
                    < opcgw[i].devices@.len() && (#[trigger] opcgw[i].devices@[j]).device_id@ == p.1;
            if i < opcgw.len() - 1 {
                assert(init[i] == opcgw[i]);
                assert(init[i].devices@[j].device_id@ == p.1);
                assert(head.contains(p));
                let q = choose|q: int| 0 <= q < head.len() && head[q] == p;
                assert((head + tail)[q] == p);
            } else {
                assert(opcgw[i] == a);
                assert(a.devices@[j].device_id@ == p.1);
                assert(tail.contains(p));
                let q = choose|q: int| 0 <= q < tail.len() && tail[q] == p;
                assert((head + tail)[head.len() + q] == p);
            }
        }
    } else {
        assert(uplink_targets_spec(opcgw, devices_by_app) =~= Seq::<(Seq<char>, Seq<char>)>::empty());
    }
}

/// Each record of the diff is looked up by its own id: applications by
/// application id, devices by device id / DevEUI, metrics by ChirpStack
/// key, observed keys by key.
pub proof fn law_drift_keys(
    a: OpcgwApplicationView,
    b: InventoryApplication,
    c: DevicesForApplication,
    d: OpcgwDeviceView,
    e: InventoryDevice,
    m: OpcgwMetricView,
    x: ObservedKey,
)
    ensures
        a.key_view() == a.application_id@,
        b.key_view() == b.id@,
        c.key_view() == c.application_id@,
        d.key_view() == d.device_id@,
        e.key_view() == e.dev_eui@,
        m.key_view() == m.chirpstack_metric_name@,
        x.key_view() == x.key@,
{
}

} // verus!
