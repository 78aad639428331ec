//! Web-layer logic: the dashboard's configuration snapshot and the
//! staleness-threshold clamp.

pub mod api;
pub mod apply;
pub mod auth;
pub mod config_doc;
pub mod config_io;
pub mod config_writer;
pub mod crud;
pub mod csrf;
pub mod drift;
pub mod inventory;

use vstd::prelude::*;
use crate::config::{AppConfig, ChirpStackApplications, ChirpstackDevice, OpcMetricTypeConfig, ReadMetric};
use crate::keyed::Keyed;
use crate::web::api::{BAD_THRESHOLD_SECS, DEFAULT_STALE_THRESHOLD_SECS};

verus! {

/// Configured metric: name and data type.
#[derive(Clone, Debug, PartialEq)]
pub struct MetricSpec {
    pub metric_name: String,
    pub metric_type: OpcMetricTypeConfig,
}

/// One configured device with its metric specs in configuration order.
#[derive(Clone, Debug, PartialEq)]
pub struct DeviceSummary {
    pub device_id: String,
    pub device_name: String,
    pub metrics: Vec<MetricSpec>,
}

/// One configured application with its devices in configuration order.
/// `device_count` equals `devices.len()`.
#[derive(Clone, Debug, PartialEq)]
pub struct ApplicationSummary {
    pub application_id: String,
    pub application_name: String,
    pub device_count: usize,
    pub devices: Vec<DeviceSummary>,
}

/// Snapshot of the configured topology served to the dashboard.
#[derive(Clone, Debug, PartialEq)]
pub struct DashboardConfigSnapshot {
    pub application_count: usize,
    pub device_count: usize,
    pub applications: Vec<ApplicationSummary>,
}

impl Keyed for ApplicationSummary {
    open spec fn key_view(&self) -> Seq<char> {
        self.application_id@
    }

    fn key(&self) -> (r: &String) {
        &self.application_id
    }
}

/// `s` summarises configured metric `m`.
pub open spec fn metric_spec_of(s: MetricSpec, m: ReadMetric) -> bool {
    s.metric_name@ == m.metric_name@ && s.metric_type == m.metric_type
}

/// `s` summarises configured device `d`, metric by metric.
pub open spec fn device_summary_of(s: DeviceSummary, d: ChirpstackDevice) -> bool {
    &&& s.device_id@ == d.device_id@
    &&& s.device_name@ == d.device_name@
    &&& s.metrics@.len() == d.read_metric_list@.len()
    &&& forall|k: int|
        0 <= k < s.metrics@.len() ==> metric_spec_of(#[trigger] s.metrics@[k], d.read_metric_list@[k])
}

/// `s` summarises configured application `a`, device by device.
pub open spec fn app_summary_of(s: ApplicationSummary, a: ChirpStackApplications) -> bool {
    &&& s.application_id@ == a.application_id@
    &&& s.application_name@ == a.application_name@
    &&& s.device_count == a.device_list@.len()
    &&& s.devices@.len() == a.device_list@.len()
    &&& forall|j: int|
        0 <= j < s.devices@.len() ==> device_summary_of(#[trigger] s.devices@[j], a.device_list@[j])
}

/// Number of devices over the first `n` applications.
pub open spec fn devices_in(apps: Seq<ChirpStackApplications>, n: int) -> nat
    decreases n,
{
    if n <= 0 || apps.len() == 0 {
        0
    } else if n > apps.len() {
        devices_in(apps, apps.len() as int)
    } else {
        devices_in(apps, n - 1) + apps[n - 1].device_list@.len()
    }
}

/// Number of configured devices, all applications together.
pub open spec fn total_devices(config: AppConfig) -> nat {
    devices_in(config.application_list@, config.application_list@.len() as int)
}

fn device_summary(d: &ChirpstackDevice) -> (s: DeviceSummary)
    ensures
        device_summary_of(s, *d),
{
    let mut metrics: Vec<MetricSpec> = Vec::new();
    let mut k: usize = 0;
    while k < d.read_metric_list.len()
        invariant
            k <= d.read_metric_list.len(),
            metrics@.len() == k,
            forall|t: int| 0 <= t < k ==> metric_spec_of(#[trigger] metrics@[t], d.read_metric_list@[t]),
        decreases d.read_metric_list.len() - k,
    {
        let m = &d.read_metric_list[k];
        metrics.push(MetricSpec { metric_name: m.metric_name.clone(), metric_type: m.metric_type });
        k = k + 1;
    }
    DeviceSummary { device_id: d.device_id.clone(), device_name: d.device_name.clone(), metrics }
}

fn app_summary(a: &ChirpStackApplications) -> (s: ApplicationSummary)
    ensures
        app_summary_of(s, *a),
{
    let mut devices: Vec<DeviceSummary> = Vec::new();
    let mut j: usize = 0;
    while j < a.device_list.len()
        invariant
            j <= a.device_list.len(),
            devices@.len() == j,
            forall|t: int| 0 <= t < j ==> device_summary_of(#[trigger] devices@[t], a.device_list@[t]),
        decreases a.device_list.len() - j,
    {
        devices.push(device_summary(&a.device_list[j]));
        j = j + 1;
    }
    let device_count = devices.len();
    ApplicationSummary {
        application_id: a.application_id.clone(),
        application_name: a.application_name.clone(),
        device_count,
        devices,
    }
}

impl DashboardConfigSnapshot {
    /// Walks the configured applications once: one summary per
    /// application in configuration order, with the application count
    /// and the total device count.
    pub fn from_config(config: &AppConfig) -> (r: Self)
        requires
            total_devices(*config) <= usize::MAX,
        ensures
            r.application_count == config.application_list@.len(),
            r.device_count == total_devices(*config),
            r.applications@.len() == config.application_list@.len(),
            forall|i: int|
                0 <= i < r.applications@.len() ==> app_summary_of(
                    #[trigger] r.applications@[i],
                    config.application_list@[i],
                ),
    {
        let ghost apps = config.application_list@;
        let mut applications: Vec<ApplicationSummary> = Vec::new();
        let mut device_count: usize = 0;
        let mut i: usize = 0;
        while i < config.application_list.len()
            invariant
                i <= config.application_list.len(),
                apps == config.application_list@,
                applications@.len() == i,
                forall|t: int| 0 <= t < i ==> app_summary_of(#[trigger] applications@[t], apps[t]),
                device_count == devices_in(apps, i as int),
                total_devices(*config) <= usize::MAX,
            decreases config.application_list.len() - i,
        {
            let s = app_summary(&config.application_list[i]);
            proof {
                lemma_devices_in_monotone(apps, i + 1, apps.len() as int);
            }
            device_count = device_count + s.device_count;
            applications.push(s);
            i = i + 1;
        }
        let application_count = applications.len();
        DashboardConfigSnapshot { application_count, device_count, applications }
    }
}

proof fn lemma_devices_in_monotone(apps: Seq<ChirpStackApplications>, a: int, b: int)
    requires
        0 <= a <= b <= apps.len(),
    ensures
        devices_in(apps, a) <= devices_in(apps, b),
    decreases b - a,
{
    if a < b {
        lemma_devices_in_monotone(apps, a, b - 1);
    }
}

/// Outcome of [`clamp_stale_threshold`].
#[derive(Debug, Clone, Copy, PartialEq, Eq, Structural)]
pub enum StaleThresholdClampOutcome {
    Accepted,
    ClampedFromZero,
    ClampedFromAboveBad,
}

/// Clamp a configured stale threshold: `0` and anything above the bad
/// threshold fall back to the default; values in `(0, BAD]` are kept.
pub fn clamp_stale_threshold(raw: u64) -> (res: (u64, StaleThresholdClampOutcome))
    ensures
        raw == 0 ==> res == (DEFAULT_STALE_THRESHOLD_SECS, StaleThresholdClampOutcome::ClampedFromZero),
        raw > BAD_THRESHOLD_SECS ==> res == (DEFAULT_STALE_THRESHOLD_SECS, StaleThresholdClampOutcome::ClampedFromAboveBad),
        0 < raw <= BAD_THRESHOLD_SECS ==> res == (raw, StaleThresholdClampOutcome::Accepted),
{
    if raw == 0 {
        (DEFAULT_STALE_THRESHOLD_SECS, StaleThresholdClampOutcome::ClampedFromZero)
    } else if raw > BAD_THRESHOLD_SECS {
        (DEFAULT_STALE_THRESHOLD_SECS, StaleThresholdClampOutcome::ClampedFromAboveBad)
    } else {
        (raw, StaleThresholdClampOutcome::Accepted)
    }
}

/// The dashboard snapshot shows each configured application, device and
/// metric with its own id, name and type, and counts an application's
/// devices.
pub proof fn law_snapshot_summary(s: ApplicationSummary, a: ChirpStackApplications, j: int, k: int)
    requires
        app_summary_of(s, a),
        0 <= j < a.device_list@.len(),
    ensures
        s.application_id@ == a.application_id@,
        s.application_name@ == a.application_name@,
        s.device_count == a.device_list@.len(),
        s.devices@[j].device_id@ == a.device_list@[j].device_id@,
        s.devices@[j].device_name@ == a.device_list@[j].device_name@,
        0 <= k < a.device_list@[j].read_metric_list@.len() ==> s.devices@[j].metrics@[k].metric_name@
            == a.device_list@[j].read_metric_list@[k].metric_name@ && s.devices@[j].metrics@[k].metric_type
            == a.device_list@[j].read_metric_list@[k].metric_type,
{
    assert(device_summary_of(s.devices@[j], a.device_list@[j]));
    if 0 <= k < a.device_list@[j].read_metric_list@.len() {
        assert(metric_spec_of(s.devices@[j].metrics@[k], a.device_list@[j].read_metric_list@[k]));
    }
}

/// The device total over the applications grows by each application's
/// device count, so it is their sum.
pub proof fn law_total_devices(apps: Seq<ChirpStackApplications>, x: ChirpStackApplications)
    ensures
        devices_in(Seq::empty(), 0) == 0,
        devices_in(apps.push(x), apps.len() + 1int) == devices_in(apps, apps.len() as int) + x.device_list@.len(),
{
    lemma_devices_in_prefix(apps.push(x), apps, apps.len() as int);
}

proof fn lemma_devices_in_prefix(a: Seq<ChirpStackApplications>, b: Seq<ChirpStackApplications>, n: int)
    requires
        0 <= n <= b.len(),
        n <= a.len(),
        forall|i: int| 0 <= i < n ==> a[i] == b[i],
    ensures
        devices_in(a, n) == devices_in(b, n),
    decreases n,
{
    if n > 0 {
        lemma_devices_in_prefix(a, b, n - 1);
    }
}

/// Applications of the snapshot are looked up by their id.
pub proof fn law_summary_key(s: ApplicationSummary)
    ensures
        s.key_view() == s.application_id@,
{
}

} // verus!
