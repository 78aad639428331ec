//! The gateway's configured topology: applications, their devices and
//! the metrics read from each device.

use vstd::prelude::*;
use crate::keyed::Keyed;

verus! {

/// Configured OPC UA data type of a metric.
#[derive(Clone, Copy, Debug, PartialEq, Eq, Structural)]
pub enum OpcMetricTypeConfig {
    Float,
    Int,
    Bool,
    String,
}

/// One metric read from a device's uplinks.
#[derive(Clone, Debug)]
pub struct ReadMetric {
    pub metric_name: String,
    pub chirpstack_metric_name: String,
    pub metric_type: OpcMetricTypeConfig,
    pub metric_unit: Option<String>,
}

/// One downlink command configured on a device.
#[derive(Clone, Debug)]
pub struct DeviceCommandCfg {
    pub command_id: i32,
    pub command_name: String,
    pub command_confirmed: bool,
    pub command_port: i32,
    pub command_class: Option<String>,
}

/// One configured device.
#[derive(Clone, Debug)]
pub struct ChirpstackDevice {
    pub device_id: String,
    pub device_name: String,
    pub read_metric_list: Vec<ReadMetric>,
    pub device_command_list: Option<Vec<DeviceCommandCfg>>,
}

/// One configured ChirpStack application.
#[derive(Clone, Debug)]
pub struct ChirpStackApplications {
    pub application_name: String,
    pub application_id: String,
    pub device_list: Vec<ChirpstackDevice>,
}

/// OPC UA credentials shared with the web surface.
#[derive(Clone, Debug)]
pub struct OpcUaConfig {
    pub user_name: String,
    pub user_password: String,
}

/// The parts of the application configuration that the web layer reads.
#[derive(Clone, Debug)]
pub struct AppConfig {
    pub opcua: OpcUaConfig,
    pub application_list: Vec<ChirpStackApplications>,
}

/// An application with no devices.
pub fn make_app(id: &str, name: &str) -> (r: ChirpStackApplications)
    ensures
        r.application_id@ == id@,
        r.application_name@ == name@,
        r.device_list@.len() == 0,
{
    ChirpStackApplications { application_id: id.to_string(), application_name: name.to_string(), device_list: Vec::new() }
}

/// A device with no metrics and no commands.
pub fn make_device(id: &str, name: &str) -> (r: ChirpstackDevice)
    ensures
        r.device_id@ == id@,
        r.device_name@ == name@,
        r.read_metric_list@.len() == 0,
        r.device_command_list is None,
{
    ChirpstackDevice {
        device_id: id.to_string(),
        device_name: name.to_string(),
        read_metric_list: Vec::new(),
        device_command_list: None,
    }
}

/// A `Float` metric without a unit, read from the uplink key `cs_name`.
pub fn make_metric(cs_name: &str, m_name: &str) -> (r: ReadMetric)
    ensures
        r.chirpstack_metric_name@ == cs_name@,
        r.metric_name@ == m_name@,
        r.metric_type == OpcMetricTypeConfig::Float,
        r.metric_unit is None,
{
    ReadMetric {
        chirpstack_metric_name: cs_name.to_string(),
        metric_name: m_name.to_string(),
        metric_type: OpcMetricTypeConfig::Float,
        metric_unit: None,
    }
}

/// An unconfirmed command with id 1 on port 10 and no class.
pub fn make_command(name: &str) -> (r: DeviceCommandCfg)
    ensures
        r.command_name@ == name@,
        r.command_id == 1,
        !r.command_confirmed,
        r.command_port == 10,
        r.command_class is None,
{
    DeviceCommandCfg {
        command_name: name.to_string(),
        command_id: 1,
        command_confirmed: false,
        command_port: 10,
        command_class: None,
    }
}

impl Keyed for ChirpStackApplications {
    open spec fn key_view(&self) -> Seq<char> {
        self.application_id@
    }

    fn key(&self) -> (r: &String) {
        &self.application_id
    }
}

impl Keyed for ChirpstackDevice {
    open spec fn key_view(&self) -> Seq<char> {
        self.device_id@
    }

    fn key(&self) -> (r: &String) {
        &self.device_id
    }
}

/// Configured applications and devices are looked up by their ids.
pub proof fn law_config_keys(a: ChirpStackApplications, d: ChirpstackDevice)
    ensures
        a.key_view() == a.application_id@,
        d.key_view() == d.device_id@,
{
}

} // verus!
