//! ChirpStack-side inventory records as the drift view consumes them.

use vstd::prelude::*;

verus! {

/// One application listed by ChirpStack.
#[derive(Clone, Debug)]
pub struct InventoryApplication {
    pub id: String,
    pub name: String,
    pub description: String,
}

/// One device listed by ChirpStack.
#[derive(Clone, Debug)]
pub struct InventoryDevice {
    pub dev_eui: String,
    pub name: String,
    pub description: String,
    pub device_profile_name: Option<String>,
    pub last_seen_at: Option<String>,
}

/// Wire type inferred for a key observed in recent uplinks.
#[derive(Clone, Copy, Debug, PartialEq, Eq, Structural)]
pub enum WireType {
    Float,
    Int,
    Bool,
    String,
}

/// The stable name of each wire type.
pub open spec fn wire_type_str(w: WireType) -> Seq<char> {
    match w {
        WireType::Float => "Float"@,
        WireType::Int => "Int"@,
        WireType::Bool => "Bool"@,
        WireType::String => "String"@,
    }
}

impl WireType {
    /// Stable name of the wire type.
    pub fn as_str(self) -> (r: &'static str)
        ensures
            r@ == wire_type_str(self),
    {
        match self {
            WireType::Float => "Float",
            WireType::Int => "Int",
            WireType::Bool => "Bool",
            WireType::String => "String",
        }
    }
}

/// A key observed in a device's recent uplinks, with its inferred wire
/// type and a sample value (as JSON text).
#[derive(Clone, Debug)]
pub struct ObservedKey {
    pub key: String,
    pub wire_type: WireType,
    pub sample_value: String,
}

} // verus!
