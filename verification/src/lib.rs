//! Verified core of the OPC UA / ChirpStack gateway web surface.

pub mod chirpstack_inventory;
pub mod config;
pub mod keyed;
pub mod storage;
pub mod text;
pub mod utils;
pub mod web;
