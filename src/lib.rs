//! Telemetry aggregation for home IoT devices: topic classification,
//! payload decoding, a per-device state registry and metrics rendering.

pub mod config;
pub mod device;
pub mod ident;
pub mod ingest;
pub mod json;
pub mod number;
pub mod registry;
pub mod render;
pub mod table;
pub mod text;
pub mod topic;
