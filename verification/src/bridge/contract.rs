//! The contract shapes that a compiled flow is handed over in.

use vstd::prelude::*;

verus! {

/// Everything a compiled flow consists of.
#[derive(Debug, PartialEq)]
pub struct CompileOutput {
    pub manifests: Vec<PluginManifest>,
    pub routes: Vec<Route>,
    pub schemas: Vec<SchemaDescriptor>,
}

/// The description of one plugin. `qos`, `features` and `annotations` hold
/// JSON documents as text.
#[derive(Debug, PartialEq)]
pub struct PluginManifest {
    pub plugin_id: String,
    pub version: Option<String>,
    pub category: Option<String>,
    pub role: Option<String>,
    pub origin: Option<String>,
    pub artifact: Option<Artifact>,
    pub io: Option<IoSpec>,
    pub qos: Option<String>,
    pub timers: Option<Vec<TimerBinding>>,
    pub features: Option<String>,
    pub annotations: Option<String>,
}

#[derive(Debug, PartialEq)]
pub struct Artifact {
    pub kind: String,
    pub uri: String,
}

#[derive(Debug, PartialEq)]
pub struct IoSpec {
    pub inputs: Option<Vec<IoType>>,
    pub outputs: Option<Vec<IoType>>,
}

#[derive(Debug, PartialEq)]
pub struct IoType {
    pub content_type: String,
    pub schema_ver: String,
    pub schema_ref: Option<String>,
}

#[derive(Debug, PartialEq)]
pub struct TimerBinding {
    pub id: String,
    pub schedule: TimerSchedule,
    pub miss_policy: Option<String>,
}

#[derive(Debug, PartialEq)]
pub struct TimerSchedule {
    pub interval_ms: Option<u64>,
    pub align_to: Option<String>,
}

/// A connection between two nodes over a data or control plane.
#[derive(Debug, PartialEq)]
pub struct Route {
    pub from: String,
    pub to: String,
    pub plane: String,
    pub topic: String,
    pub port: Option<String>,
    pub content_type: String,
    pub schema_ver: String,
    pub buffer: Option<u32>,
    pub watermark: Option<u32>,
}

#[derive(Debug, PartialEq)]
pub struct SchemaDescriptor {
    pub content_type: String,
    pub schema_ver: String,
    pub schema_ref: String,
}

} // verus!
