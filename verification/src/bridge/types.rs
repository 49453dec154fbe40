//! The earlier shapes of plugin manifests, routes and schemas. JSON values
//! are held as their text, and floating-point numbers as their decimal text.

use vstd::prelude::*;

verus! {

#[derive(Debug)]
pub struct PluginManifest {
    pub id: String,
    pub kind: PluginKind,
    pub entry: String,
    pub params: String,
    pub resources: Option<ResourceHints>,
    pub timers: Option<Vec<TimerBinding>>,
    pub bus_subscriptions: Option<Vec<BusSubscription>>,
    pub bus_publications: Option<Vec<BusPublication>>,
}

#[derive(Debug, Clone, Copy, PartialEq, Eq, Structural)]
pub enum PluginKind {
    Wasm,
    Dylib,
    Process,
}

#[derive(Debug)]
pub struct ResourceHints {
    pub cpu: Option<String>,
    pub mem: Option<String>,
    pub qos: Option<String>,
    pub priority: Option<u8>,
    pub deadline_ns: Option<u64>,
}

#[derive(Debug)]
pub struct TimerBinding {
    pub id: String,
    pub schedule: TimerSchedule,
    pub miss_policy: Option<String>,
    pub deadline_ns: Option<u64>,
    pub priority: Option<u8>,
}

/// A timer schedule; `rate_hz` and `jitter_pct` are decimal texts.
#[derive(Debug)]
pub struct TimerSchedule {
    pub interval_ms: Option<u64>,
    pub rate_hz: Option<String>,
    pub cron: Option<String>,
    pub start_at: Option<String>,
    pub align_to: Option<String>,
    pub jitter_pct: Option<String>,
}

#[derive(Debug)]
pub struct BusSubscription {
    pub pattern: String,
    pub delivery: Option<String>,
    pub codec: Option<String>,
    pub filter: Option<String>,
}

#[derive(Debug)]
pub struct BusPublication {
    pub topic: String,
    pub codec: Option<String>,
    pub default_envelope: Option<String>,
}

#[derive(Debug)]
pub struct RouteSpec {
    pub from: String,
    pub to: String,
    pub channel: ChannelKind,
    pub topic_or_label: String,
    pub plane: Option<String>,
    pub content_type: Option<String>,
    pub schema_ver: Option<String>,
    pub buffer: Option<u32>,
    pub watermark: Option<u32>,
}

#[derive(Debug, Clone, Copy, PartialEq, Eq, Structural)]
pub enum ChannelKind {
    EventBus,
    Stream,
    BlobRef,
}

#[derive(Debug)]
pub struct SchemaDescriptor {
    pub id: String,
    pub content_type: String,
    pub version: u32,
    pub meta: String,
}

#[derive(Debug)]
pub struct CompileOutput {
    pub manifests: Vec<PluginManifest>,
    pub routes: Vec<RouteSpec>,
    pub schemas: Vec<SchemaDescriptor>,
}

} // verus!
