//! Conversions from the earlier shapes to the contract shapes.

use vstd::prelude::*;
use crate::bridge::contract as c;
use crate::bridge::types as t;
use crate::bridge::json::{object_text, json_object_text, JsonScalar, JsonScalarView, members_view};
use crate::text::{copy_opt, opt_view, decimal, decimal_string};

verus! {

/// The artifact kind that a plugin kind is published as.
pub open spec fn kind_name(k: t::PluginKind) -> Seq<char> {
    match k {
        t::PluginKind::Wasm => "WasmComponent"@,
        t::PluginKind::Dylib => "Dylib"@,
        t::PluginKind::Process => "Process"@,
    }
}

/// The plane that a channel kind travels on.
pub open spec fn channel_plane(k: t::ChannelKind) -> Seq<char> {
    match k {
        t::ChannelKind::EventBus => "control"@,
        _ => "data"@,
    }
}

pub open spec fn timer_converted(out: c::TimerBinding, t: t::TimerBinding) -> bool {
    &&& out.id == t.id
    &&& out.schedule.interval_ms == t.schedule.interval_ms
    &&& out.schedule.align_to == t.schedule.align_to
    &&& out.miss_policy == t.miss_policy
}

pub open spec fn timers_converted(out: Option<Vec<c::TimerBinding>>, inp: Option<Vec<t::TimerBinding>>) -> bool {
    match (out, inp) {
        (None, None) => true,
        (Some(o), Some(i)) => o@.len() == i@.len()
            && forall|k: int| 0 <= k < i@.len() ==> #[trigger] timer_converted(o@[k], i@[k]),
        _ => false,
    }
}

/// The quality-of-service document of a manifest built from resource hints:
/// the object with the members `deadline_ns`, `priority` and `qos`, in that
/// order, each `null` when absent.
pub open spec fn resources_qos(r: Option<t::ResourceHints>) -> Option<Seq<char>> {
    match r {
        Some(h) => Some(object_text(seq![
            ("deadline_ns"@, match h.deadline_ns { Some(d) => JsonScalarView::Int(d), None => JsonScalarView::Null }),
            ("priority"@, match h.priority { Some(p) => JsonScalarView::Int(p as u64), None => JsonScalarView::Null }),
            ("qos"@, match h.qos { Some(q) => JsonScalarView::Text(q@), None => JsonScalarView::Null }),
        ])),
        None => None,
    }
}

/// The resource hints as the members of the quality-of-service object.
fn resource_members(h: &t::ResourceHints) -> (r: Vec<(String, JsonScalar)>)
    ensures
        members_view(r@) == seq![
            ("deadline_ns"@, match h.deadline_ns { Some(d) => JsonScalarView::Int(d), None => JsonScalarView::Null }),
            ("priority"@, match h.priority { Some(p) => JsonScalarView::Int(p as u64), None => JsonScalarView::Null }),
            ("qos"@, match h.qos { Some(q) => JsonScalarView::Text(q@), None => JsonScalarView::Null }),
        ],
{
    let mut r: Vec<(String, JsonScalar)> = Vec::new();
    r.push(("deadline_ns".to_string(), match h.deadline_ns {
        Some(d) => JsonScalar::Int(d),
        None => JsonScalar::Null,
    }));
    r.push(("priority".to_string(), match h.priority {
        Some(p) => JsonScalar::Int(p as u64),
        None => JsonScalar::Null,
    }));
    r.push(("qos".to_string(), match &h.qos {
        Some(q) => JsonScalar::Text(q.clone()),
        None => JsonScalar::Null,
    }));
    proof {
        assert(members_view(r@) =~= seq![
            ("deadline_ns"@, match h.deadline_ns { Some(d) => JsonScalarView::Int(d), None => JsonScalarView::Null }),
            ("priority"@, match h.priority { Some(p) => JsonScalarView::Int(p as u64), None => JsonScalarView::Null }),
            ("qos"@, match h.qos { Some(q) => JsonScalarView::Text(q@), None => JsonScalarView::Null }),
        ]);
    }
    r
}

pub open spec fn manifest_converted(out: c::PluginManifest, m: t::PluginManifest) -> bool {
    &&& out.plugin_id == m.id
    &&& opt_view(out.version) == Some("0.1.0"@)
    &&& opt_view(out.category) == Some("Business"@)
    &&& opt_view(out.role) == Some("Transform"@)
    &&& opt_view(out.origin) == Some("external"@)
    &&& out.artifact is Some
    &&& out.artifact->0.kind@ == kind_name(m.kind)
    &&& out.artifact->0.uri == m.entry
    &&& out.io is None
    &&& opt_view(out.qos) == resources_qos(m.resources)
    &&& timers_converted(out.timers, m.timers)
    &&& out.features is None
    &&& out.annotations is None
}

pub open spec fn route_converted(out: c::Route, r: t::RouteSpec) -> bool {
    &&& out.from == r.from
    &&& out.to == r.to
    &&& out.plane@ == match r.plane {
        Some(p) => p@,
        None => channel_plane(r.channel),
    }
    &&& out.topic == r.topic_or_label
    &&& opt_view(out.port) == if r.channel == t::ChannelKind::Stream {
        Some("dataport/"@ + r.from@ + "-"@ + r.to@)
    } else {
        None
    }
    &&& out.content_type@ == match r.content_type {
        Some(x) => x@,
        None => "application/cbor"@,
    }
    &&& out.schema_ver@ == match r.schema_ver {
        Some(x) => x@,
        None => "v1"@,
    }
    &&& out.buffer == r.buffer
    &&& out.watermark == r.watermark
}

pub open spec fn schema_converted(out: c::SchemaDescriptor, s: t::SchemaDescriptor) -> bool {
    &&& out.content_type == s.content_type
    &&& out.schema_ver@ == "v"@ + decimal(s.version as nat)
    &&& out.schema_ref@ == "registry://schemas/"@ + s.id@ + "@v"@ + decimal(s.version as nat)
}

/// The artifact kind of a plugin kind.
pub fn plugin_kind_name(k: &t::PluginKind) -> (r: String)
    ensures
        r@ == kind_name(*k),
{
    match k {
        t::PluginKind::Wasm => "WasmComponent".to_string(),
        t::PluginKind::Dylib => "Dylib".to_string(),
        t::PluginKind::Process => "Process".to_string(),
    }
}

/// The plane of a channel kind.
pub fn channel_kind_plane(k: &t::ChannelKind) -> (r: String)
    ensures
        r@ == channel_plane(*k),
{
    match k {
        t::ChannelKind::EventBus => "control".to_string(),
        _ => "data".to_string(),
    }
}

fn convert_timers(v: &Vec<t::TimerBinding>) -> (r: Vec<c::TimerBinding>)
    ensures
        r@.len() == v@.len(),
        forall|k: int| 0 <= k < v@.len() ==> #[trigger] timer_converted(r@[k], v@[k]),
{
    let mut out: Vec<c::TimerBinding> = Vec::new();
    let mut i: usize = 0;
    while i < v.len()
        invariant
            i <= v@.len(),
            out@.len() == i,
            forall|k: int| 0 <= k < i ==> #[trigger] timer_converted(out@[k], v@[k]),
        decreases v@.len() - i,
    {
        let tb = &v[i];
        out.push(c::TimerBinding {
            id: tb.id.clone(),
            schedule: c::TimerSchedule {
                interval_ms: tb.schedule.interval_ms,
                align_to: copy_opt(&tb.schedule.align_to),
            },
            miss_policy: copy_opt(&tb.miss_policy),
        });
        i = i + 1;
    }
    out
}

impl c::PluginManifest {
    /// The contract manifest of an earlier manifest: a business transform of
    /// external origin at version 0.1.0, whose artifact is the plugin's entry,
    /// with the resource hints as its quality of service and the timers kept.
    pub fn from(m: &t::PluginManifest) -> (r: c::PluginManifest)
        ensures
            manifest_converted(r, *m),
    {
        let qos = match &m.resources {
            Some(h) => Some(json_object_text(&resource_members(h))),
            None => None,
        };
        let timers = match &m.timers {
            Some(v) => Some(convert_timers(v)),
            None => None,
        };
        c::PluginManifest {
            plugin_id: m.id.clone(),
            version: Some("0.1.0".to_string()),
            category: Some("Business".to_string()),
            role: Some("Transform".to_string()),
            origin: Some("external".to_string()),
            artifact: Some(c::Artifact { kind: plugin_kind_name(&m.kind), uri: m.entry.clone() }),
            io: None,
            qos,
            timers,
            features: None,
            annotations: None,
        }
    }
}

impl c::Route {
    /// The contract route of an earlier route: the plane defaults by channel,
    /// a stream gets a data port named after its ends, and content type and
    /// schema version default to CBOR and v1.
    pub fn from(r: &t::RouteSpec) -> (out: c::Route)
        ensures
            route_converted(out, *r),
    {
        let plane = match &r.plane {
            Some(p) => p.clone(),
            None => channel_kind_plane(&r.channel),
        };
        let port = match r.channel {
            t::ChannelKind::Stream => {
                let mut p = "dataport/".to_string();
                p.append(r.from.as_str());
                p.append("-");
                p.append(r.to.as_str());
                Some(p)
            },
            _ => None,
        };
        let content_type = match &r.content_type {
            Some(x) => x.clone(),
            None => "application/cbor".to_string(),
        };
        let schema_ver = match &r.schema_ver {
            Some(x) => x.clone(),
            None => "v1".to_string(),
        };
        c::Route {
            from: r.from.clone(),
            to: r.to.clone(),
            plane,
            topic: r.topic_or_label.clone(),
            port,
            content_type,
            schema_ver,
            buffer: r.buffer,
            watermark: r.watermark,
        }
    }
}

impl c::SchemaDescriptor {
    /// The contract schema of an earlier schema: version `n` becomes `vn`,
    /// and the reference points into the schema registry.
    pub fn from(s: &t::SchemaDescriptor) -> (out: c::SchemaDescriptor)
        ensures
            schema_converted(out, *s),
    {
        let digits = decimal_string(s.version as u64);
        let mut ver = "v".to_string();
        ver.append(digits.as_str());
        let mut reference = "registry://schemas/".to_string();
        reference.append(s.id.as_str());
        reference.append("@v");
        reference.append(digits.as_str());
        c::SchemaDescriptor { content_type: s.content_type.clone(), schema_ver: ver, schema_ref: reference }
    }
}

impl c::CompileOutput {
    /// Converts every manifest, route and schema, keeping their order.
    pub fn from(co: &t::CompileOutput) -> (out: c::CompileOutput)
        ensures
            out.manifests@.len() == co.manifests@.len(),
            forall|k: int| 0 <= k < co.manifests@.len() ==> #[trigger] manifest_converted(out.manifests@[k], co.manifests@[k]),
            out.routes@.len() == co.routes@.len(),
            forall|k: int| 0 <= k < co.routes@.len() ==> #[trigger] route_converted(out.routes@[k], co.routes@[k]),
            out.schemas@.len() == co.schemas@.len(),
            forall|k: int| 0 <= k < co.schemas@.len() ==> #[trigger] schema_converted(out.schemas@[k], co.schemas@[k]),
    {
        let mut manifests: Vec<c::PluginManifest> = Vec::new();
        let mut i: usize = 0;
        while i < co.manifests.len()
            invariant
                i <= co.manifests@.len(),
                manifests@.len() == i,
                forall|k: int| 0 <= k < i ==> #[trigger] manifest_converted(manifests@[k], co.manifests@[k]),
            decreases co.manifests@.len() - i,
        {
            manifests.push(c::PluginManifest::from(&co.manifests[i]));
            i = i + 1;
        }
        let mut routes: Vec<c::Route> = Vec::new();
        let mut i: usize = 0;
        while i < co.routes.len()
            invariant
                i <= co.routes@.len(),
                routes@.len() == i,
                forall|k: int| 0 <= k < i ==> #[trigger] route_converted(routes@[k], co.routes@[k]),
            decreases co.routes@.len() - i,
        {
            routes.push(c::Route::from(&co.routes[i]));
            i = i + 1;
        }
        let mut schemas: Vec<c::SchemaDescriptor> = Vec::new();
        let mut i: usize = 0;
        while i < co.schemas.len()
            invariant
                i <= co.schemas@.len(),
                schemas@.len() == i,
                forall|k: int| 0 <= k < i ==> #[trigger] schema_converted(schemas@[k], co.schemas@[k]),
            decreases co.schemas@.len() - i,
        {
            schemas.push(c::SchemaDescriptor::from(&co.schemas[i]));
            i = i + 1;
        }
        c::CompileOutput { manifests, routes, schemas }
    }
}

} // verus!
