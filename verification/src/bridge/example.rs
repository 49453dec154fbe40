//! A small graph description of a dataflow example and its compilation into
//! contract shapes.

use vstd::prelude::*;
use crate::bridge::contract as c;
use crate::text::{copy_opt, opt_is, opt_view, after_last_slash, text_after_last_slash};

verus! {

/// A dataflow example: nodes that run plugins, and routes between them.
#[derive(Debug)]
pub struct ExampleDag {
    pub nodes: Vec<ExampleNode>,
    pub routes: Vec<ExampleRoute>,
}

/// A node; `qos` holds a JSON document as text.
#[derive(Debug)]
pub struct ExampleNode {
    pub id: String,
    pub origin: Option<String>,
    pub category: Option<String>,
    pub plugin: ExamplePlugin,
    pub io: Option<ExampleIo>,
    pub qos: Option<String>,
    pub bindings: Option<ExampleBindings>,
}

/// The plugin a node runs; `plugin_type` names a system plugin such as a
/// timer source.
#[derive(Debug)]
pub struct ExamplePlugin {
    pub kind: String,
    pub artifact: Option<String>,
    pub plugin_type: Option<String>,
}

#[derive(Debug)]
pub struct ExampleIo {
    pub inputs: Option<Vec<IoType>>,
    pub outputs: Option<Vec<IoType>>,
}

#[derive(Debug)]
pub struct IoType {
    pub content_type: String,
    pub schema_ver: String,
}

#[derive(Debug)]
pub struct ExampleBindings {
    pub timer: Option<Vec<ExampleTimerBinding>>,
}

#[derive(Debug)]
pub struct ExampleTimerBinding {
    pub id: String,
    pub schedule: ExampleTimerSchedule,
    pub miss_policy: Option<String>,
}

#[derive(Debug)]
pub struct ExampleTimerSchedule {
    pub interval_ms: Option<u64>,
    pub align_to: Option<String>,
}

#[derive(Debug)]
pub struct ExampleRoute {
    pub from: String,
    pub to: String,
    pub plane: String,
    pub topic: String,
    pub port: Option<String>,
    pub content_type: Option<String>,
    pub schema_ver: Option<String>,
    pub buffer: Option<u32>,
    pub watermark: Option<u32>,
}

/// A system node whose plugin is a timer source.
pub open spec fn is_timer_source(n: ExampleNode) -> bool {
    opt_view(n.category) == Some("System"@) && opt_view(n.plugin.plugin_type) == Some("timer-source"@)
}

/// The plugin id of a node's manifest: timer sources share one id, a
/// resource is named after the last path segment of its artifact.
pub open spec fn manifest_id(n: ExampleNode) -> Seq<char> {
    if is_timer_source(n) {
        "timer-source"@
    } else if opt_view(n.category) == Some("Resource"@) {
        match n.plugin.artifact {
            Some(u) => "resource-"@ + after_last_slash(u@),
            None => n.id@,
        }
    } else {
        n.id@
    }
}

pub open spec fn has_inputs(n: ExampleNode) -> bool {
    n.io is Some && n.io->0.inputs is Some
}

pub open spec fn has_outputs(n: ExampleNode) -> bool {
    n.io is Some && n.io->0.outputs is Some
}

/// The role inferred for a node.
pub open spec fn manifest_role(n: ExampleNode) -> Option<Seq<char>> {
    if opt_view(n.category) == Some("Resource"@) {
        Some("EnvProvider"@)
    } else if is_timer_source(n) {
        Some("Timer"@)
    } else if opt_view(n.category) == Some("Business"@) && has_inputs(n) && has_outputs(n) {
        Some("SourceTransform"@)
    } else if opt_view(n.category) == Some("Business"@) && has_inputs(n) {
        Some("Sink"@)
    } else {
        None
    }
}

pub open spec fn artifact_made(out: Option<c::Artifact>, n: ExampleNode) -> bool {
    if is_timer_source(n) {
        out is Some && out->0.kind@ == "WasmComponent"@ && out->0.uri@ == "builtin://chronetix/system/timer"@
    } else {
        match n.plugin.artifact {
            Some(u) => out is Some && out->0.kind@ == "WasmComponent"@ && out->0.uri == u,
            None => out is None,
        }
    }
}

pub open spec fn io_types_copied(out: Option<Vec<c::IoType>>, inp: Option<Vec<IoType>>) -> bool {
    match (out, inp) {
        (None, None) => true,
        (Some(o), Some(i)) => o@.len() == i@.len() && forall|k: int| 0 <= k < i@.len() ==>
            #[trigger] o@[k].content_type == i@[k].content_type && o@[k].schema_ver == i@[k].schema_ver
                && o@[k].schema_ref is None,
        _ => false,
    }
}

pub open spec fn io_copied(out: Option<c::IoSpec>, inp: Option<ExampleIo>) -> bool {
    match (out, inp) {
        (None, None) => true,
        (Some(o), Some(i)) => io_types_copied(o.inputs, i.inputs) && io_types_copied(o.outputs, i.outputs),
        _ => false,
    }
}

pub open spec fn timer_copied(out: c::TimerBinding, t: ExampleTimerBinding) -> bool {
    &&& out.id == t.id
    &&& out.schedule.interval_ms == t.schedule.interval_ms
    &&& out.schedule.align_to == t.schedule.align_to
    &&& out.miss_policy == t.miss_policy
}

/// The timer list that a node's bindings declare, if any.
pub open spec fn node_timers(n: ExampleNode) -> Option<Vec<ExampleTimerBinding>> {
    match n.bindings {
        Some(b) => b.timer,
        None => None,
    }
}

pub open spec fn timers_copied(out: Option<Vec<c::TimerBinding>>, inp: Option<Vec<ExampleTimerBinding>>) -> bool {
    match (out, inp) {
        (None, None) => true,
        (Some(o), Some(i)) => o@.len() == i@.len()
            && forall|k: int| 0 <= k < i@.len() ==> #[trigger] timer_copied(o@[k], i@[k]),
        _ => false,
    }
}

/// The manifest that a node compiles to.
pub open spec fn node_compiled(out: c::PluginManifest, n: ExampleNode) -> bool {
    &&& out.plugin_id@ == manifest_id(n)
    &&& opt_view(out.version) == Some("0.1.0"@)
    &&& out.category == n.category
    &&& opt_view(out.role) == manifest_role(n)
    &&& out.origin == n.origin
    &&& artifact_made(out.artifact, n)
    &&& io_copied(out.io, n.io)
    &&& out.qos == n.qos
    &&& timers_copied(out.timers, node_timers(n))
    &&& out.features is None
    &&& out.annotations is None
}

/// The route that an example route compiles to: content type and schema
/// version default to JSON and v1, and a data-plane route defaults to a
/// buffer of 64 and a watermark of 48.
pub open spec fn route_compiled(out: c::Route, r: ExampleRoute) -> bool {
    let is_data = r.plane@ == "data"@;
    &&& out.from == r.from
    &&& out.to == r.to
    &&& out.plane == r.plane
    &&& out.topic == r.topic
    &&& out.port == r.port
    &&& out.content_type@ == match r.content_type {
        Some(x) => x@,
        None => "application/json"@,
    }
    &&& out.schema_ver@ == match r.schema_ver {
        Some(x) => x@,
        None => "v1"@,
    }
    &&& out.buffer == match r.buffer {
        Some(b) => Some(b),
        None => if is_data { Some(64u32) } else { None },
    }
    &&& out.watermark == match r.watermark {
        Some(w) => Some(w),
        None => if is_data { Some(48u32) } else { None },
    }
}

fn copy_io_types(v: &Vec<IoType>) -> (r: Vec<c::IoType>)
    ensures
        io_types_copied(Some(r), Some(*v)),
{
    let mut out: Vec<c::IoType> = Vec::new();
    let mut i: usize = 0;
    while i < v.len()
        invariant
            i <= v@.len(),
            out@.len() == i,
            forall|k: int| 0 <= k < i ==> #[trigger] out@[k].content_type == v@[k].content_type
                && out@[k].schema_ver == v@[k].schema_ver && out@[k].schema_ref is None,
        decreases v@.len() - i,
    {
        out.push(c::IoType {
            content_type: v[i].content_type.clone(),
            schema_ver: v[i].schema_ver.clone(),
            schema_ref: None,
        });
        i = i + 1;
    }
    out
}

fn copy_opt_io_types(v: &Option<Vec<IoType>>) -> (r: Option<Vec<c::IoType>>)
    ensures
        io_types_copied(r, *v),
{
    match v {
        Some(x) => Some(copy_io_types(x)),
        None => None,
    }
}

fn copy_timers(v: &Vec<ExampleTimerBinding>) -> (r: Vec<c::TimerBinding>)
    ensures
        timers_copied(Some(r), Some(*v)),
{
    let mut out: Vec<c::TimerBinding> = Vec::new();
    let mut i: usize = 0;
    while i < v.len()
        invariant
            i <= v@.len(),
            out@.len() == i,
            forall|k: int| 0 <= k < i ==> #[trigger] timer_copied(out@[k], v@[k]),
        decreases v@.len() - i,
    {
        let t = &v[i];
        out.push(c::TimerBinding {
            id: t.id.clone(),
            schedule: c::TimerSchedule {
                interval_ms: t.schedule.interval_ms,
                align_to: copy_opt(&t.schedule.align_to),
            },
            miss_policy: copy_opt(&t.miss_policy),
        });
        i = i + 1;
    }
    out
}

fn node_is_timer_source(n: &ExampleNode) -> (r: bool)
    ensures
        r == is_timer_source(*n),
{
    opt_is(&n.category, "System") && opt_is(&n.plugin.plugin_type, "timer-source")
}

fn compile_node(n: &ExampleNode) -> (out: c::PluginManifest)
    ensures
        node_compiled(out, *n),
{
    let timer_source = node_is_timer_source(n);
    let is_resource = opt_is(&n.category, "Resource");
    let is_business = opt_is(&n.category, "Business");
    let plugin_id = if timer_source {
        "timer-source".to_string()
    } else if is_resource {
        match &n.plugin.artifact {
            Some(uri) => {
                let mut id = "resource-".to_string();
                let last = text_after_last_slash(uri.as_str());
                id.append(last.as_str());
                id
            },
            None => n.id.clone(),
        }
    } else {
        n.id.clone()
    };
    let (has_in, has_out) = match &n.io {
        Some(io) => (io.inputs.is_some(), io.outputs.is_some()),
        None => (false, false),
    };
    let role = if is_resource {
        Some("EnvProvider".to_string())
    } else if timer_source {
        Some("Timer".to_string())
    } else if is_business && has_in && has_out {
        Some("SourceTransform".to_string())
    } else if is_business && has_in {
        Some("Sink".to_string())
    } else {
        None
    };
    let artifact = if timer_source {
        Some(c::Artifact {
            kind: "WasmComponent".to_string(),
            uri: "builtin://chronetix/system/timer".to_string(),
        })
    } else {
        match &n.plugin.artifact {
            Some(uri) => Some(c::Artifact { kind: "WasmComponent".to_string(), uri: uri.clone() }),
            None => None,
        }
    };
    let io = match &n.io {
        Some(io) => Some(c::IoSpec {
            inputs: copy_opt_io_types(&io.inputs),
            outputs: copy_opt_io_types(&io.outputs),
        }),
        None => None,
    };
    let timers = match &n.bindings {
        Some(b) => match &b.timer {
            Some(v) => Some(copy_timers(v)),
            None => None,
        },
        None => None,
    };
    c::PluginManifest {
        plugin_id,
        version: Some("0.1.0".to_string()),
        category: copy_opt(&n.category),
        role,
        origin: copy_opt(&n.origin),
        artifact,
        io,
        qos: copy_opt(&n.qos),
        timers,
        features: None,
        annotations: None,
    }
}

fn compile_route(r: &ExampleRoute) -> (out: c::Route)
    ensures
        route_compiled(out, *r),
{
    let is_data = r.plane == "data".to_string();
    let buffer = match r.buffer {
        Some(b) => Some(b),
        None => if is_data { Some(64u32) } else { None },
    };
    let watermark = match r.watermark {
        Some(w) => Some(w),
        None => if is_data { Some(48u32) } else { None },
    };
    c::Route {
        from: r.from.clone(),
        to: r.to.clone(),
        plane: r.plane.clone(),
        topic: r.topic.clone(),
        port: copy_opt(&r.port),
        content_type: match &r.content_type {
            Some(x) => x.clone(),
            None => "application/json".to_string(),
        },
        schema_ver: match &r.schema_ver {
            Some(x) => x.clone(),
            None => "v1".to_string(),
        },
        buffer,
        watermark,
    }
}

impl ExampleDag {
    /// Compiles the example into contract shapes: one manifest per node and
    /// one route per route, in order, and the single network-information
    /// schema that the example's resource provides.
    pub fn to_contract(&self) -> (out: c::CompileOutput)
        ensures
            out.manifests@.len() == self.nodes@.len(),
            forall|k: int| 0 <= k < self.nodes@.len() ==> #[trigger] node_compiled(out.manifests@[k], self.nodes@[k]),
            out.routes@.len() == self.routes@.len(),
            forall|k: int| 0 <= k < self.routes@.len() ==> #[trigger] route_compiled(out.routes@[k], self.routes@[k]),
            out.schemas@.len() == 1,
            out.schemas@[0].content_type@ == "application/json"@,
            out.schemas@[0].schema_ver@ == "v1"@,
            out.schemas@[0].schema_ref@ == "registry://schemas/resource/netinfo@v1"@,
    {
        let mut manifests: Vec<c::PluginManifest> = Vec::new();
        let mut i: usize = 0;
        while i < self.nodes.len()
            invariant
                i <= self.nodes@.len(),
                manifests@.len() == i,
                forall|k: int| 0 <= k < i ==> #[trigger] node_compiled(manifests@[k], self.nodes@[k]),
            decreases self.nodes@.len() - i,
        {
            manifests.push(compile_node(&self.nodes[i]));
            i = i + 1;
        }
        let mut routes: Vec<c::Route> = Vec::new();
        let mut i: usize = 0;
        while i < self.routes.len()
            invariant
                i <= self.routes@.len(),
                routes@.len() == i,
                forall|k: int| 0 <= k < i ==> #[trigger] route_compiled(routes@[k], self.routes@[k]),
            decreases self.routes@.len() - i,
        {
            routes.push(compile_route(&self.routes[i]));
            i = i + 1;
        }
        let mut schemas: Vec<c::SchemaDescriptor> = Vec::new();
        schemas.push(c::SchemaDescriptor {
            content_type: "application/json".to_string(),
            schema_ver: "v1".to_string(),
            schema_ref: "registry://schemas/resource/netinfo@v1".to_string(),
        });
        c::CompileOutput { manifests, routes, schemas }
    }
}

} // verus!
