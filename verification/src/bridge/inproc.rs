//! Compiling a simple in-process graph description into contract shapes.

use vstd::prelude::*;
use crate::bridge::contract as c;
use crate::bridge::types::{ChannelKind, PluginKind};
use crate::bridge::convert::{kind_name, channel_plane, plugin_kind_name, channel_kind_plane};
use crate::bridge::json::{object_text, json_object_text, JsonScalar, JsonScalarView, members_view};
use crate::text::{opt_view, same_text};

verus! {

/// Compiles a graph or description of a flow into contract shapes.
pub trait FlowAdapter {
    type GraphDef;

    fn compile(graph: &Self::GraphDef) -> Result<c::CompileOutput, String>;
}

/// A node as the dataflow executor runs it.
pub trait NodeRunner {
    /// Prepares what the node needs.
    fn init(&mut self) -> Result<(), String>;

    /// Starts the node.
    fn start(&mut self) -> Result<(), String>;

    /// Stops the node gracefully.
    fn stop(&mut self) -> Result<(), String>;
}

/// A simple graph of nodes joined by edges.
#[derive(Debug)]
pub struct SimpleGraph {
    pub nodes: Vec<SimpleNode>,
    pub edges: Vec<SimpleEdge>,
}

#[derive(Debug)]
pub struct SimpleNode {
    pub id: String,
    pub kind: String,
    pub impl_kind: String,
    pub entry: String,
    pub qos: Option<String>,
    pub priority: Option<u8>,
    pub deadline_ns: Option<u64>,
}

#[derive(Debug)]
pub struct SimpleEdge {
    pub from: String,
    pub to: String,
    pub channel: String,
    pub label: String,
}

/// Compiles simple graphs in process.
pub struct InprocAdapter;

/// The plugin kind named by an implementation kind; unknown names run as a
/// process.
pub open spec fn impl_kind_of(s: Seq<char>) -> PluginKind {
    if s == "wasm"@ {
        PluginKind::Wasm
    } else if s == "dylib"@ {
        PluginKind::Dylib
    } else {
        PluginKind::Process
    }
}

/// The channel kind named by an edge; unknown names are streams.
pub open spec fn channel_of(s: Seq<char>) -> ChannelKind {
    if s == "event-bus"@ {
        ChannelKind::EventBus
    } else if s == "blob-ref"@ {
        ChannelKind::BlobRef
    } else {
        ChannelKind::Stream
    }
}

pub open spec fn simple_node_compiled(out: c::PluginManifest, n: SimpleNode) -> bool {
    &&& out.plugin_id == n.id
    &&& opt_view(out.version) == Some("0.1.0"@)
    &&& opt_view(out.category) == Some("Business"@)
    &&& opt_view(out.role) == Some("Transform"@)
    &&& opt_view(out.origin) == Some("external"@)
    &&& out.artifact is Some
    &&& out.artifact->0.kind@ == kind_name(impl_kind_of(n.impl_kind@))
    &&& out.artifact->0.uri == n.entry
    &&& out.io is None
    &&& opt_view(out.qos) == match n.qos {
        Some(q) => Some(object_text(seq![("qos"@, JsonScalarView::Text(q@))])),
        None => None,
    }
    &&& out.timers is None
    &&& out.features is None
    &&& out.annotations is None
}

pub open spec fn simple_edge_compiled(out: c::Route, e: SimpleEdge) -> bool {
    let ch = channel_of(e.channel@);
    &&& out.from == e.from
    &&& out.to == e.to
    &&& out.plane@ == channel_plane(ch)
    &&& out.topic == e.label
    &&& opt_view(out.port) == if ch == ChannelKind::Stream {
        Some("dataport/"@ + e.from@ + "-"@ + e.to@)
    } else {
        None
    }
    &&& out.content_type@ == "application/cbor"@
    &&& out.schema_ver@ == "v1"@
    &&& out.buffer is None
    &&& out.watermark is None
}

fn impl_kind(s: &String) -> (r: PluginKind)
    ensures
        r == impl_kind_of(s@),
{
    if same_text(s, "wasm") {
        PluginKind::Wasm
    } else if same_text(s, "dylib") {
        PluginKind::Dylib
    } else {
        PluginKind::Process
    }
}

fn channel_kind(s: &String) -> (r: ChannelKind)
    ensures
        r == channel_of(s@),
{
    if same_text(s, "event-bus") {
        ChannelKind::EventBus
    } else if same_text(s, "blob-ref") {
        ChannelKind::BlobRef
    } else {
        ChannelKind::Stream
    }
}

/// The members of the quality-of-service object of a node: `qos` alone.
fn qos_members(q: &String) -> (r: Vec<(String, JsonScalar)>)
    ensures
        members_view(r@) == seq![("qos"@, JsonScalarView::Text(q@))],
{
    let mut r: Vec<(String, JsonScalar)> = Vec::new();
    r.push(("qos".to_string(), JsonScalar::Text(q.clone())));
    proof {
        assert(members_view(r@) =~= seq![("qos"@, JsonScalarView::Text(q@))]);
    }
    r
}

fn compile_simple_node(n: &SimpleNode) -> (out: c::PluginManifest)
    ensures
        simple_node_compiled(out, *n),
{
    let kind = impl_kind(&n.impl_kind);
    c::PluginManifest {
        plugin_id: n.id.clone(),
        version: Some("0.1.0".to_string()),
        category: Some("Business".to_string()),
        role: Some("Transform".to_string()),
        origin: Some("external".to_string()),
        artifact: Some(c::Artifact { kind: plugin_kind_name(&kind), uri: n.entry.clone() }),
        io: None,
        qos: match &n.qos {
            Some(q) => Some(json_object_text(&qos_members(q))),
            None => None,
        },
        timers: None,
        features: None,
        annotations: None,
    }
}

fn compile_simple_edge(e: &SimpleEdge) -> (out: c::Route)
    ensures
        simple_edge_compiled(out, *e),
{
    let ch = channel_kind(&e.channel);
    let port = match ch {
        ChannelKind::Stream => {
            let mut p = "dataport/".to_string();
            p.append(e.from.as_str());
            p.append("-");
            p.append(e.to.as_str());
            Some(p)
        },
        _ => None,
    };
    c::Route {
        from: e.from.clone(),
        to: e.to.clone(),
        plane: channel_kind_plane(&ch),
        topic: e.label.clone(),
        port,
        content_type: "application/cbor".to_string(),
        schema_ver: "v1".to_string(),
        buffer: None,
        watermark: None,
    }
}

impl FlowAdapter for InprocAdapter {
    type GraphDef = SimpleGraph;

    /// One business-transform manifest per node and one route per edge, in
    /// order, with a single default CBOR schema; a graph without nodes is
    /// refused.
    fn compile(graph: &SimpleGraph) -> (r: Result<c::CompileOutput, String>)
        ensures
            match r {
                Ok(out) => {
                    &&& graph.nodes@.len() > 0
                    &&& out.manifests@.len() == graph.nodes@.len()
                    &&& forall|k: int| 0 <= k < graph.nodes@.len() ==> #[trigger] simple_node_compiled(out.manifests@[k], graph.nodes@[k])
                    &&& out.routes@.len() == graph.edges@.len()
                    &&& forall|k: int| 0 <= k < graph.edges@.len() ==> #[trigger] simple_edge_compiled(out.routes@[k], graph.edges@[k])
                    &&& out.schemas@.len() == 1
                    &&& out.schemas@[0].content_type@ == "application/cbor"@
                    &&& out.schemas@[0].schema_ver@ == "v1"@
                    &&& out.schemas@[0].schema_ref@ == "registry://schemas/default@v1"@
                },
                Err(e) => graph.nodes@.len() == 0 && e@ == "no nodes in graph"@,
            },
    {
        let mut manifests: Vec<c::PluginManifest> = Vec::new();
        let mut i: usize = 0;
        while i < graph.nodes.len()
            invariant
                i <= graph.nodes@.len(),
                manifests@.len() == i,
                forall|k: int| 0 <= k < i ==> #[trigger] simple_node_compiled(manifests@[k], graph.nodes@[k]),
            decreases graph.nodes@.len() - i,
        {
            manifests.push(compile_simple_node(&graph.nodes[i]));
            i = i + 1;
        }
        let mut routes: Vec<c::Route> = Vec::new();
        let mut i: usize = 0;
        while i < graph.edges.len()
            invariant
                i <= graph.edges@.len(),
                routes@.len() == i,
                forall|k: int| 0 <= k < i ==> #[trigger] simple_edge_compiled(routes@[k], graph.edges@[k]),
            decreases graph.edges@.len() - i,
        {
            routes.push(compile_simple_edge(&graph.edges[i]));
            i = i + 1;
        }
        let mut schemas: Vec<c::SchemaDescriptor> = Vec::new();
        schemas.push(c::SchemaDescriptor {
            content_type: "application/cbor".to_string(),
            schema_ver: "v1".to_string(),
            schema_ref: "registry://schemas/default@v1".to_string(),
        });
        if manifests.len() == 0 {
            return Err("no nodes in graph".to_string());
        }
        Ok(c::CompileOutput { manifests, routes, schemas })
    }
}

} // verus!
