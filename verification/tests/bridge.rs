use flowbuilder::bridge::contract as c;
use flowbuilder::bridge::example::{
    ExampleBindings, ExampleDag, ExampleIo, ExampleNode, ExamplePlugin, ExampleRoute, ExampleTimerBinding,
    ExampleTimerSchedule, IoType,
};
use flowbuilder::bridge::inproc::{FlowAdapter, InprocAdapter, SimpleEdge, SimpleGraph, SimpleNode};
use flowbuilder::bridge::types as t;

fn route(from: &str, to: &str, channel: t::ChannelKind, topic: &str) -> t::RouteSpec {
    t::RouteSpec {
        from: from.to_string(),
        to: to.to_string(),
        channel,
        topic_or_label: topic.to_string(),
        plane: None,
        content_type: None,
        schema_ver: None,
        buffer: None,
        watermark: None,
    }
}

#[test]
fn legacy_to_contract_route_defaults() {
    let legacy = route("a", "b", t::ChannelKind::Stream, "flow/a-b");
    let r = c::Route::from(&legacy);
    assert_eq!(r.plane, "data");
    assert_eq!(r.content_type, "application/cbor");
    assert_eq!(r.schema_ver, "v1");
    assert!(r.port.is_some());
}

#[test]
fn legacy_to_contract_manifest_basic() {
    let legacy = t::PluginManifest {
        id: "node-1".to_string(),
        kind: t::PluginKind::Wasm,
        entry: "file://plugins/node1.wasm".to_string(),
        params: "{\"k\":\"v\"}".to_string(),
        resources: Some(t::ResourceHints {
            cpu: None,
            mem: None,
            qos: Some("best-effort".to_string()),
            priority: Some(5),
            deadline_ns: Some(2_000_000),
        }),
        timers: Some(vec![t::TimerBinding {
            id: "tick".to_string(),
            schedule: t::TimerSchedule {
                interval_ms: Some(1000),
                rate_hz: None,
                cron: None,
                start_at: None,
                align_to: Some("second".to_string()),
                jitter_pct: None,
            },
            miss_policy: Some("coalesce".to_string()),
            deadline_ns: None,
            priority: None,
        }]),
        bus_subscriptions: None,
        bus_publications: None,
    };

    let m = c::PluginManifest::from(&legacy);
    assert_eq!(m.plugin_id, "node-1");
    assert_eq!(m.version.as_deref(), Some("0.1.0"));
    assert_eq!(m.category.as_deref(), Some("Business"));
    assert_eq!(m.role.as_deref(), Some("Transform"));
    assert_eq!(m.origin.as_deref(), Some("external"));
    let a = m.artifact.as_ref().expect("artifact");
    assert_eq!(a.kind, "WasmComponent");
    assert_eq!(a.uri, "file://plugins/node1.wasm");
    assert!(m.qos.is_some());
    assert!(m.timers.as_ref().map(|v| !v.is_empty()).unwrap_or(false));
}

#[test]
fn legacy_to_contract_route_eventbus_plane() {
    let legacy = route("ctrl", "worker", t::ChannelKind::EventBus, "control/topic");
    let r = c::Route::from(&legacy);
    assert_eq!(r.plane, "control");
    assert!(r.port.is_none());
}

#[test]
fn legacy_to_contract_schema_descriptor() {
    let legacy = t::SchemaDescriptor {
        id: "foo".to_string(),
        content_type: "application/json".to_string(),
        version: 2,
        meta: "{}".to_string(),
    };
    let s = c::SchemaDescriptor::from(&legacy);
    assert_eq!(s.content_type, "application/json");
    assert_eq!(s.schema_ver, "v2");
    assert_eq!(s.schema_ref, "registry://schemas/foo@v2");
}

#[test]
fn manifest_qos_document_is_rendered_json() {
    let legacy = t::PluginManifest {
        id: "n".to_string(),
        kind: t::PluginKind::Process,
        entry: "bin/n".to_string(),
        params: "null".to_string(),
        resources: Some(t::ResourceHints {
            cpu: None,
            mem: None,
            qos: Some("best-effort".to_string()),
            priority: Some(5),
            deadline_ns: Some(2_000_000),
        }),
        timers: None,
        bus_subscriptions: None,
        bus_publications: None,
    };
    let m = c::PluginManifest::from(&legacy);
    assert_eq!(m.qos.as_deref(), Some("{\"deadline_ns\":2000000,\"priority\":5,\"qos\":\"best-effort\"}"));
    assert_eq!(m.artifact.unwrap().kind, "Process");
    assert!(m.timers.is_none());
}

#[test]
fn manifest_without_resources_has_no_qos() {
    let legacy = t::PluginManifest {
        id: "d".to_string(),
        kind: t::PluginKind::Dylib,
        entry: "lib/d.so".to_string(),
        params: "{}".to_string(),
        resources: None,
        timers: None,
        bus_subscriptions: None,
        bus_publications: None,
    };
    let m = c::PluginManifest::from(&legacy);
    assert!(m.qos.is_none());
    assert_eq!(m.artifact.unwrap().kind, "Dylib");
}

#[test]
fn route_keeps_given_plane_and_formats() {
    let mut legacy = route("x", "y", t::ChannelKind::Stream, "t");
    legacy.plane = Some("custom".to_string());
    legacy.content_type = Some("text/plain".to_string());
    legacy.schema_ver = Some("v9".to_string());
    legacy.buffer = Some(4);
    legacy.watermark = Some(2);
    let r = c::Route::from(&legacy);
    assert_eq!(r.plane, "custom");
    assert_eq!(r.port.as_deref(), Some("dataport/x-y"));
    assert_eq!(r.content_type, "text/plain");
    assert_eq!(r.schema_ver, "v9");
    assert_eq!(r.buffer, Some(4));
    assert_eq!(r.watermark, Some(2));
}

#[test]
fn blob_route_has_no_port() {
    let r = c::Route::from(&route("x", "y", t::ChannelKind::BlobRef, "blob"));
    assert_eq!(r.plane, "data");
    assert!(r.port.is_none());
}

#[test]
fn compile_output_converts_every_part() {
    let legacy = t::CompileOutput {
        manifests: vec![],
        routes: vec![route("a", "b", t::ChannelKind::Stream, "ab"), route("b", "c", t::ChannelKind::EventBus, "bc")],
        schemas: vec![t::SchemaDescriptor {
            id: "s".to_string(),
            content_type: "application/cbor".to_string(),
            version: 12,
            meta: "{}".to_string(),
        }],
    };
    let out = c::CompileOutput::from(&legacy);
    assert_eq!(out.manifests.len(), 0);
    assert_eq!(out.routes.len(), 2);
    assert_eq!(out.routes[1].plane, "control");
    assert_eq!(out.schemas[0].schema_ref, "registry://schemas/s@v12");
}

fn simple_node(id: &str, impl_kind: &str) -> SimpleNode {
    SimpleNode {
        id: id.to_string(),
        kind: "transform".to_string(),
        impl_kind: impl_kind.to_string(),
        entry: format!("file://{id}"),
        qos: None,
        priority: None,
        deadline_ns: None,
    }
}

#[test]
fn inproc_compile_builds_manifests_routes_and_schema() {
    let mut n1 = simple_node("src", "wasm");
    n1.qos = Some("realtime".to_string());
    let graph = SimpleGraph {
        nodes: vec![n1, simple_node("sink", "process")],
        edges: vec![
            SimpleEdge { from: "src".to_string(), to: "sink".to_string(), channel: "stream".to_string(), label: "l1".to_string() },
            SimpleEdge { from: "sink".to_string(), to: "src".to_string(), channel: "event-bus".to_string(), label: "l2".to_string() },
            SimpleEdge { from: "src".to_string(), to: "sink".to_string(), channel: "odd".to_string(), label: "l3".to_string() },
        ],
    };
    let out = InprocAdapter::compile(&graph).unwrap();
    assert_eq!(out.manifests.len(), 2);
    assert_eq!(out.manifests[0].plugin_id, "src");
    assert_eq!(out.manifests[0].artifact.as_ref().unwrap().kind, "WasmComponent");
    assert_eq!(out.manifests[0].qos.as_deref(), Some("{\"qos\":\"realtime\"}"));
    assert_eq!(out.manifests[1].artifact.as_ref().unwrap().kind, "Process");
    assert!(out.manifests[1].qos.is_none());
    assert_eq!(out.routes.len(), 3);
    assert_eq!(out.routes[0].port.as_deref(), Some("dataport/src-sink"));
    assert_eq!(out.routes[1].plane, "control");
    assert!(out.routes[1].port.is_none());
    assert_eq!(out.routes[2].plane, "data");
    assert_eq!(out.schemas.len(), 1);
    assert_eq!(out.schemas[0].schema_ref, "registry://schemas/default@v1");
}

#[test]
fn inproc_compile_rejects_empty_graph() {
    let graph = SimpleGraph { nodes: vec![], edges: vec![] };
    assert_eq!(InprocAdapter::compile(&graph).unwrap_err(), "no nodes in graph");
}

fn example_node(id: &str, category: Option<&str>, kind: &str, plugin_type: Option<&str>, artifact: Option<&str>) -> ExampleNode {
    ExampleNode {
        id: id.to_string(),
        origin: None,
        category: category.map(|s| s.to_string()),
        plugin: ExamplePlugin {
            kind: kind.to_string(),
            artifact: artifact.map(|s| s.to_string()),
            plugin_type: plugin_type.map(|s| s.to_string()),
        },
        io: None,
        qos: None,
        bindings: None,
    }
}

#[test]
fn example_dag_to_contract_names_and_routes() {
    let mut timer = example_node("clock", Some("System"), "builtin", Some("timer-source"), None);
    timer.bindings = Some(ExampleBindings {
        timer: Some(vec![ExampleTimerBinding {
            id: "tick".to_string(),
            schedule: ExampleTimerSchedule { interval_ms: Some(100), align_to: None },
            miss_policy: Some("skip".to_string()),
        }]),
    });
    let mut worker = example_node("worker", None, "wasm", None, Some("file://plugins/worker.wasm"));
    worker.io = Some(ExampleIo {
        inputs: Some(vec![IoType { content_type: "application/cbor".to_string(), schema_ver: "v1".to_string() }]),
        outputs: None,
    });
    let store = example_node("store", Some("Resource"), "dylib", None, Some("file://res/kv-store"));
    let dag = ExampleDag {
        nodes: vec![timer, worker, store],
        routes: vec![ExampleRoute {
            from: "clock".to_string(),
            to: "worker".to_string(),
            plane: "control".to_string(),
            topic: "ticks".to_string(),
            port: None,
            content_type: None,
            schema_ver: None,
            buffer: Some(8),
            watermark: None,
        }],
    };
    let out = dag.to_contract();
    assert_eq!(out.manifests.len(), 3);
    assert_eq!(out.manifests[0].plugin_id, "timer-source");
    assert_eq!(out.manifests[1].plugin_id, "worker");
    assert_eq!(out.manifests[2].plugin_id, "resource-kv-store");
    assert_eq!(out.manifests[0].role.as_deref(), Some("Timer"));
    assert_eq!(out.manifests[0].artifact.as_ref().unwrap().uri, "builtin://chronetix/system/timer");
    assert_eq!(out.manifests[0].timers.as_ref().unwrap()[0].id, "tick");
    assert_eq!(out.manifests[0].timers.as_ref().unwrap()[0].schedule.interval_ms, Some(100));
    assert!(out.manifests[1].role.is_none());
    assert_eq!(out.manifests[1].io.as_ref().unwrap().inputs.as_ref().unwrap().len(), 1);
    assert_eq!(out.manifests[2].role.as_deref(), Some("EnvProvider"));
    assert_eq!(out.routes.len(), 1);
    assert_eq!(out.routes[0].plane, "control");
    assert_eq!(out.routes[0].content_type, "application/json");
    assert_eq!(out.routes[0].buffer, Some(8));
    assert_eq!(out.routes[0].watermark, None);
    assert_eq!(out.schemas.len(), 1);
    assert_eq!(out.schemas[0].schema_ref, "registry://schemas/resource/netinfo@v1");
}

#[test]
fn example_data_route_gets_default_buffers() {
    let mut sink = example_node("sink", Some("Business"), "wasm", None, None);
    sink.io = Some(ExampleIo { inputs: Some(vec![]), outputs: None });
    let dag = ExampleDag {
        nodes: vec![sink],
        routes: vec![ExampleRoute {
            from: "a".to_string(),
            to: "sink".to_string(),
            plane: "data".to_string(),
            topic: "t".to_string(),
            port: Some("p".to_string()),
            content_type: Some("application/cbor".to_string()),
            schema_ver: Some("v3".to_string()),
            buffer: None,
            watermark: None,
        }],
    };
    let out = dag.to_contract();
    assert_eq!(out.manifests[0].role.as_deref(), Some("Sink"));
    assert!(out.manifests[0].artifact.is_none());
    assert_eq!(out.routes[0].buffer, Some(64));
    assert_eq!(out.routes[0].watermark, Some(48));
    assert_eq!(out.routes[0].schema_ver, "v3");
    assert_eq!(out.routes[0].port.as_deref(), Some("p"));
}
