//! Workflow building blocks: execution contexts with snapshots, execution
//! plans layered by dependencies, workflow configuration checks and the
//! conversion of flow graphs into plugin contracts.

pub mod strmap;
pub mod text;
pub mod strings;
pub mod tokens;
pub mod numtext;
pub mod expression;
pub mod config;
pub mod lexorder;
pub mod config_parser;
pub mod runtime;
pub mod parallel;
pub mod logger;
pub mod ids;
pub mod context;
pub mod yaml;
pub mod bridge;
pub mod plan;
pub mod orchestrator;
pub mod flow_orchestrator;
pub mod flow_graph;
pub mod scheduler;
pub mod dynamic;
pub mod integration;
pub mod combinators;
