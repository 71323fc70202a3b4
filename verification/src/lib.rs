//! Verified core of the agent-graph MCP server: retention policy, tool
//! lease/receipt policy, template promotion, graph compilation settings and
//! join strategies, the decisions of graph nodes, transport framing, the
//! operator service and client, and the pure pieces of provider and Codex
//! handling.
pub mod text;
pub mod json;
pub mod crypto;
pub mod tool_runtime;
pub mod gc;
pub mod checkpoint_binding;
pub mod model_executor;
pub mod provider_health;
pub mod promotion;
pub mod compiler;
pub mod codex_app_server;
pub mod transport;
pub mod bridge_config;
pub mod migrations;
pub mod nodes;
pub mod operator;
pub mod operator_client;
pub mod tool_exec;
