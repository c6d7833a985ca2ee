pub mod text;
pub mod order;
pub mod digest;
pub mod commands;
pub mod api;
pub mod uri;
pub mod query;
pub mod rules;
pub mod vpn;
pub mod system_proxy;
pub mod tui;
pub mod replay;
pub mod analyze;
pub mod ranking;
pub mod report;
pub mod headers;
pub mod replay_tool;
pub mod plugins;
pub mod transparent;
pub mod launch;
pub mod bench;
pub mod config;
pub mod filter;
