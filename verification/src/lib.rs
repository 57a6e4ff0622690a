//! Verified core of the host bridge: command parsing, execution policy,
//! configuration rules, path mapping and the text formats the server speaks.

pub mod text;
pub mod platform;
pub mod command_parser;
pub mod config;
pub mod policy;
pub mod path_mapping;
pub mod sorting;
pub mod execution_target;
pub mod output;
pub mod cli;
pub mod auth;
pub mod session;
pub mod base64;
pub mod ssh;
pub mod ssh_pool;
pub mod execution_service;
pub mod config_store;
pub mod console_log;
pub mod approvals;
pub mod data_dir;
pub mod config_reload;
pub mod spawn;
pub mod history;
pub mod api;
pub mod tui_state;
pub mod tui_render;
pub mod log_store;
