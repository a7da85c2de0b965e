pub mod args;
pub mod callback;
pub mod clock;
pub mod config;
pub mod cowork;
pub mod custom;
pub mod exec_policy;
pub mod exec_tool;
pub mod extensions;
pub mod file_tools;
pub mod ipc;
pub mod json_text;
pub mod kits;
pub mod kit_registry;
pub mod mcp;
pub mod numbers;
pub mod paths;
pub mod platform;
pub mod relay;
pub mod rpc_server;
pub mod screenshot;
pub mod shell_launch;
pub mod single_instance;
pub mod process_manager;
pub mod process_tool;
pub mod search;
pub mod text;
pub mod tool_catalog;
pub mod upgrade;
pub mod versions;
pub mod web;
pub mod web_search;
pub mod oauth;
