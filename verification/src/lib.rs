//! Precise code navigation for a workspace: the logic of a proxy in front of language servers.
pub mod api_types;
pub mod text;
pub mod identifiers;
pub mod paths;
pub mod manager;
pub mod sorting;
pub mod ast_grep;
pub mod handlers;
pub mod documents;
pub mod json_rpc;
pub mod symbols;
pub mod auth;
pub mod compile_commands;
pub mod tags;
pub mod tag_db;
pub mod languages;
