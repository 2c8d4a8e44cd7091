//! Management of self-hosted Minecraft servers: configuration, startup
//! commands, Docker and RCON protocol logic, console decoding, and the state
//! of the terminal interface, each with a verified contract.

pub mod args;
pub mod collections;
pub mod columns;
pub mod config;
pub mod container;
pub mod docker;
pub mod docker_api;
pub mod encoding;
pub mod failure;
pub mod groups;
pub mod i18n;
pub mod images;
pub mod json;
pub mod lifecycle;
pub mod manifest;
pub mod numbers;
pub mod paths;
pub mod platform;
pub mod prepare;
pub mod process;
pub mod rcon;
pub mod startup;
pub mod stopping;
pub mod store;
pub mod text;
pub mod text_encoding;
pub mod tui;
pub mod utf8;
