//! Kamui: a provider-agnostic, repository-aware chat assistant for the terminal.
//!
//! The crate holds what the assistant decides and computes.  Reading files, talking to a
//! provider, running commands and drawing on the terminal belong to the program around it.
pub mod text;
pub mod scan;
pub mod split;
pub mod number;
pub mod order;
pub mod table;
pub mod config;
pub mod resolve;
pub mod settings;
pub mod profiles;
pub mod provider;
pub mod openai;
pub mod path;
pub mod context;
pub mod json;
pub mod mcp;
pub mod prompt;
pub mod bytes;
pub mod patch;
pub mod tools;
pub mod command;
pub mod tui;
pub mod args;
pub mod onboarding;
pub mod storage;
pub mod snippet;
pub mod commands;
pub mod mode;
pub mod batch;
pub mod turn;
pub mod reports;
pub mod panel;
pub mod sidebar;
pub mod skills;
pub mod revert;
pub mod index;
pub mod memory;
pub mod dispatch;
pub mod chat;
pub mod dialog;
