//! Verified core of the Steampipe navigation and distillation tool.

pub mod batch;
pub mod commands;
pub mod config;
pub mod mcp;
pub mod text;
