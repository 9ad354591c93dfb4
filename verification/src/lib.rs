pub mod api;
pub mod codex_laws;
pub mod command_laws;
pub mod commands;
pub mod error;
pub mod hook_laws;
pub mod hooks;
pub mod json;
pub mod text;
