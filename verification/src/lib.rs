//! Verified core of the Godot LSP bridge.

pub mod bridge;
pub mod config;
pub mod discovery;
pub mod doctor;
pub mod framing;
pub mod json;
pub mod lsp;
pub mod shader;
pub mod synthesizer;
pub mod text;
pub mod update;
pub mod uri;
