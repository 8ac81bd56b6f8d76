//! Forge: turn a hardware description of an embedded board into verified,
//! dependency-ordered C initialization code.

pub mod text;
pub mod graph;
pub mod model;
pub mod error;
pub mod config;
pub mod codegen;
pub mod analysis;
pub mod lint;
pub mod settings;
pub mod frontend;
pub mod backend;
