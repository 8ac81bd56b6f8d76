//! Configuration: the raw shape of a `board.toml` and its validation into a
//! [`crate::model::Board`].

pub mod parse;
pub mod validate;
pub mod uniqueness;

pub use parse::RawConfig;
pub use validate::{validate, Validated};
