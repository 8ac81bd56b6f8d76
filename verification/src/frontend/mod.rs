//! Frontends: ways to produce a board configuration.
//!
//! The TOML frontend lives in [`crate::config`] (raw document + validation).
//! The [`ai`] frontend turns a language model's reply into a candidate config
//! and runs it through the same verification gate.

pub mod ai;
