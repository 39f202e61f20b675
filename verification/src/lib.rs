//! Core logic of an environment-profile manager: a validated parser for
//! profile files made of `KEY=VALUE` lines (with quoting and escape
//! decoding), a profile-name validator, and helpers for displaying
//! profile contents.

pub mod config;
pub mod errors;
pub mod mask;
pub mod name;
pub mod profile;
pub mod render;
pub mod text;
pub mod value;
pub mod varmap;
