//! Classifying filters that reduce a candidate set of paths.
pub mod defs;
pub mod dirs;
pub mod intf;
pub mod resources;
pub mod texts;
