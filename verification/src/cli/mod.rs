//! The command line tools.

pub mod entrypoints;
pub mod lut_creator;
pub mod lut_groups;
pub mod settings;
