//! Management of the per-core energy performance preference (EPP) exposed by
//! the kernel under the CPU topology directory.

pub mod apply;
pub mod cli;
pub mod discovery;
pub mod error;
pub mod help;
pub mod location;
pub mod model;
pub mod numeral;
pub mod profile;
pub mod reading;
pub mod report;
pub mod sorting;
pub mod text;
