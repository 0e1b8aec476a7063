pub mod arch;
pub mod cli;
pub mod coverage;
pub mod coverage_raw;
pub mod model;
pub mod param;
pub mod property;
pub mod report;
pub mod runner;
pub mod snapshot;

pub use crate::model::spec;
pub use crate::model::tag;
