//! The settings of the modules.
pub mod ondemand;
