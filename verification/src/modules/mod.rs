//! The modules of the prompt.
pub mod ondemand;
