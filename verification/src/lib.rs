//! The configuration of a shell prompt: where it is found, how it is merged, how styles are read,
//! and which items projects may contribute.
pub mod allowlist;
pub mod color_laws;
pub mod config;
pub mod config_laws;
pub mod configs;
pub mod context;
pub mod dictionary;
pub mod env;
pub mod migration;
pub mod modules;
pub mod ondemand;
pub mod ondemand_laws;
pub mod order;
pub mod order_laws;
pub mod path;
pub mod path_laws;
pub mod sources;
pub mod sources_laws;
pub mod style;
pub mod style_laws;
pub mod text;
pub mod text_laws;
pub mod toml_text;
pub mod value;
pub mod value_laws;
