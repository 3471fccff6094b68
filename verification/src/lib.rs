//! The logic of a proxy in front of language models.
//!
//! The proxy repairs malformed responses ([`fixes`]), enriches requests
//! ([`augment`]), speaks two API formats ([`api`]), chooses backends
//! ([`backends`]), checks its configuration ([`config`]) and exports metrics
//! ([`exporters`]). What is read from files and sent over networks is not here:
//! everything in this crate goes from values to values, and its contracts say
//! which.

pub mod api;
pub mod augment;
pub mod backends;
pub mod config;
pub mod exporters;
pub mod fixes;
pub mod harness;
pub mod json;
pub mod text;
pub mod text_map;
