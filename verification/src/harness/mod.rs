//! For tests: a mock backend, fixes that do as told, and the reading of what the proxy
//! answers.

pub mod backend;
pub mod fixes;
pub mod laws;
pub mod readiness;
pub mod types;
pub mod vram;
