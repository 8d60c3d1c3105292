//! Platform integration data and decisions.
pub mod linux_impl;
pub mod windows_impl;
pub mod mimeapps_laws;
