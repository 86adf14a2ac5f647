//! Talking to the remote configuration service: authentication and the
//! configuration document.
pub mod authentication;
pub mod remote_config;
