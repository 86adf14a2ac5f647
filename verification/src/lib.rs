//! Keeps a public tunnel endpoint registered in a remote configuration:
//! authenticates to the configuration service, writes a tunnel's address
//! into the configuration, and decides how the watch over the endpoint
//! checks, retries and revives it.
pub mod doctor;
pub mod google;
pub mod hospital;
pub mod retry;
pub mod surgeon;
pub mod text;
