//! The health of a service, as a probe of its health endpoint reports it.
use vstd::prelude::*;

verus! {

/// Whether a probed service answered as healthy.
#[derive(Debug, Clone, Copy, PartialEq, Eq, Structural)]
pub enum Health {
    Healthy,
    Dead,
}

/// The status code of a successful response.
pub const STATUS_OK: u16 = 200;

impl Health {
    /// Whether this is `Healthy`.
    pub fn is_healthy(&self) -> (healthy: bool)
        ensures
            healthy == (*self == Health::Healthy),
    {
        match self {
            Health::Healthy => true,
            Health::Dead => false,
        }
    }
}

/// The path of a service's health endpoint.
pub const HEALTH_PATH: &'static str = "/health";

/// The local tunnel agent's list of tunnels; it answers while a tunnel runs.
pub const AGENT_TUNNELS: &'static str = "http://localhost:4040/api/tunnels";

/// The health endpoint of the service at `base`.
pub fn health_endpoint(base: &str) -> (endpoint: String)
    ensures
        endpoint@ == base@ + HEALTH_PATH@,
{
    let mut endpoint = String::from_str(base);
    endpoint.append(HEALTH_PATH);
    endpoint
}

/// The health that a probe reports: `status` is the response's status code,
/// or `None` when the request failed. Healthy exactly on a response with
/// status 200 OK.
pub fn health_of_probe(status: Option<u16>) -> (health: Health)
    ensures
        health == (if status == Some(STATUS_OK) {
            Health::Healthy
        } else {
            Health::Dead
        }),
{
    match status {
        Some(code) => if code == STATUS_OK {
            Health::Healthy
        } else {
            Health::Dead
        },
        None => Health::Dead,
    }
}

} // verus!
