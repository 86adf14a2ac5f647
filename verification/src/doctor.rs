//! The health of a service, as the status of its health endpoint reports
//! it.
use vstd::prelude::*;

verus! {

/// Whether a probed service answered as healthy.
#[derive(Debug, Clone, Copy, PartialEq, Eq, Structural)]
pub enum Health {
    Healthy,
    Dead,
}

/// The health for a response's status code: healthy exactly on 200 OK.
pub fn health_of_status(status: u16) -> (health: Health)
    ensures
        health == (if status == 200 {
            Health::Healthy
        } else {
            Health::Dead
        }),
{
    if status == 200 {
        Health::Healthy
    } else {
        Health::Dead
    }
}

} // verus!
