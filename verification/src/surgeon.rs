//! Finding the tunnel that a locally started agent opened.
use vstd::prelude::*;

verus! {

/// The local agent's list of tunnels.
pub const LOCAL_AGENT_TUNNELS: &'static str = "http://localhost:3000/api/tunnels";

/// How many health checks the tunnel gets to come up.
pub const TUNNEL_CHECKS: u32 = 3;

/// The pause after a failed health check, in seconds.
pub const CHECK_PAUSE_SECS: u64 = 3;

/// A tunnel the agent reports.
pub struct Tunnel {
    pub public_url: String,
}

/// The agent's report of its tunnels.
pub struct Tunnels {
    pub tunnels: Vec<Tunnel>,
}

/// Why no tunnel could be used.
#[derive(Debug, Clone, Copy, PartialEq, Eq, Structural)]
pub enum TunnelError {
    /// The agent has no active tunnel.
    NoActiveTunnel,
}

/// The first tunnel of the report, or an error when there is none.
pub fn first_tunnel(report: &Tunnels) -> (tunnel: Result<Tunnel, TunnelError>)
    ensures
        report.tunnels@.len() == 0 <==> tunnel is Err,
        tunnel matches Ok(t) ==> t.public_url@ == report.tunnels@[0].public_url@,
{
    if report.tunnels.len() == 0 {
        return Err(TunnelError::NoActiveTunnel);
    }
    Ok(Tunnel { public_url: report.tunnels[0].public_url.clone() })
}

/// What the loop that watches the local agent does next.
pub enum AgentAction {
    /// Stop the agent and stop watching.
    Kill,
    /// The agent has exited: stop watching.
    Exited,
    /// Look again.
    Continue,
}

/// Decides what the agent's watcher does: a stop request kills the agent;
/// otherwise an agent that has exited ends the watch; else it keeps
/// watching. `exited` is only looked at when no stop was requested.
pub fn on_agent(stop_requested: bool, exited: bool) -> (action: AgentAction)
    ensures
        action == (if stop_requested {
            AgentAction::Kill
        } else if exited {
            AgentAction::Exited
        } else {
            AgentAction::Continue
        }),
{
    if stop_requested {
        AgentAction::Kill
    } else if exited {
        AgentAction::Exited
    } else {
        AgentAction::Continue
    }
}

} // verus!
