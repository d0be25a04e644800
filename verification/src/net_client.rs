use vstd::prelude::*;

verus! {

/// Whether the client reached its server.
#[derive(Debug, Clone, Copy, PartialEq, Eq, Structural)]
pub enum BindState {
    Unknown,
    Success,
    Error,
    Disconnected,
}

/// What the client's thread reports of itself.
#[derive(Debug, Clone, Copy, PartialEq, Eq, Structural)]
pub struct NetClientInfo {
    pub bind_state: BindState,
}

impl NetClientInfo {
    /// The report of a client that has not heard of its connection yet.
    pub fn new() -> (r: NetClientInfo)
        ensures
            r == (NetClientInfo { bind_state: BindState::Unknown }),
    {
        NetClientInfo { bind_state: BindState::Unknown }
    }

    /// The report to show: the last one the client's thread sent, or
    /// `self` when it sent none.
    pub fn latest_info(self, reports: &Vec<NetClientInfo>) -> (r: NetClientInfo)
        ensures
            r == (if reports@.len() > 0 {
                reports@.last()
            } else {
                self
            }),
    {
        let n = reports.len();
        if n > 0 {
            reports[n - 1]
        } else {
            self
        }
    }
}

/// Player inputs are sent to the server only when there are some.
pub fn should_send_player_inputs(count: usize) -> (r: bool)
    ensures
        r == (count > 0),
{
    count > 0
}

} // verus!
