use vstd::prelude::*;

verus! {

/// Whether the server managed to listen on its address.
#[derive(Debug, Clone, Copy, PartialEq, Eq, Structural)]
pub enum BindState {
    Unknown,
    Success,
    Error,
}

/// What the server's thread reports of itself.
#[derive(Debug, Clone, Copy, PartialEq, Eq, Structural)]
pub struct NetServerInfo {
    pub bind_state: BindState,
    pub number_of_client_connected: usize,
}

impl NetServerInfo {
    /// The report of a server that has not heard of its listener yet and
    /// has no client.
    pub fn new() -> (r: NetServerInfo)
        ensures
            r == (NetServerInfo { bind_state: BindState::Unknown, number_of_client_connected: 0 }),
    {
        NetServerInfo { bind_state: BindState::Unknown, number_of_client_connected: 0 }
    }

    /// The report after one turn of the server's loop, given the bind
    /// states the listener sent since the last turn and the number of
    /// connected clients: the bind state is learnt once, from the last
    /// state sent, and the client count is refreshed.
    pub fn after_loop_turn(self, bind_reports: &Vec<BindState>, connected: usize) -> (r:
        NetServerInfo)
        ensures
            r.number_of_client_connected == connected,
            r.bind_state == (if self.bind_state == BindState::Unknown && bind_reports@.len() > 0 {
                bind_reports@.last()
            } else {
                self.bind_state
            }),
    {
        let mut info = self;
        if info.bind_state == BindState::Unknown {
            let n = bind_reports.len();
            if n > 0 {
                info.bind_state = bind_reports[n - 1];
            }
        }
        info.number_of_client_connected = connected;
        info
    }

    /// The report to show: the last one the server's thread sent, or `self`
    /// when it sent none.
    pub fn latest_info(self, reports: &Vec<NetServerInfo>) -> (r: NetServerInfo)
        ensures
            r == (if reports@.len() > 0 {
                reports@.last()
            } else {
                self
            }),
    {
        let n = reports.len();
        if n > 0 {
            reports[n - 1]
        } else {
            self
        }
    }
}

} // verus!
