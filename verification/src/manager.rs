use vstd::prelude::*;
use std::time::Duration;
use crate::net_client::NetClientInfo;
use crate::net_server::NetServerInfo;

verus! {

/// What the manager reports of its own loop.
#[derive(Debug, Clone, Copy)]
pub struct ManagerInfo {
    pub loop_time: Duration,
}

/// What all the components of the program report of themselves.
#[derive(Debug, Clone, Copy)]
pub struct GlobalInfo {
    pub manager: ManagerInfo,
    pub net_server: Option<NetServerInfo>,
    pub net_client: Option<NetClientInfo>,
}

/// The part the program plays on the network.
#[derive(Debug, Clone, Copy, PartialEq, Eq, Structural)]
pub enum NetMode {
    Offline,
    IsServer,
    IsClient,
}

/// The kinds of message the client sends to the manager.
#[derive(Debug, Clone, Copy, PartialEq, Eq, Structural)]
pub enum ClientRequest {
    PlayerInput,
    StartClient,
    StartServer,
    DisconnectServer,
    DisconnectClient,
}

/// What the manager does in answer to a message of the client.
#[derive(Debug, Clone, Copy, PartialEq, Eq, Structural)]
pub enum NetAction {
    /// Keep the player's input for the next frame.
    QueueInput,
    /// Connect to a server, dropping any previous connection.
    SpawnClient,
    /// Listen for clients, dropping any previous connection.
    SpawnServer,
    /// Stop the server.
    KillServer,
    /// Stop the client.
    KillClient,
    /// Nothing to do.
    Ignore,
}

/// The mode and the action that follow `request` in mode `mode`.
pub open spec fn spec_on_request(mode: NetMode, request: ClientRequest) -> (NetMode, NetAction) {
    match request {
        ClientRequest::PlayerInput => (mode, NetAction::QueueInput),
        ClientRequest::StartClient => (NetMode::IsClient, NetAction::SpawnClient),
        ClientRequest::StartServer => (NetMode::IsServer, NetAction::SpawnServer),
        ClientRequest::DisconnectServer => if mode == NetMode::IsServer {
            (NetMode::Offline, NetAction::KillServer)
        } else {
            (mode, NetAction::Ignore)
        },
        ClientRequest::DisconnectClient => if mode == NetMode::IsClient {
            (NetMode::Offline, NetAction::KillClient)
        } else {
            (mode, NetAction::Ignore)
        },
    }
}

impl NetMode {
    /// Handles one message of the client: changes the mode, forgets the
    /// report of a stopped component, and answers what is to be done.
    pub fn on_request(&mut self, request: ClientRequest, info: &mut GlobalInfo) -> (action: NetAction)
        ensures
            (*final(self), action) == spec_on_request(*old(self), request),
            final(info).manager == old(info).manager,
            final(info).net_server == (if action == NetAction::KillServer {
                None
            } else {
                old(info).net_server
            }),
            final(info).net_client == (if action == NetAction::KillClient {
                None
            } else {
                old(info).net_client
            }),
    {
        match request {
            ClientRequest::PlayerInput => NetAction::QueueInput,
            ClientRequest::StartClient => {
                *self = NetMode::IsClient;
                NetAction::SpawnClient
            },
            ClientRequest::StartServer => {
                *self = NetMode::IsServer;
                NetAction::SpawnServer
            },
            ClientRequest::DisconnectServer => {
                if *self == NetMode::IsServer {
                    info.net_server = None;
                    *self = NetMode::Offline;
                    NetAction::KillServer
                } else {
                    NetAction::Ignore
                }
            },
            ClientRequest::DisconnectClient => {
                if *self == NetMode::IsClient {
                    info.net_client = None;
                    *self = NetMode::Offline;
                    NetAction::KillClient
                } else {
                    NetAction::Ignore
                }
            },
        }
    }
}

/// Starting a server or a client always takes that mode and spawns it; a
/// disconnection returns to offline exactly from the matching mode and is
/// otherwise ignored; player input is queued in every mode and never
/// changes the mode.
pub proof fn law_net_mode(mode: NetMode)
    ensures
        spec_on_request(mode, ClientRequest::StartServer) == (NetMode::IsServer, NetAction::SpawnServer),
        spec_on_request(mode, ClientRequest::StartClient) == (NetMode::IsClient, NetAction::SpawnClient),
        spec_on_request(mode, ClientRequest::PlayerInput) == (mode, NetAction::QueueInput),
        spec_on_request(NetMode::IsServer, ClientRequest::DisconnectServer) == (NetMode::Offline, NetAction::KillServer),
        spec_on_request(NetMode::IsClient, ClientRequest::DisconnectClient) == (NetMode::Offline, NetAction::KillClient),
        mode != NetMode::IsServer ==> spec_on_request(mode, ClientRequest::DisconnectServer) == (mode, NetAction::Ignore),
        mode != NetMode::IsClient ==> spec_on_request(mode, ClientRequest::DisconnectClient) == (mode, NetAction::Ignore),
{
}

} // verus!
