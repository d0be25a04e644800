use rts_engine::manager::{ClientRequest, GlobalInfo, ManagerInfo, NetAction, NetMode};
use rts_engine::net_client::{self, should_send_player_inputs, NetClientInfo};
use rts_engine::net_server::{BindState, NetServerInfo};
use std::time::Duration;

#[test]
fn server_info_starts_unknown() {
    let i = NetServerInfo::new();
    assert!(i.bind_state == BindState::Unknown);
    assert_eq!(i.number_of_client_connected, 0);
}

#[test]
fn server_info_learns_bind_state_once() {
    let i = NetServerInfo::new();
    let i = i.after_loop_turn(&vec![], 0);
    assert!(i.bind_state == BindState::Unknown);
    let i = i.after_loop_turn(&vec![BindState::Error, BindState::Success], 2);
    assert!(i.bind_state == BindState::Success);
    assert_eq!(i.number_of_client_connected, 2);
    let i = i.after_loop_turn(&vec![BindState::Error], 3);
    assert!(i.bind_state == BindState::Success);
    assert_eq!(i.number_of_client_connected, 3);
}

#[test]
fn server_latest_info() {
    let cur = NetServerInfo::new();
    let a = NetServerInfo { bind_state: BindState::Success, number_of_client_connected: 1 };
    let b = NetServerInfo { bind_state: BindState::Success, number_of_client_connected: 4 };
    assert!(cur.latest_info(&vec![]) == cur);
    assert!(cur.latest_info(&vec![a, b]) == b);
}

#[test]
fn client_latest_info() {
    let cur = NetClientInfo::new();
    assert!(cur.bind_state == net_client::BindState::Unknown);
    let d = NetClientInfo { bind_state: net_client::BindState::Disconnected };
    assert!(cur.latest_info(&vec![d]) == d);
    assert!(d.latest_info(&vec![]) == d);
}

#[test]
fn client_sends_only_some_inputs() {
    assert!(!should_send_player_inputs(0));
    assert!(should_send_player_inputs(3));
}

fn info() -> GlobalInfo {
    GlobalInfo {
        manager: ManagerInfo { loop_time: Duration::from_millis(0) },
        net_server: Some(NetServerInfo::new()),
        net_client: Some(NetClientInfo::new()),
    }
}

#[test]
fn manager_start_and_stop_server() {
    let mut mode = NetMode::Offline;
    let mut g = info();
    assert!(mode.on_request(ClientRequest::StartServer, &mut g) == NetAction::SpawnServer);
    assert!(mode == NetMode::IsServer);
    assert!(mode.on_request(ClientRequest::PlayerInput, &mut g) == NetAction::QueueInput);
    assert!(mode == NetMode::IsServer);
    assert!(mode.on_request(ClientRequest::DisconnectClient, &mut g) == NetAction::Ignore);
    assert!(g.net_client.is_some());
    assert!(mode.on_request(ClientRequest::DisconnectServer, &mut g) == NetAction::KillServer);
    assert!(mode == NetMode::Offline);
    assert!(g.net_server.is_none());
    assert!(g.net_client.is_some());
}

#[test]
fn manager_client_replaces_server() {
    let mut mode = NetMode::IsServer;
    let mut g = info();
    assert!(mode.on_request(ClientRequest::StartClient, &mut g) == NetAction::SpawnClient);
    assert!(mode == NetMode::IsClient);
    assert!(mode.on_request(ClientRequest::DisconnectServer, &mut g) == NetAction::Ignore);
    assert!(mode.on_request(ClientRequest::DisconnectClient, &mut g) == NetAction::KillClient);
    assert!(mode == NetMode::Offline);
    assert!(g.net_client.is_none());
    assert!(g.net_server.is_some());
}
