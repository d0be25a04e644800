use rts_engine::manager::{GlobalInfo, ManagerInfo};
use rts_engine::menu::{CameraKind, LobbyButton, LobbyRequest, LobbyView, MainMode, Menu, NetMode, RenderEvent};
use rts_engine::net_client::NetClientInfo;
use rts_engine::net_server::NetServerInfo;
use std::time::Duration;

fn info(server: bool, client: bool) -> GlobalInfo {
    GlobalInfo {
        manager: ManagerInfo { loop_time: Duration::from_millis(100) },
        net_server: if server { Some(NetServerInfo::new()) } else { None },
        net_client: if client { Some(NetClientInfo::new()) } else { None },
    }
}

#[test]
fn menus_start_home_and_offline() {
    let m = Menu::new();
    assert_eq!(m.main_mode, MainMode::Home);
    assert_eq!(m.net_mode, NetMode::Offline);
    assert!(m.mailbox.is_empty());
}

#[test]
fn changes_of_screen_are_noted_once() {
    let mut m = Menu::new();
    m.change_mode(MainMode::Play);
    m.change_mode(MainMode::Play);
    m.on_escape();
    m.on_escape();
    assert_eq!(m.main_mode, MainMode::Home);
    let events = m.take_mailbox();
    assert_eq!(
        events,
        vec![
            RenderEvent::ChangeMode { from: MainMode::Home, to: MainMode::Play },
            RenderEvent::ChangeMode { from: MainMode::Play, to: MainMode::Home },
        ]
    );
    assert!(m.mailbox.is_empty());
}

#[test]
fn cameras_follow_the_screen() {
    let mut m = Menu::new();
    assert_eq!(m.camera(), CameraKind::Still);
    m.change_mode(MainMode::MapEditor);
    assert_eq!(m.camera(), CameraKind::Rts);
    m.change_mode(MainMode::UnitEditor);
    assert_eq!(m.camera(), CameraKind::Orbit);
    m.change_mode(MainMode::MultiplayerLobby);
    assert_eq!(m.camera(), CameraKind::Still);
}

#[test]
fn lobby_buttons_follow_the_report() {
    assert_eq!(Menu::lobby_view(&None), None);
    assert_eq!(Menu::lobby_view(&Some(info(false, false))), Some(LobbyView::Connect));
    assert_eq!(Menu::lobby_view(&Some(info(true, false))), Some(LobbyView::DisconnectServer));
    assert_eq!(Menu::lobby_view(&Some(info(false, true))), Some(LobbyView::DisconnectClient));
    assert_eq!(Menu::lobby_view(&Some(info(true, true))), Some(LobbyView::DisconnectServer));
}

#[test]
fn lobby_buttons_set_the_network_part() {
    let mut m = Menu::new();
    m.change_mode(MainMode::MultiplayerLobby);
    match m.press_lobby(LobbyButton::StartServer) {
        Some(LobbyRequest::StartServer(s)) => assert_eq!(s.bind, "127.0.0.1:4567"),
        other => panic!("unexpected {:?}", other),
    }
    assert_eq!(m.net_mode, NetMode::Server);
    assert!(m.replaces_frame_on_home());
    assert!(matches!(m.press_lobby(LobbyButton::DisconnectServer), Some(LobbyRequest::DisconnectServer)));
    assert_eq!(m.net_mode, NetMode::Offline);
    match m.press_lobby(LobbyButton::StartClient) {
        Some(LobbyRequest::StartClient(s)) => assert_eq!(s.bind, "127.0.0.1:4567"),
        other => panic!("unexpected {:?}", other),
    }
    assert_eq!(m.net_mode, NetMode::Client);
    assert!(!m.replaces_frame_on_home());
    assert!(matches!(m.press_lobby(LobbyButton::DisconnectClient), Some(LobbyRequest::DisconnectClient)));
    assert_eq!(m.net_mode, NetMode::Offline);
}

#[test]
fn lobby_back_returns_home() {
    let mut m = Menu::new();
    m.change_mode(MainMode::MultiplayerLobby);
    let _ = m.take_mailbox();
    assert!(m.press_lobby(LobbyButton::Back).is_none());
    assert_eq!(m.main_mode, MainMode::Home);
    assert_eq!(
        m.mailbox,
        vec![RenderEvent::ChangeMode { from: MainMode::MultiplayerLobby, to: MainMode::Home }]
    );
}
