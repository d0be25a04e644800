use vstd::prelude::*;
use crate::manager::GlobalInfo;

verus! {

/// The screen the client shows.
#[derive(Debug, Clone, Copy, PartialEq, Eq, Structural)]
pub enum MainMode {
    Home,
    Play,
    UnitEditor,
    MapEditor,
    MultiplayerLobby,
}

/// The part the client plays on the network, as its lobby set it.
#[derive(Debug, Clone, Copy, PartialEq, Eq, Structural)]
pub enum NetMode {
    Offline,
    Server,
    Client,
}

/// Asks the manager to connect to the server at `bind`.
#[derive(Debug, Clone)]
pub struct StartClient {
    pub bind: String,
}

/// Asks the manager to listen for clients at `bind`.
#[derive(Debug, Clone)]
pub struct StartServer {
    pub bind: String,
}

/// A change of screen, carried out at the next frame.
#[derive(Debug, Clone, Copy, PartialEq, Eq, Structural)]
pub enum RenderEvent {
    ChangeMode { from: MainMode, to: MainMode },
}

/// How the camera follows the player's input on a screen.
#[derive(Debug, Clone, Copy, PartialEq, Eq, Structural)]
pub enum CameraKind {
    /// Moves over the map.
    Rts,
    /// Turns around the unit being edited.
    Orbit,
    /// Does not move.
    Still,
}

/// The buttons the multiplayer lobby offers besides "Back".
#[derive(Debug, Clone, Copy, PartialEq, Eq, Structural)]
pub enum LobbyView {
    /// "Start server" and "Start client".
    Connect,
    DisconnectServer,
    DisconnectClient,
}

/// A button of the multiplayer lobby.
#[derive(Debug, Clone, Copy, PartialEq, Eq, Structural)]
pub enum LobbyButton {
    StartServer,
    StartClient,
    DisconnectServer,
    DisconnectClient,
    Back,
}

/// What a lobby button asks of the manager.
#[derive(Debug, Clone)]
pub enum LobbyRequest {
    StartServer(StartServer),
    StartClient(StartClient),
    DisconnectServer,
    DisconnectClient,
}

/// The menus of the client: the screen shown, the network part chosen in
/// the lobby, and the screen changes still to carry out.
pub struct Menu {
    pub main_mode: MainMode,
    pub net_mode: NetMode,
    pub mailbox: Vec<RenderEvent>,
}

/// The address the lobby serves and connects to.
pub open spec fn lobby_address() -> Seq<char> {
    "127.0.0.1:4567"@
}

/// The camera of the screen `mode`.
pub open spec fn camera_of(mode: MainMode) -> CameraKind {
    match mode {
        MainMode::Play | MainMode::MapEditor => CameraKind::Rts,
        MainMode::UnitEditor => CameraKind::Orbit,
        _ => CameraKind::Still,
    }
}

/// The lobby's buttons for the report `info`: none before the first
/// report; the connection buttons while neither a server nor a client
/// runs; otherwise the button that stops the one that runs.
pub open spec fn lobby_view_of(info: Option<GlobalInfo>) -> Option<LobbyView> {
    match info {
        None => None,
        Some(g) => if g.net_server is None && g.net_client is None {
            Some(LobbyView::Connect)
        } else if g.net_server is Some {
            Some(LobbyView::DisconnectServer)
        } else {
            Some(LobbyView::DisconnectClient)
        },
    }
}

impl Menu {
    /// The menus at start: the home screen, offline, nothing to carry out.
    pub fn new() -> (r: Menu)
        ensures
            r.main_mode == MainMode::Home,
            r.net_mode == NetMode::Offline,
            r.mailbox@.len() == 0,
    {
        Menu { main_mode: MainMode::Home, net_mode: NetMode::Offline, mailbox: Vec::new() }
    }

    /// Shows the screen `next`; when it is another screen, the change is
    /// noted to be carried out at the next frame.
    pub fn change_mode(&mut self, next: MainMode)
        ensures
            final(self).main_mode == next,
            final(self).net_mode == old(self).net_mode,
            final(self).mailbox@ == if old(self).main_mode != next {
                old(self).mailbox@.push(RenderEvent::ChangeMode { from: old(self).main_mode, to: next })
            } else {
                old(self).mailbox@
            },
    {
        if self.main_mode != next {
            self.mailbox.push(RenderEvent::ChangeMode { from: self.main_mode, to: next });
            self.main_mode = next;
        }
    }

    /// The Escape key goes back to the home screen.
    pub fn on_escape(&mut self)
        ensures
            final(self).main_mode == MainMode::Home,
            final(self).net_mode == old(self).net_mode,
            final(self).mailbox@ == if old(self).main_mode != MainMode::Home {
                old(self).mailbox@.push(RenderEvent::ChangeMode { from: old(self).main_mode, to: MainMode::Home })
            } else {
                old(self).mailbox@
            },
    {
        self.change_mode(MainMode::Home);
    }

    /// Takes the screen changes to carry out, in the order they were noted.
    pub fn take_mailbox(&mut self) -> (r: Vec<RenderEvent>)
        ensures
            r@ == old(self).mailbox@,
            final(self).mailbox@.len() == 0,
            final(self).main_mode == old(self).main_mode,
            final(self).net_mode == old(self).net_mode,
    {
        let mut r: Vec<RenderEvent> = Vec::new();
        std::mem::swap(&mut r, &mut self.mailbox);
        r
    }

    /// Whether going home starts a fresh game: it does unless the game
    /// comes from a remote server.
    pub fn replaces_frame_on_home(&self) -> (r: bool)
        ensures
            r == (self.net_mode != NetMode::Client),
    {
        match self.net_mode {
            NetMode::Offline | NetMode::Server => true,
            NetMode::Client => false,
        }
    }

    /// The camera of the screen shown.
    pub fn camera(&self) -> (r: CameraKind)
        ensures
            r == camera_of(self.main_mode),
    {
        match self.main_mode {
            MainMode::Play | MainMode::MapEditor => CameraKind::Rts,
            MainMode::UnitEditor => CameraKind::Orbit,
            _ => CameraKind::Still,
        }
    }

    /// The lobby's buttons for the last report of the manager.
    pub fn lobby_view(info: &Option<GlobalInfo>) -> (r: Option<LobbyView>)
        ensures
            r == lobby_view_of(*info),
    {
        match info {
            None => None,
            Some(g) => if g.net_server.is_none() && g.net_client.is_none() {
                Some(LobbyView::Connect)
            } else if g.net_server.is_some() {
                Some(LobbyView::DisconnectServer)
            } else {
                Some(LobbyView::DisconnectClient)
            },
        }
    }

    /// A press on a lobby button: starting sets the network part and asks
    /// the manager to serve or connect at the lobby's address; a
    /// disconnection goes offline and asks the manager to stop; "Back"
    /// returns home.
    pub fn press_lobby(&mut self, button: LobbyButton) -> (r: Option<LobbyRequest>)
        ensures
            match button {
                LobbyButton::StartServer => {
                    &&& final(self).net_mode == NetMode::Server
                    &&& r matches Some(LobbyRequest::StartServer(s)) && s.bind@ == lobby_address()
                    &&& final(self).main_mode == old(self).main_mode
                    &&& final(self).mailbox@ == old(self).mailbox@
                },
                LobbyButton::StartClient => {
                    &&& final(self).net_mode == NetMode::Client
                    &&& r matches Some(LobbyRequest::StartClient(s)) && s.bind@ == lobby_address()
                    &&& final(self).main_mode == old(self).main_mode
                    &&& final(self).mailbox@ == old(self).mailbox@
                },
                LobbyButton::DisconnectServer => {
                    &&& final(self).net_mode == NetMode::Offline
                    &&& r matches Some(LobbyRequest::DisconnectServer)
                    &&& final(self).main_mode == old(self).main_mode
                    &&& final(self).mailbox@ == old(self).mailbox@
                },
                LobbyButton::DisconnectClient => {
                    &&& final(self).net_mode == NetMode::Offline
                    &&& r matches Some(LobbyRequest::DisconnectClient)
                    &&& final(self).main_mode == old(self).main_mode
                    &&& final(self).mailbox@ == old(self).mailbox@
                },
                LobbyButton::Back => {
                    &&& r is None
                    &&& final(self).net_mode == old(self).net_mode
                    &&& final(self).main_mode == MainMode::Home
                    &&& final(self).mailbox@ == if old(self).main_mode != MainMode::Home {
                        old(self).mailbox@.push(RenderEvent::ChangeMode { from: old(self).main_mode, to: MainMode::Home })
                    } else {
                        old(self).mailbox@
                    }
                },
            },
    {
        match button {
            LobbyButton::StartServer => {
                self.net_mode = NetMode::Server;
                Some(LobbyRequest::StartServer(StartServer { bind: "127.0.0.1:4567".to_owned() }))
            },
            LobbyButton::StartClient => {
                self.net_mode = NetMode::Client;
                Some(LobbyRequest::StartClient(StartClient { bind: "127.0.0.1:4567".to_owned() }))
            },
            LobbyButton::DisconnectServer => {
                self.net_mode = NetMode::Offline;
                Some(LobbyRequest::DisconnectServer)
            },
            LobbyButton::DisconnectClient => {
                self.net_mode = NetMode::Offline;
                Some(LobbyRequest::DisconnectClient)
            },
            LobbyButton::Back => {
                self.change_mode(MainMode::Home);
                None
            },
        }
    }
}


/// The screen a change leaves.
pub open spec fn change_from(e: RenderEvent) -> MainMode {
    match e {
        RenderEvent::ChangeMode { from, .. } => from,
    }
}

/// The screen a change leads to.
pub open spec fn change_to(e: RenderEvent) -> MainMode {
    match e {
        RenderEvent::ChangeMode { to, .. } => to,
    }
}

/// The screen changes `events` lead, one after the other, from a screen to
/// another one, and the last leads to `mode`.
pub open spec fn chained(events: Seq<RenderEvent>, mode: MainMode) -> bool {
    &&& forall|i: int| 0 <= i < events.len() ==> change_from(#[trigger] events[i]) != change_to(events[i])
    &&& forall|i: int, j: int|
        0 <= i && j == i + 1 && j < events.len() ==> change_to(#[trigger] events[i]) == change_from(
            #[trigger] events[j],
        )
    &&& events.len() > 0 ==> change_to(events.last()) == mode
}

/// A change of screen keeps the noted changes a chain that ends at the
/// screen shown: starting from an empty mailbox, the changes to carry out
/// always lead from one screen to the next and end where the menus are.
pub proof fn law_mode_changes_chain(events: Seq<RenderEvent>, mode: MainMode, next: MainMode)
    requires
        chained(events, mode),
    ensures
        chained(
            if mode != next {
                events.push(RenderEvent::ChangeMode { from: mode, to: next })
            } else {
                events
            },
            next,
        ),
        chained(Seq::empty(), mode),
{
    if mode != next {
        let e = RenderEvent::ChangeMode { from: mode, to: next };
        let e2 = events.push(e);
        assert forall|i: int| 0 <= i < e2.len() implies change_from(#[trigger] e2[i]) != change_to(e2[i]) by {
            if i < events.len() {
                assert(e2[i] == events[i]);
            }
        }
        assert forall|i: int, j: int|
            0 <= i && j == i + 1 && j < e2.len() implies change_to(#[trigger] e2[i]) == change_from(
                #[trigger] e2[j],
            ) by {
            assert(e2[i] == events[i]);
            if j < events.len() {
                assert(e2[j] == events[j]);
            }
        }
    }
}


/// The noted changes and the screen shown after asking in turn for the
/// screens `nexts` (by `change_mode`, `on_escape` or the lobby's "Back"),
/// from the screen `mode` with the changes `events` noted.
pub open spec fn after_changes(events: Seq<RenderEvent>, mode: MainMode, nexts: Seq<MainMode>) -> (Seq<RenderEvent>, MainMode)
    decreases nexts.len(),
{
    if nexts.len() == 0 {
        (events, mode)
    } else {
        let (e, m) = after_changes(events, mode, nexts.drop_last());
        let next = nexts.last();
        (
            if m != next {
                e.push(RenderEvent::ChangeMode { from: m, to: next })
            } else {
                e
            },
            next,
        )
    }
}

/// Over a whole frame of screen changes from a taken mailbox at screen
/// `m0`: the noted changes form a chain from `m0` to the screen shown; the
/// screen differs from `m0` only when some change is noted; the screen
/// shown is the last asked for; and when the first screen asked for is
/// home (the Escape key) while away from home, the first change leads
/// from `m0` home.
pub proof fn law_frame_mode_changes(m0: MainMode, nexts: Seq<MainMode>)
    ensures
        ({
            let (e, m) = after_changes(Seq::empty(), m0, nexts);
            &&& chained(e, m)
            &&& e.len() > 0 ==> change_from(e[0]) == m0
            &&& m != m0 ==> e.len() > 0
            &&& nexts.len() > 0 ==> m == nexts.last()
            &&& nexts.len() > 0 && nexts[0] != m0 ==> e.len() > 0
            &&& nexts.len() > 0 && nexts[0] == MainMode::Home && m0 != MainMode::Home ==> e[0] == (
            RenderEvent::ChangeMode { from: m0, to: MainMode::Home })
        }),
    decreases nexts.len(),
{
    if nexts.len() > 0 {
        let rest = nexts.drop_last();
        law_frame_mode_changes(m0, rest);
        let (e, m) = after_changes(Seq::empty(), m0, rest);
        law_mode_changes_chain(e, m, nexts.last());
        if rest.len() > 0 {
            assert(rest[0] == nexts[0]);
        } else {
            assert(e =~= Seq::<RenderEvent>::empty());
            assert(m == m0);
        }
        if m != nexts.last() {
            assert(e.push(RenderEvent::ChangeMode { from: m, to: nexts.last() })[0] == if e.len() > 0 {
                e[0]
            } else {
                RenderEvent::ChangeMode { from: m, to: nexts.last() }
            });
        }
    }
}


/// The map camera serves exactly the screens that show the map, playing
/// and editing it; the orbiting camera exactly the unit editor; every
/// other screen keeps the camera still.
pub proof fn law_camera_of_screen(mode: MainMode)
    ensures
        (camera_of(mode) == CameraKind::Rts) <==> (mode == MainMode::Play || mode == MainMode::MapEditor),
        (camera_of(mode) == CameraKind::Orbit) <==> (mode == MainMode::UnitEditor),
        (camera_of(mode) == CameraKind::Still) <==> (mode == MainMode::Home || mode == MainMode::MultiplayerLobby),
{
}

} // verus!
