//! The desktop window's decisions: how each message changes what the window
//! holds, and which outside work (dialogs, saving, the server) it asks for.
use vstd::prelude::*;
use crate::config::{texts, lists_path, law_added_folder_is_listed, law_remove_undoes_add, with_path, without_path, Config};
use crate::util::{link_for, url_of, Ipv4};

verus! {

/// What the window is told.
#[derive(Debug)]
pub enum Message {
    AddFolder,
    FoldersPicked(Option<Vec<String>>),
    RemoveFolder(String),
    ToggleServer,
    ServerStopped(Result<(), String>),
    CloseError,
    OpenQrModal(String),
    CloseQrModal,
}

/// Mathematical value of a message.
pub enum MessageView {
    AddFolder,
    FoldersPicked(Option<Seq<Seq<char>>>),
    RemoveFolder(Seq<char>),
    ToggleServer,
    ServerStopped(Result<(), Seq<char>>),
    CloseError,
    OpenQrModal(Seq<char>),
    CloseQrModal,
}

impl View for Message {
    type V = MessageView;

    open spec fn view(&self) -> MessageView {
        match self {
            Message::AddFolder => MessageView::AddFolder,
            Message::FoldersPicked(None) => MessageView::FoldersPicked(None),
            Message::FoldersPicked(Some(v)) => MessageView::FoldersPicked(Some(texts(v@))),
            Message::RemoveFolder(p) => MessageView::RemoveFolder(p@),
            Message::ToggleServer => MessageView::ToggleServer,
            Message::ServerStopped(Ok(())) => MessageView::ServerStopped(Ok(())),
            Message::ServerStopped(Err(e)) => MessageView::ServerStopped(Err(e@)),
            Message::CloseError => MessageView::CloseError,
            Message::OpenQrModal(u) => MessageView::OpenQrModal(u@),
            Message::CloseQrModal => MessageView::CloseQrModal,
        }
    }
}

/// Outside work that the window asks the desktop shell to do.
pub enum Action {
    Nothing,
    /// Open the folder picker; the folders already shared are given.
    PickFolders(Vec<String>),
    /// Hand the folder list to the server and save the settings.
    SyncFolders,
    /// Bind a listener on all interfaces and start the server on it.
    StartServer,
    /// Tell the running server to shut down.
    StopServer,
    /// Build the QR code of this link.
    BuildQr(String),
}

/// Mathematical value of an action.
pub enum ActionView {
    Nothing,
    PickFolders(Seq<Seq<char>>),
    SyncFolders,
    StartServer,
    StopServer,
    BuildQr(Seq<char>),
}

impl View for Action {
    type V = ActionView;

    open spec fn view(&self) -> ActionView {
        match self {
            Action::Nothing => ActionView::Nothing,
            Action::PickFolders(v) => ActionView::PickFolders(texts(v@)),
            Action::SyncFolders => ActionView::SyncFolders,
            Action::StartServer => ActionView::StartServer,
            Action::StopServer => ActionView::StopServer,
            Action::BuildQr(u) => ActionView::BuildQr(u@),
        }
    }
}

/// What came of outside work that the window asked for.
pub enum Outcome {
    /// The server was started, listening on the port if it is known; or the
    /// listener could not be set up, for the reason given.
    ServerStarted(Result<Option<u16>, String>),
    /// The settings could not be saved, for the reason given.
    SaveFailed(String),
    /// The QR code was built, or could not be, for the reason given.
    QrBuilt(Result<(), String>),
}

/// Mathematical value of an outcome.
pub enum OutcomeView {
    ServerStarted(Result<Option<u16>, Seq<char>>),
    SaveFailed(Seq<char>),
    QrBuilt(Result<(), Seq<char>>),
}

impl View for Outcome {
    type V = OutcomeView;

    open spec fn view(&self) -> OutcomeView {
        match self {
            Outcome::ServerStarted(Ok(p)) => OutcomeView::ServerStarted(Ok(*p)),
            Outcome::ServerStarted(Err(e)) => OutcomeView::ServerStarted(Err(e@)),
            Outcome::SaveFailed(e) => OutcomeView::SaveFailed(e@),
            Outcome::QrBuilt(Ok(())) => OutcomeView::QrBuilt(Ok(())),
            Outcome::QrBuilt(Err(e)) => OutcomeView::QrBuilt(Err(e@)),
        }
    }
}

#[derive(Debug, Clone, Copy, PartialEq, Eq, Structural)]
pub enum ServerState {
    Stopped,
    Running,
}

/// What the window holds.
pub struct Client {
    pub config: Config,
    pub server_state: ServerState,
    /// The port the server listens on, when it runs and the port is known.
    pub server_port: Option<u16>,
    /// The running server can still be told to stop.
    pub can_stop: bool,
    /// The address under which other devices of the LAN reach this machine.
    pub local_ip: Option<Ipv4>,
    pub error: Option<String>,
    pub qr_open: bool,
}

/// Mathematical value of the window's state.
pub struct ClientView {
    pub folders: Seq<Seq<char>>,
    pub server_state: ServerState,
    pub server_port: Option<u16>,
    pub can_stop: bool,
    pub local_ip: Option<Ipv4>,
    pub error: Option<Seq<char>>,
    pub qr_open: bool,
}

impl View for Client {
    type V = ClientView;

    open spec fn view(&self) -> ClientView {
        ClientView {
            folders: self.config@,
            server_state: self.server_state,
            server_port: self.server_port,
            can_stop: self.can_stop,
            local_ip: self.local_ip,
            error: match self.error {
                Some(e) => Some(e@),
                None => None,
            },
            qr_open: self.qr_open,
        }
    }
}

/// The folders after adding each of `paths` in turn.
pub open spec fn with_paths(folders: Seq<Seq<char>>, paths: Seq<Seq<char>>) -> Seq<Seq<char>>
    decreases paths.len(),
{
    if paths.len() == 0 {
        folders
    } else {
        with_path(with_paths(folders, paths.drop_last()), paths.last())
    }
}

/// The state after a message, and the work it asks for.
pub open spec fn after_message(s: ClientView, m: MessageView) -> (ClientView, ActionView) {
    match m {
        MessageView::AddFolder => (s, ActionView::PickFolders(s.folders)),
        MessageView::FoldersPicked(Some(paths)) => (
            ClientView { folders: with_paths(s.folders, paths), ..s },
            ActionView::SyncFolders,
        ),
        MessageView::FoldersPicked(None) => (s, ActionView::Nothing),
        MessageView::RemoveFolder(p) => (
            ClientView { folders: without_path(s.folders, p), ..s },
            ActionView::SyncFolders,
        ),
        MessageView::ToggleServer => match s.server_state {
            ServerState::Stopped => (ClientView { error: None, ..s }, ActionView::StartServer),
            ServerState::Running => if s.can_stop {
                (ClientView { can_stop: false, ..s }, ActionView::StopServer)
            } else {
                (s, ActionView::Nothing)
            },
        },
        MessageView::ServerStopped(res) => (
            ClientView {
                server_state: ServerState::Stopped,
                server_port: None,
                can_stop: false,
                error: match res {
                    Ok(()) => s.error,
                    Err(e) => Some("Server stopped with an error: "@ + e),
                },
                ..s
            },
            ActionView::Nothing,
        ),
        MessageView::CloseError => (ClientView { error: None, ..s }, ActionView::Nothing),
        MessageView::OpenQrModal(url) => (s, ActionView::BuildQr(url)),
        MessageView::CloseQrModal => (ClientView { qr_open: false, ..s }, ActionView::Nothing),
    }
}

/// The state after the outcome of outside work.
pub open spec fn after_outcome(s: ClientView, o: OutcomeView) -> ClientView {
    match o {
        OutcomeView::ServerStarted(Ok(port)) => ClientView {
            server_state: ServerState::Running,
            server_port: port,
            can_stop: true,
            ..s
        },
        OutcomeView::ServerStarted(Err(e)) => ClientView { error: Some(e), ..s },
        OutcomeView::SaveFailed(e) => ClientView {
            error: Some("Failed to save settings: "@ + e),
            ..s
        },
        OutcomeView::QrBuilt(Ok(())) => ClientView { qr_open: true, ..s },
        OutcomeView::QrBuilt(Err(e)) => ClientView { error: Some(e), ..s },
    }
}

/// A copy of a list of strings.
pub fn copy_texts(v: &Vec<String>) -> (r: Vec<String>)
    ensures
        texts(r@) == texts(v@),
{
    let mut r: Vec<String> = Vec::new();
    let mut i: usize = 0;
    while i < v.len()
        invariant
            i <= v.len(),
            r@.len() == i,
            texts(r@) == texts(v@).take(i as int),
        decreases v.len() - i,
    {
        let ghost before = r@;
        let c = v[i].clone();
        r.push(c);
        assert(r@ == before.push(v@[i as int]));
        assert forall|k: int| 0 <= k < i + 1 implies #[trigger] texts(r@)[k] == texts(v@).take(
            i + 1,
        )[k] by {
            if k < i {
                assert(r@[k] == before[k]);
                assert(texts(before)[k] == texts(v@).take(i as int)[k]);
            }
        }
        assert(texts(r@) =~= texts(v@).take(i + 1));
        i = i + 1;
    }
    assert(texts(v@).take(v.len() as int) =~= texts(v@));
    r
}

fn prefixed(prefix: &str, text: &str) -> (r: String)
    ensures
        r@ == prefix@ + text@,
{
    let mut r = String::from_str(prefix);
    r.append(text);
    r
}

impl Client {
    /// A window with the saved settings, the server stopped, and the LAN
    /// address found at start (if any).
    pub fn new(config: Config, local_ip: Option<Ipv4>) -> (c: Client)
        ensures
            c@ == (ClientView {
                folders: config@,
                server_state: ServerState::Stopped,
                server_port: None,
                can_stop: false,
                local_ip,
                error: None,
                qr_open: false,
            }),
    {
        Client {
            config,
            server_state: ServerState::Stopped,
            server_port: None,
            can_stop: false,
            local_ip,
            error: None,
            qr_open: false,
        }
    }

    /// Handles a message.
    pub fn update(&mut self, message: Message) -> (a: Action)
        ensures
            final(self)@ == after_message(old(self)@, message@).0,
            a@ == after_message(old(self)@, message@).1,
    {
        match message {
            Message::AddFolder => Action::PickFolders(copy_texts(&self.config.folders)),
            Message::FoldersPicked(Some(paths)) => {
                let ghost start = self.config@;
                let ghost s0 = self@;
                let mut i: usize = 0;
                assert(texts(paths@).take(0) =~= Seq::<Seq<char>>::empty());
                while i < paths.len()
                    invariant
                        i <= paths.len(),
                        self@ == (ClientView { folders: self.config@, ..s0 }),
                        self.config@ == with_paths(start, texts(paths@).take(i as int)),
                    decreases paths.len() - i,
                {
                    assert(texts(paths@).take(i + 1).drop_last() =~= texts(paths@).take(
                        i as int,
                    ));
                    self.config.add_folder(paths[i].clone());
                    i = i + 1;
                }
                assert(texts(paths@).take(paths.len() as int) =~= texts(paths@));
                Action::SyncFolders
            },
            Message::FoldersPicked(None) => Action::Nothing,
            Message::RemoveFolder(path) => {
                self.config.remove_folder(path.as_str());
                Action::SyncFolders
            },
            Message::ToggleServer => match self.server_state {
                ServerState::Stopped => {
                    self.error = None;
                    Action::StartServer
                },
                ServerState::Running => {
                    if self.can_stop {
                        self.can_stop = false;
                        Action::StopServer
                    } else {
                        Action::Nothing
                    }
                },
            },
            Message::ServerStopped(result) => {
                self.server_state = ServerState::Stopped;
                self.server_port = None;
                self.can_stop = false;
                if let Err(err) = result {
                    self.error = Some(prefixed("Server stopped with an error: ", err.as_str()));
                }
                Action::Nothing
            },
            Message::CloseError => {
                self.error = None;
                Action::Nothing
            },
            Message::OpenQrModal(url) => Action::BuildQr(url),
            Message::CloseQrModal => {
                self.qr_open = false;
                Action::Nothing
            },
        }
    }

    /// Takes in what came of outside work.
    pub fn apply(&mut self, outcome: Outcome)
        ensures
            final(self)@ == after_outcome(old(self)@, outcome@),
    {
        match outcome {
            Outcome::ServerStarted(Ok(port)) => {
                self.server_state = ServerState::Running;
                self.server_port = port;
                self.can_stop = true;
            },
            Outcome::ServerStarted(Err(e)) => {
                self.error = Some(e);
            },
            Outcome::SaveFailed(e) => {
                self.error = Some(prefixed("Failed to save settings: ", e.as_str()));
            },
            Outcome::QrBuilt(Ok(())) => {
                self.qr_open = true;
            },
            Outcome::QrBuilt(Err(e)) => {
                self.error = Some(e);
            },
        }
    }

    /// The link shown under the server controls: known while the server runs
    /// and both the LAN address and the port are known.
    pub fn server_link(&self) -> (r: Option<String>)
        ensures
            match (self.server_state, self.local_ip, self.server_port) {
                (ServerState::Running, Some(ip), Some(port)) => r matches Some(s) && s@ == url_of(
                    ip,
                    port,
                ),
                _ => r is None,
            },
    {
        match self.server_state {
            ServerState::Running => link_for(self.local_ip, self.server_port),
            ServerState::Stopped => None,
        }
    }

    /// The error line shown at the bottom of the window, if any.
    pub fn error_line(&self) -> (r: Option<String>)
        ensures
            match self.error {
                Some(e) => r matches Some(s) && s@ == "Error: "@ + e@,
                None => r is None,
            },
    {
        match &self.error {
            Some(e) => Some(prefixed("Error: ", e.as_str())),
            None => None,
        }
    }
}

/// A server that stopped, for whatever reason, is shown stopped and without an address.
pub proof fn law_stop_resets_server(s: ClientView, res: Result<(), Seq<char>>)
    ensures
        after_message(s, MessageView::ServerStopped(res)).0.server_state == ServerState::Stopped,
        after_message(s, MessageView::ServerStopped(res)).0.server_port is None,
        after_message(s, MessageView::ServerStopped(res)).0.folders == s.folders,
{
}

/// Starting from a stopped server clears the error and asks for a start; once
/// started, the next toggle asks it to stop.
pub proof fn law_toggle_starts_then_stops(s: ClientView, port: Option<u16>)
    requires
        s.server_state == ServerState::Stopped,
    ensures
        after_message(s, MessageView::ToggleServer).1 == ActionView::StartServer,
        after_message(s, MessageView::ToggleServer).0.error is None,
        after_message(
            after_outcome(after_message(s, MessageView::ToggleServer).0, OutcomeView::ServerStarted(Ok(port))),
            MessageView::ToggleServer,
        ).1 == ActionView::StopServer,
{
}

/// A stopped server has no port and cannot be told to stop.
pub open spec fn server_settled(s: ClientView) -> bool {
    s.server_state == ServerState::Stopped ==> s.server_port is None && !s.can_stop
}

/// A new window's server is settled, and every message and every outcome keeps
/// it so: a stopped server never shows a port nor asks to be stopped.
pub proof fn law_stopped_server_stays_settled(
    s: ClientView,
    m: MessageView,
    o: OutcomeView,
    folders: Seq<Seq<char>>,
    local_ip: Option<Ipv4>,
)
    ensures
        server_settled(
            ClientView {
                folders,
                server_state: ServerState::Stopped,
                server_port: None,
                can_stop: false,
                local_ip,
                error: None,
                qr_open: false,
            },
        ),
        server_settled(s) ==> server_settled(after_message(s, m).0),
        server_settled(s) ==> server_settled(after_outcome(s, o)),
{
}

/// A stop is asked for at most once per start.
pub proof fn law_stop_asked_once(s: ClientView)
    requires
        s.server_state == ServerState::Running,
    ensures
        after_message(after_message(s, MessageView::ToggleServer).0, MessageView::ToggleServer).1
            == ActionView::Nothing,
{
}

proof fn lemma_with_single_path(folders: Seq<Seq<char>>, p: Seq<char>)
    ensures
        with_paths(folders, seq![p]) == with_path(folders, p),
{
    assert(seq![p].drop_last() =~= Seq::<Seq<char>>::empty());
    assert(seq![p].last() == p);
    assert(with_paths(folders, Seq::<Seq<char>>::empty()) == folders);
}

proof fn lemma_with_paths_keeps_listed(folders: Seq<Seq<char>>, paths: Seq<Seq<char>>, f: Seq<char>)
    requires
        lists_path(folders, f),
    ensures
        lists_path(with_paths(folders, paths), f),
    decreases paths.len(),
{
    if paths.len() > 0 {
        lemma_with_paths_keeps_listed(folders, paths.drop_last(), f);
        let before = with_paths(folders, paths.drop_last());
        let i = choose|i: int| 0 <= i < before.len() && crate::paths::same_path(#[trigger] before[i], f);
        assert(with_path(before, paths.last())[i] == before[i]);
    }
}

/// Every folder picked in the dialog is listed afterwards.
pub proof fn law_picked_folders_are_listed(s: ClientView, paths: Seq<Seq<char>>, k: int)
    requires
        0 <= k < paths.len(),
    ensures
        lists_path(after_message(s, MessageView::FoldersPicked(Some(paths))).0.folders, paths[k]),
    decreases paths.len(),
{
    let before = with_paths(s.folders, paths.drop_last());
    if k == paths.len() - 1 {
        law_added_folder_is_listed(before, paths[k]);
    } else {
        law_picked_folders_are_listed(s, paths.drop_last(), k);
        law_added_folder_is_listed(before, paths.last());
        lemma_with_paths_keeps_listed(before, seq![paths.last()], paths[k]);
        lemma_with_single_path(before, paths.last());
    }
}

/// Removing a folder right after picking it takes its path off the list.
pub proof fn law_remove_after_pick(s: ClientView, p: Seq<char>)
    ensures
        !lists_path(
            after_message(
                after_message(s, MessageView::FoldersPicked(Some(seq![p]))).0,
                MessageView::RemoveFolder(p),
            ).0.folders,
            p,
        ),
{
    lemma_with_single_path(s.folders, p);
    law_remove_undoes_add(s.folders, p);
}

} // verus!
