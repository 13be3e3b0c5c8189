//! The per-connection session: configuration and the state machine that
//! governs authentication, spawn, pause/resume, resize and teardown.
//!
//! A session is driven by plain events — an inbound frame, a chunk of
//! terminal output, the outcome of a requested spawn, the peer or the process
//! going away — and answers each with a list of actions: frames to send,
//! bytes to write to the terminal, a spawn, a resize, a kill. The unverified
//! glue performs the actions; every decision is taken here, and
//! [`spec_step`] says exactly which.

use vstd::prelude::*;

use crate::protocol::ClientMessage;
use crate::protocol::ClientMessageV;
use crate::protocol::ServerMessage;
use crate::protocol::ServerMessageV;
use crate::protocol::spec_parse;
use crate::protocol::spec_server_frame;
use crate::protocol::spec_mouse_click_sequence;
use crate::protocol::spec_mouse_drag_sequence;
use crate::protocol::generate_mouse_sequence;
use crate::protocol::generate_mouse_drag_sequence;
use crate::pty::PtySize;
use crate::pty::spec_effective_size;
use vstd::string::StringExecFns;

verus! {

/// The configuration one server process runs with, assembled by the caller.
#[derive(Debug, Clone)]
pub struct Config {
    pub port: u16,
    pub interface: String,
    pub command: Vec<String>,
    pub cwd: Option<String>,
    pub credential: Option<String>,
    pub writable: bool,
    pub check_origin: bool,
    pub max_clients: usize,
    pub once: bool,
}

impl Default for Config {
    /// The stock configuration: port 7681 on every interface, a writable
    /// `bash` session with no credential, no origin check and no client cap.
    fn default() -> (r: Self)
        ensures
            r.port == 7681,
            r.interface@ == "0.0.0.0"@,
            r.command.deep_view() == seq!["bash"@],
            r.cwd is None,
            r.credential is None,
            r.writable == true,
            r.check_origin == false,
            r.max_clients == 0,
            r.once == false,
    {
        let command = vec![String::from_str("bash")];
        assert(command.deep_view() =~= seq!["bash"@]);
        Config {
            port: 7681,
            interface: String::from_str("0.0.0.0"),
            command,
            cwd: None,
            credential: None,
            writable: true,
            check_origin: false,
            max_clients: 0,
            once: false,
        }
    }
}

/// What the connection acceptor shares with every session it starts.
pub struct AppState {
    pub config: Config,
}

impl AppState {
    /// Wrap a configuration for the acceptor to hand to sessions.
    pub fn new(config: Config) -> (r: Self)
        ensures
            r.config == config,
    {
        AppState { config }
    }
}

/// Where a session stands.
///
/// `Connecting` lasts until the two unconditional startup frames are built;
/// `AwaitingInit` accepts only the one `Init` frame; `Spawning` covers the
/// interval while the requested spawn is outstanding; `Active` and `Paused`
/// toggle on `Pause`/`Resume`; `Closing` is entered on any fatal condition
/// and `Closed` once teardown ran.
#[derive(Clone, Copy, Debug, PartialEq, Eq, Structural)]
pub enum SessionState {
    Connecting,
    AwaitingInit,
    Spawning,
    Active,
    Paused,
    Closing,
    Closed,
}

/// One thing that happened that the session must answer.
#[derive(Debug)]
pub enum SessionEvent {
    /// A frame arrived from the peer.
    Frame(Vec<u8>),
    /// The terminal produced a chunk of output.
    PtyOutput(Vec<u8>),
    /// The spawn the session asked for succeeded; the process id is carried
    /// for display.
    SpawnOk(u32),
    /// The spawn the session asked for failed.
    SpawnFailed,
    /// The terminal's output stream ended: the process is gone.
    PtyExited,
    /// The peer closed the connection or the transport failed.
    PeerClosed,
}

/// The ghost shape of a [`SessionEvent`].
#[verifier::ext_equal]
pub enum SessionEventV {
    Frame(Seq<u8>),
    PtyOutput(Seq<u8>),
    SpawnOk(u32),
    SpawnFailed,
    PtyExited,
    PeerClosed,
}

impl View for SessionEvent {
    type V = SessionEventV;

    open spec fn view(&self) -> SessionEventV {
        match self {
            SessionEvent::Frame(f) => SessionEventV::Frame(f@),
            SessionEvent::PtyOutput(b) => SessionEventV::PtyOutput(b@),
            SessionEvent::SpawnOk(pid) => SessionEventV::SpawnOk(*pid),
            SessionEvent::SpawnFailed => SessionEventV::SpawnFailed,
            SessionEvent::PtyExited => SessionEventV::PtyExited,
            SessionEvent::PeerClosed => SessionEventV::PeerClosed,
        }
    }
}

/// One thing the glue must do on the session's behalf.
#[derive(Debug, PartialEq, Eq)]
pub enum SessionAction {
    /// Send this frame to the peer.
    SendFrame(Vec<u8>),
    /// Spawn the configured command on a terminal of this size.
    SpawnPty(PtySize),
    /// Write these bytes to the terminal.
    WritePty(Vec<u8>),
    /// Resize the terminal.
    ResizePty(PtySize),
    /// Terminate the spawned process.
    KillPty,
}

/// The ghost shape of a [`SessionAction`].
#[verifier::ext_equal]
pub enum SessionActionV {
    SendFrame(Seq<u8>),
    SpawnPty(PtySize),
    WritePty(Seq<u8>),
    ResizePty(PtySize),
    KillPty,
}

impl View for SessionAction {
    type V = SessionActionV;

    open spec fn view(&self) -> SessionActionV {
        match self {
            SessionAction::SendFrame(f) => SessionActionV::SendFrame(f@),
            SessionAction::SpawnPty(s) => SessionActionV::SpawnPty(*s),
            SessionAction::WritePty(b) => SessionActionV::WritePty(b@),
            SessionAction::ResizePty(s) => SessionActionV::ResizePty(*s),
            SessionAction::KillPty => SessionActionV::KillPty,
        }
    }
}

impl DeepView for SessionAction {
    type V = SessionActionV;

    open spec fn deep_view(&self) -> SessionActionV {
        self.view()
    }
}

/// The ghost shape of a [`Session`].
#[verifier::ext_equal]
pub struct SessionV {
    pub writable: bool,
    pub credential: Option<Seq<char>>,
    pub state: SessionState,
    pub has_pty: bool,
    pub pid: Option<u32>,
    pub pending: Seq<Seq<u8>>,
}

/// One accepted connection: its configuration, where it stands, and the
/// output chunks held back while it is paused.
pub struct Session {
    /// The configuration the session was accepted under.
    pub config: Config,
    /// Driven by [`Session::step`]; read it through [`Session::state`].
    pub state: SessionState,
    /// Whether a spawn succeeded and no teardown ran yet.
    pub has_pty: bool,
    /// The spawned process's id, for display.
    pub pid: Option<u32>,
    /// Output chunks held back while paused.
    pub pending: Vec<Vec<u8>>,
}

impl View for Session {
    type V = SessionV;

    open spec fn view(&self) -> SessionV {
        SessionV {
            writable: self.config.writable,
            credential: self.config.credential.deep_view(),
            state: self.state,
            has_pty: self.has_pty,
            pid: self.pid,
            pending: self.pending.deep_view(),
        }
    }
}

/// A session's internal consistency: no terminal exists before a spawn
/// succeeded or after teardown, a process id is held exactly while one does,
/// and output is held back only while paused.
pub open spec fn spec_wf(m: SessionV) -> bool {
    &&& (m.state == SessionState::Connecting || m.state == SessionState::AwaitingInit
        || m.state == SessionState::Spawning) ==> (!m.has_pty && m.pending.len() == 0)
    &&& m.state == SessionState::Active ==> (m.has_pty && m.pending.len() == 0)
    &&& m.state == SessionState::Paused ==> m.has_pty
    &&& m.state == SessionState::Closed ==> !m.has_pty
    &&& (m.has_pty <==> m.pid is Some)
}

/// Whether a supplied token satisfies the configured credential: trivially
/// yes where none is configured, else only the exact secret.
pub open spec fn spec_auth_ok(credential: Option<Seq<char>>, token: Option<Seq<char>>) -> bool {
    match credential {
        None => true,
        Some(c) => token == Some(c),
    }
}

/// The frame that carries one chunk of terminal output to the peer.
pub open spec fn spec_output_frame(data: Seq<u8>) -> Seq<u8> {
    spec_server_frame(ServerMessageV::Output(data))
}

/// The sends that deliver held-back chunks on resume, one frame per chunk,
/// in the order the terminal produced them.
pub open spec fn spec_flush_actions(pending: Seq<Seq<u8>>) -> Seq<SessionActionV> {
    pending.map_values(|b: Seq<u8>| SessionActionV::SendFrame(spec_output_frame(b)))
}

/// What one parsed client command does to a session.
///
/// Only the first `Init`, and only in `AwaitingInit`, counts: a failed
/// credential check closes the session without any spawn, a passed one asks
/// for a spawn of the effective size. Input and mouse reports reach the
/// terminal only while one exists and the session is writable; resize
/// reaches it whenever one exists; `Pause` and `Resume` toggle delivery, and
/// resuming hands back everything held, in order. Everything else is
/// ignored.
pub open spec fn spec_apply(m: SessionV, msg: ClientMessageV) -> (SessionV, Seq<SessionActionV>) {
    match msg {
        ClientMessageV::Init(init) => {
            if m.state != SessionState::AwaitingInit {
                (m, Seq::empty())
            } else if !spec_auth_ok(m.credential, init.auth_token) {
                (SessionV { state: SessionState::Closing, ..m }, Seq::empty())
            } else {
                (
                    SessionV { state: SessionState::Spawning, ..m },
                    seq![
                        SessionActionV::SpawnPty(spec_effective_size(init.columns, init.rows)),
                    ],
                )
            }
        },
        ClientMessageV::Input(b) => {
            if m.writable && m.has_pty && (m.state == SessionState::Active || m.state
                == SessionState::Paused) {
                (m, seq![SessionActionV::WritePty(b)])
            } else {
                (m, Seq::empty())
            }
        },
        ClientMessageV::Resize { cols, rows } => {
            if m.has_pty && (m.state == SessionState::Active || m.state == SessionState::Paused) {
                (m, seq![SessionActionV::ResizePty(PtySize { cols, rows })])
            } else {
                (m, Seq::empty())
            }
        },
        ClientMessageV::MouseClick(c) => {
            if m.writable && m.has_pty && (m.state == SessionState::Active || m.state
                == SessionState::Paused) {
                (
                    m,
                    seq![
                        SessionActionV::WritePty(
                            spec_mouse_click_sequence(c.x, c.y, c.button, c.pressed),
                        ),
                    ],
                )
            } else {
                (m, Seq::empty())
            }
        },
        ClientMessageV::MouseDrag(d) => {
            if m.writable && m.has_pty && (m.state == SessionState::Active || m.state
                == SessionState::Paused) {
                (
                    m,
                    seq![
                        SessionActionV::WritePty(spec_mouse_drag_sequence(d.x, d.y, d.button)),
                    ],
                )
            } else {
                (m, Seq::empty())
            }
        },
        ClientMessageV::Pause => {
            if m.state == SessionState::Active {
                (SessionV { state: SessionState::Paused, ..m }, Seq::empty())
            } else {
                (m, Seq::empty())
            }
        },
        ClientMessageV::Resume => {
            if m.state == SessionState::Paused {
                (
                    SessionV { state: SessionState::Active, pending: Seq::empty(), ..m },
                    spec_flush_actions(m.pending),
                )
            } else {
                (m, Seq::empty())
            }
        },
    }
}

/// What one event does to a session.
///
/// A frame that does not parse is dropped and the session goes on; one that
/// does is applied as [`spec_apply`] says. Terminal output is forwarded at
/// once while `Active`, held back while `Paused`, and discarded otherwise.
/// A spawn outcome moves `Spawning` to `Active` or `Closing`. The peer going
/// away, or the process exiting, moves the session to `Closing`; the process
/// exit closing the session is this implementation's documented choice.
pub open spec fn spec_step(m: SessionV, ev: SessionEventV) -> (SessionV, Seq<SessionActionV>) {
    match ev {
        SessionEventV::Frame(f) => match spec_parse(f) {
            Ok(msg) => spec_apply(m, msg),
            Err(_) => (m, Seq::empty()),
        },
        SessionEventV::PtyOutput(b) => {
            if m.state == SessionState::Active {
                (m, seq![SessionActionV::SendFrame(spec_output_frame(b))])
            } else if m.state == SessionState::Paused {
                (SessionV { pending: m.pending.push(b), ..m }, Seq::empty())
            } else {
                (m, Seq::empty())
            }
        },
        SessionEventV::SpawnOk(pid) => {
            if m.state == SessionState::Spawning {
                (
                    SessionV {
                        state: SessionState::Active,
                        has_pty: true,
                        pid: Some(pid),
                        ..m
                    },
                    Seq::empty(),
                )
            } else {
                (m, Seq::empty())
            }
        },
        SessionEventV::SpawnFailed => {
            if m.state == SessionState::Spawning {
                (SessionV { state: SessionState::Closing, ..m }, Seq::empty())
            } else {
                (m, Seq::empty())
            }
        },
        SessionEventV::PtyExited => {
            if m.state == SessionState::Closed {
                (m, Seq::empty())
            } else {
                (SessionV { state: SessionState::Closing, ..m }, Seq::empty())
            }
        },
        SessionEventV::PeerClosed => {
            if m.state == SessionState::Closed {
                (m, Seq::empty())
            } else {
                (SessionV { state: SessionState::Closing, ..m }, Seq::empty())
            }
        },
    }
}

/// What teardown does: the session is closed, and the process is killed
/// exactly where one exists — never where no spawn succeeded.
pub open spec fn spec_finish(m: SessionV) -> (SessionV, Seq<SessionActionV>) {
    (
        SessionV {
            state: SessionState::Closed,
            has_pty: false,
            pid: None,
            pending: Seq::empty(),
            ..m
        },
        if m.has_pty {
            seq![SessionActionV::KillPty]
        } else {
            Seq::empty()
        },
    )
}

/// The words of the command line joined with single spaces.
pub open spec fn spec_join_space(parts: Seq<Seq<char>>) -> Seq<char> {
    if parts.len() == 0 {
        Seq::empty()
    } else {
        parts[0] + spec_join_rest(parts.skip(1))
    }
}

/// The tail of a joined command line: a space before each further word.
pub open spec fn spec_join_rest(parts: Seq<Seq<char>>) -> Seq<char>
    decreases parts.len(),
{
    if parts.len() == 0 {
        Seq::empty()
    } else {
        seq![' '] + parts[0] + spec_join_rest(parts.skip(1))
    }
}

/// The window title a session announces: the command line, then the
/// machine's hostname in parentheses, with `localhost` where none is known.
pub open spec fn spec_title_chars(command: Seq<Seq<char>>, hostname: Option<Seq<char>>) -> Seq<
    char,
> {
    spec_join_space(command) + " ("@ + (match hostname {
        Some(h) => h,
        None => "localhost"@,
    }) + ")"@
}

/// The two unconditional startup frames, in order: the window title, then
/// the (empty) preferences object.
pub open spec fn spec_startup_frames(command: Seq<Seq<char>>, hostname: Option<Seq<char>>) -> Seq<
    Seq<u8>,
> {
    seq![
        spec_server_frame(ServerMessageV::SetWindowTitle(spec_title_chars(command, hostname))),
        spec_server_frame(ServerMessageV::SetPreferences("{}"@)),
    ]
}

/// The words of the command line joined with single spaces.
fn join_space(parts: &Vec<String>) -> (r: String)
    ensures
        r@ == spec_join_space(parts.deep_view()),
{
    if parts.len() == 0 {
        let r = String::new();
        assert(r@ =~= spec_join_space(parts.deep_view()));
        return r;
    }
    let mut r = parts[0].clone();
    let mut i: usize = 1;
    while i < parts.len()
        invariant
            1 <= i <= parts@.len(),
            parts.deep_view().len() == parts@.len(),
            r@ + spec_join_rest(parts.deep_view().skip(i as int)) == spec_join_space(
                parts.deep_view(),
            ),
        decreases parts@.len() - i,
    {
        let ghost before = parts.deep_view().skip(i as int);
        r.append(" ");
        r.append(parts[i].as_str());
        proof {
            reveal_strlit(" ");
            assert(" "@ =~= seq![' ']);
            assert(before[0] == parts.deep_view()[i as int]);
            assert(before.skip(1) =~= parts.deep_view().skip(i as int + 1));
            assert(r@ + spec_join_rest(parts.deep_view().skip(i as int + 1)) =~= spec_join_space(
                parts.deep_view(),
            ));
        }
        i = i + 1;
    }
    proof {
        assert(parts.deep_view().skip(parts@.len() as int) =~= Seq::<Seq<char>>::empty());
        assert(r@ + Seq::<char>::empty() =~= r@);
        assert(r@ =~= spec_join_space(parts.deep_view()));
    }
    r
}

/// Relies on `hostname::get` to ask the OS for the machine's hostname, and
/// on `OsString::into_string` to keep it only where it is valid Unicode.
/// The result depends on the machine alone, so nothing is promised of it.
#[verifier::external_body]
fn lookup_hostname() -> Option<String> {
    hostname::get().ok().and_then(|h| h.into_string().ok())
}

impl Session {
    /// A fresh session for one accepted connection: no terminal yet, nothing
    /// held back, waiting to announce itself.
    pub fn new(config: Config) -> (r: Session)
        ensures
            r@.state == SessionState::Connecting,
            !r@.has_pty,
            r@.pid is None,
            r@.pending.len() == 0,
            r@.writable == config.writable,
            r@.credential == config.credential.deep_view(),
            r.config == config,
            spec_wf(r@),
    {
        let r = Session {
            config,
            state: SessionState::Connecting,
            has_pty: false,
            pid: None,
            pending: Vec::new(),
        };
        assert(r@.pending =~= Seq::<Seq<u8>>::empty());
        r
    }

    /// Where the session stands.
    pub fn state(&self) -> (r: SessionState)
        ensures
            r == self@.state,
    {
        self.state
    }

    /// The spawned process's id, for display, where one exists.
    pub fn pid(&self) -> (r: Option<u32>)
        ensures
            r == self@.pid,
    {
        self.pid
    }

    /// Build the two unconditional startup frames and start awaiting `Init`.
    /// The title names the configured command and the given hostname.
    pub fn startup_with_hostname(&mut self, hostname: Option<String>) -> (frames: Vec<Vec<u8>>)
        requires
            old(self)@.state == SessionState::Connecting,
        ensures
            final(self)@ == (SessionV { state: SessionState::AwaitingInit, ..old(self)@ }),
            frames.deep_view() == spec_startup_frames(
                old(self).config.command.deep_view(),
                hostname.deep_view(),
            ),
            spec_wf(old(self)@) ==> spec_wf(final(self)@),
    {
        let mut title = join_space(&self.config.command);
        title.append(" (");
        match &hostname {
            Some(h) => title.append(h.as_str()),
            None => title.append("localhost"),
        }
        title.append(")");
        assert(title@ == spec_title_chars(
            self.config.command.deep_view(),
            hostname.deep_view(),
        ));
        let title_frame = ServerMessage::SetWindowTitle(title).to_bytes();
        let prefs_frame = ServerMessage::SetPreferences(String::from_str("{}")).to_bytes();
        let frames = vec![title_frame, prefs_frame];
        self.state = SessionState::AwaitingInit;
        proof {
            assert(frames.deep_view() =~~= spec_startup_frames(
                self.config.command.deep_view(),
                hostname.deep_view(),
            ));
            assert(self@ =~~= (SessionV { state: SessionState::AwaitingInit, ..old(self)@ }));
        }
        frames
    }

    /// Build the startup frames with the hostname the machine reports. What
    /// hostname comes back depends on the machine; everything else is as
    /// [`Self::startup_with_hostname`] says.
    pub fn startup(&mut self) -> (frames: Vec<Vec<u8>>)
        requires
            old(self)@.state == SessionState::Connecting,
        ensures
            final(self)@ == (SessionV { state: SessionState::AwaitingInit, ..old(self)@ }),
            exists|h: Option<Seq<char>>|
                frames.deep_view() == spec_startup_frames(
                    old(self).config.command.deep_view(),
                    h,
                ),
            spec_wf(old(self)@) ==> spec_wf(final(self)@),
    {
        let hostname = lookup_hostname();
        let frames = self.startup_with_hostname(hostname);
        proof {
            assert(frames.deep_view() == spec_startup_frames(
                old(self).config.command.deep_view(),
                hostname.deep_view(),
            ));
        }
        frames
    }

    /// Answer one parsed client command, as [`spec_apply`] says.
    fn apply_message(&mut self, msg: ClientMessage) -> (actions: Vec<SessionAction>)
        ensures
            final(self)@ == spec_apply(old(self)@, msg@).0,
            actions.deep_view() == spec_apply(old(self)@, msg@).1,
    {
        match msg {
            ClientMessage::Init(init) => {
                if !(self.state == SessionState::AwaitingInit) {
                    let actions: Vec<SessionAction> = Vec::new();
                    assert(actions.deep_view() =~= spec_apply(old(self)@, msg@).1);
                    actions
                } else {
                    let ok: bool = match (&self.config.credential, &init.auth_token) {
                        (None, _) => true,
                        (Some(c), Some(t)) => *c == *t,
                        (Some(_), None) => false,
                    };
                    proof {
                        assert(ok == spec_auth_ok(old(self)@.credential, init@.auth_token));
                    }
                    if !ok {
                        self.state = SessionState::Closing;
                        let actions: Vec<SessionAction> = Vec::new();
                        proof {
                            assert(self@ =~~= spec_apply(old(self)@, msg@).0);
                            assert(actions.deep_view() =~= spec_apply(old(self)@, msg@).1);
                        }
                        actions
                    } else {
                        self.state = SessionState::Spawning;
                        let size = PtySize::effective(init.columns, init.rows);
                        let actions = vec![SessionAction::SpawnPty(size)];
                        proof {
                            assert(self@ =~~= spec_apply(old(self)@, msg@).0);
                            assert(actions.deep_view() =~= spec_apply(old(self)@, msg@).1);
                        }
                        actions
                    }
                }
            },
            ClientMessage::Input(b) => {
                if self.config.writable && self.has_pty && (self.state == SessionState::Active
                    || self.state == SessionState::Paused) {
                    let actions = vec![SessionAction::WritePty(b)];
                    assert(actions.deep_view() =~= spec_apply(old(self)@, msg@).1);
                    actions
                } else {
                    let actions: Vec<SessionAction> = Vec::new();
                    assert(actions.deep_view() =~= spec_apply(old(self)@, msg@).1);
                    actions
                }
            },
            ClientMessage::Resize { cols, rows } => {
                if self.has_pty && (self.state == SessionState::Active || self.state
                    == SessionState::Paused) {
                    let actions = vec![SessionAction::ResizePty(PtySize { cols, rows })];
                    assert(actions.deep_view() =~= spec_apply(old(self)@, msg@).1);
                    actions
                } else {
                    let actions: Vec<SessionAction> = Vec::new();
                    assert(actions.deep_view() =~= spec_apply(old(self)@, msg@).1);
                    actions
                }
            },
            ClientMessage::MouseClick(c) => {
                if self.config.writable && self.has_pty && (self.state == SessionState::Active
                    || self.state == SessionState::Paused) {
                    let seq_bytes = generate_mouse_sequence(c.x, c.y, c.button, c.pressed);
                    let actions = vec![SessionAction::WritePty(seq_bytes)];
                    assert(actions.deep_view() =~= spec_apply(old(self)@, msg@).1);
                    actions
                } else {
                    let actions: Vec<SessionAction> = Vec::new();
                    assert(actions.deep_view() =~= spec_apply(old(self)@, msg@).1);
                    actions
                }
            },
            ClientMessage::MouseDrag(d) => {
                if self.config.writable && self.has_pty && (self.state == SessionState::Active
                    || self.state == SessionState::Paused) {
                    let seq_bytes = generate_mouse_drag_sequence(d.x, d.y, d.button);
                    let actions = vec![SessionAction::WritePty(seq_bytes)];
                    assert(actions.deep_view() =~= spec_apply(old(self)@, msg@).1);
                    actions
                } else {
                    let actions: Vec<SessionAction> = Vec::new();
                    assert(actions.deep_view() =~= spec_apply(old(self)@, msg@).1);
                    actions
                }
            },
            ClientMessage::Pause => {
                if self.state == SessionState::Active {
                    self.state = SessionState::Paused;
                }
                let actions: Vec<SessionAction> = Vec::new();
                proof {
                    assert(self@ =~~= spec_apply(old(self)@, msg@).0);
                    assert(actions.deep_view() =~= spec_apply(old(self)@, msg@).1);
                }
                actions
            },
            ClientMessage::Resume => {
                if !(self.state == SessionState::Paused) {
                    let actions: Vec<SessionAction> = Vec::new();
                    assert(actions.deep_view() =~= spec_apply(old(self)@, msg@).1);
                    actions
                } else {
                    self.state = SessionState::Active;
                    let mut actions: Vec<SessionAction> = Vec::new();
                    let mut i: usize = 0;
                    while i < self.pending.len()
                        invariant
                            i <= self.pending@.len(),
                            self.pending.deep_view().len() == self.pending@.len(),
                            actions.deep_view() =~~= spec_flush_actions(
                                self.pending.deep_view().take(i as int),
                            ),
                        decreases self.pending@.len() - i,
                    {
                        let ghost prev = actions.deep_view();
                        let chunk = self.pending[i].clone();
                        let frame = ServerMessage::Output(chunk).to_bytes();
                        actions.push(SessionAction::SendFrame(frame));
                        proof {
                            let d = self.pending.deep_view()[i as int];
                            assert(chunk@ =~= d);
                            assert(actions.deep_view() =~= prev.push(
                                SessionActionV::SendFrame(frame@),
                            ));
                            assert(self.pending.deep_view().take(i as int + 1) =~= self
                                .pending
                                .deep_view()
                                .take(i as int)
                                .push(d));
                            assert(spec_flush_actions(
                                self.pending.deep_view().take(i as int).push(d),
                            ) =~= spec_flush_actions(
                                self.pending.deep_view().take(i as int),
                            ).push(SessionActionV::SendFrame(spec_output_frame(d))));
                            assert(actions.deep_view() =~~= spec_flush_actions(
                                self.pending.deep_view().take(i as int + 1),
                            ));
                        }
                        i = i + 1;
                    }
                    self.pending = Vec::new();
                    proof {
                        assert(old(self).pending.deep_view().take(
                            old(self).pending@.len() as int,
                        ) =~= old(self).pending.deep_view());
                        assert(self@ =~~= spec_apply(old(self)@, msg@).0);
                        assert(actions.deep_view() =~= spec_apply(old(self)@, msg@).1);
                    }
                    actions
                }
            },
        }
    }

    /// Answer one event, as [`spec_step`] says. Consistency is kept: a
    /// well-formed session stays well-formed.
    pub fn step(&mut self, ev: SessionEvent) -> (actions: Vec<SessionAction>)
        ensures
            final(self)@ == spec_step(old(self)@, ev@).0,
            actions.deep_view() == spec_step(old(self)@, ev@).1,
            spec_wf(old(self)@) ==> spec_wf(final(self)@),
    {
        match ev {
            SessionEvent::Frame(f) => {
                match ClientMessage::parse(f.as_slice()) {
                    Ok(msg) => self.apply_message(msg),
                    Err(_) => {
                        let actions: Vec<SessionAction> = Vec::new();
                        assert(actions.deep_view() =~= spec_step(old(self)@, ev@).1);
                        actions
                    },
                }
            },
            SessionEvent::PtyOutput(b) => {
                if self.state == SessionState::Active {
                    let frame = ServerMessage::Output(b).to_bytes();
                    let actions = vec![SessionAction::SendFrame(frame)];
                    assert(actions.deep_view() =~= spec_step(old(self)@, ev@).1);
                    actions
                } else if self.state == SessionState::Paused {
                    self.pending.push(b);
                    let actions: Vec<SessionAction> = Vec::new();
                    proof {
                        assert(self.pending.deep_view() =~~= old(self)@.pending.push(b@));
                        assert(self@ =~~= spec_step(old(self)@, ev@).0);
                        assert(actions.deep_view() =~= spec_step(old(self)@, ev@).1);
                    }
                    actions
                } else {
                    let actions: Vec<SessionAction> = Vec::new();
                    assert(actions.deep_view() =~= spec_step(old(self)@, ev@).1);
                    actions
                }
            },
            SessionEvent::SpawnOk(pid) => {
                if self.state == SessionState::Spawning {
                    self.state = SessionState::Active;
                    self.has_pty = true;
                    self.pid = Some(pid);
                }
                let actions: Vec<SessionAction> = Vec::new();
                proof {
                    assert(self@ =~~= spec_step(old(self)@, ev@).0);
                    assert(actions.deep_view() =~= spec_step(old(self)@, ev@).1);
                }
                actions
            },
            SessionEvent::SpawnFailed => {
                if self.state == SessionState::Spawning {
                    self.state = SessionState::Closing;
                }
                let actions: Vec<SessionAction> = Vec::new();
                proof {
                    assert(self@ =~~= spec_step(old(self)@, ev@).0);
                    assert(actions.deep_view() =~= spec_step(old(self)@, ev@).1);
                }
                actions
            },
            SessionEvent::PtyExited => {
                if !(self.state == SessionState::Closed) {
                    self.state = SessionState::Closing;
                }
                let actions: Vec<SessionAction> = Vec::new();
                proof {
                    assert(self@ =~~= spec_step(old(self)@, ev@).0);
                    assert(actions.deep_view() =~= spec_step(old(self)@, ev@).1);
                }
                actions
            },
            SessionEvent::PeerClosed => {
                if !(self.state == SessionState::Closed) {
                    self.state = SessionState::Closing;
                }
                let actions: Vec<SessionAction> = Vec::new();
                proof {
                    assert(self@ =~~= spec_step(old(self)@, ev@).0);
                    assert(actions.deep_view() =~= spec_step(old(self)@, ev@).1);
                }
                actions
            },
        }
    }

    /// Tear the session down, as [`spec_finish`] says: close it, and kill
    /// the process exactly where one exists. A session that never spawned
    /// one — it never received a valid `Init` — kills nothing.
    pub fn finish(&mut self) -> (actions: Vec<SessionAction>)
        ensures
            final(self)@ == spec_finish(old(self)@).0,
            actions.deep_view() == spec_finish(old(self)@).1,
            spec_wf(final(self)@),
    {
        let had = self.has_pty;
        self.state = SessionState::Closed;
        self.has_pty = false;
        self.pid = None;
        self.pending = Vec::new();
        let actions: Vec<SessionAction> = if had {
            vec![SessionAction::KillPty]
        } else {
            Vec::new()
        };
        proof {
            assert(self@.pending =~= Seq::<Seq<u8>>::empty());
            assert(self@ =~~= spec_finish(old(self)@).0);
            assert(actions.deep_view() =~= spec_finish(old(self)@).1);
        }
        actions
    }
}

/// A whole run: the session fed a sequence of events, with every action in
/// the order it was returned.
pub open spec fn spec_run(m: SessionV, evs: Seq<SessionEventV>) -> (SessionV, Seq<SessionActionV>)
    decreases evs.len(),
{
    if evs.len() == 0 {
        (m, Seq::empty())
    } else {
        let (m1, a1) = spec_step(m, evs[0]);
        let (m2, a2) = spec_run(m1, evs.skip(1));
        (m2, a1 + a2)
    }
}

/// A run over two stretches of events is the first run, then the second from
/// where the first left off, with the actions concatenated.
pub proof fn lemma_run_append(m: SessionV, a: Seq<SessionEventV>, b: Seq<SessionEventV>)
    ensures
        spec_run(m, a + b).0 == spec_run(spec_run(m, a).0, b).0,
        spec_run(m, a + b).1 == spec_run(m, a).1 + spec_run(spec_run(m, a).0, b).1,
    decreases a.len(),
{
    if a.len() == 0 {
        assert(a + b =~= b);
        assert(spec_run(m, a).1 + spec_run(spec_run(m, a).0, b).1 =~= spec_run(m, b).1);
    } else {
        let (m1, a1) = spec_step(m, a[0]);
        assert((a + b)[0] == a[0]);
        assert((a + b).skip(1) =~= a.skip(1) + b);
        lemma_run_append(m1, a.skip(1), b);
        assert(spec_run(m, a + b).1 =~= spec_run(m, a).1 + spec_run(spec_run(m, a).0, b).1);
    }
}

/// The payload of a frame that parses as `Input`.
pub open spec fn spec_input_payload(f: Seq<u8>) -> Seq<u8> {
    match spec_parse(f) {
        Ok(ClientMessageV::Input(b)) => b,
        _ => Seq::empty(),
    }
}

/// The size named by a frame that parses as `Resize`.
pub open spec fn spec_resize_size(f: Seq<u8>) -> PtySize {
    match spec_parse(f) {
        Ok(ClientMessageV::Resize { cols, rows }) => PtySize { cols, rows },
        _ => PtySize { cols: 0, rows: 0 },
    }
}

/// Law: input reaches the terminal verbatim and in order. A writable, active
/// session fed any sequence of `Input` frames answers with exactly one write
/// per frame, carrying that frame's payload bytes unchanged, in the order
/// the frames arrived — and nothing else.
pub proof fn lemma_input_order(m: SessionV, frames: Seq<Seq<u8>>)
    requires
        spec_wf(m),
        m.state == SessionState::Active,
        m.writable,
        forall|k: int|
            0 <= k < frames.len() ==> (#[trigger] spec_parse(frames[k])) matches Ok(
                ClientMessageV::Input(_),
            ),
    ensures
        spec_run(m, frames.map_values(|f: Seq<u8>| SessionEventV::Frame(f))).0 == m,
        spec_run(m, frames.map_values(|f: Seq<u8>| SessionEventV::Frame(f))).1
            == frames.map_values(|f: Seq<u8>| SessionActionV::WritePty(spec_input_payload(f))),
    decreases frames.len(),
{
    let evs = frames.map_values(|f: Seq<u8>| SessionEventV::Frame(f));
    let writes = frames.map_values(|f: Seq<u8>| SessionActionV::WritePty(spec_input_payload(f)));
    if frames.len() == 0 {
        assert(writes =~= spec_run(m, evs).1);
    } else {
        assert(spec_parse(frames[0]) matches Ok(ClientMessageV::Input(_)));
        let (m1, a1) = spec_step(m, evs[0]);
        assert(m1 == m);
        assert(a1 =~= seq![SessionActionV::WritePty(spec_input_payload(frames[0]))]);
        assert(evs.skip(1) =~= frames.skip(1).map_values(
            |f: Seq<u8>| SessionEventV::Frame(f),
        ));
        lemma_input_order(m, frames.skip(1));
        assert(writes =~= a1 + spec_run(m1, evs.skip(1)).1);
    }
}

/// Law: no resize is lost and none is reordered. A session whose terminal
/// exists — active or paused — fed any sequence of `Resize` frames answers
/// with exactly one resize per frame, carrying that frame's dimensions, in
/// the order the frames arrived, and its state does not change.
pub proof fn lemma_resize_order(m: SessionV, frames: Seq<Seq<u8>>)
    requires
        spec_wf(m),
        m.state == SessionState::Active || m.state == SessionState::Paused,
        forall|k: int|
            0 <= k < frames.len() ==> (#[trigger] spec_parse(frames[k])) matches Ok(
                ClientMessageV::Resize { .. },
            ),
    ensures
        spec_run(m, frames.map_values(|f: Seq<u8>| SessionEventV::Frame(f))).0 == m,
        spec_run(m, frames.map_values(|f: Seq<u8>| SessionEventV::Frame(f))).1
            == frames.map_values(|f: Seq<u8>| SessionActionV::ResizePty(spec_resize_size(f))),
    decreases frames.len(),
{
    let evs = frames.map_values(|f: Seq<u8>| SessionEventV::Frame(f));
    let resizes = frames.map_values(|f: Seq<u8>| SessionActionV::ResizePty(spec_resize_size(f)));
    if frames.len() == 0 {
        assert(resizes =~= spec_run(m, evs).1);
    } else {
        assert(spec_parse(frames[0]) matches Ok(ClientMessageV::Resize { .. }));
        let (m1, a1) = spec_step(m, evs[0]);
        assert(m1 == m);
        assert(a1 =~= seq![SessionActionV::ResizePty(spec_resize_size(frames[0]))]);
        assert(evs.skip(1) =~= frames.skip(1).map_values(
            |f: Seq<u8>| SessionEventV::Frame(f),
        ));
        lemma_resize_order(m, frames.skip(1));
        assert(resizes =~= a1 + spec_run(m, evs.skip(1)).1);
    }
}

/// While paused, terminal output is delivered nowhere and lost nowhere: it
/// is appended, in order, to what the session holds back.
pub proof fn lemma_paused_buffering(m: SessionV, outputs: Seq<Seq<u8>>)
    requires
        m.state == SessionState::Paused,
    ensures
        spec_run(m, outputs.map_values(|b: Seq<u8>| SessionEventV::PtyOutput(b))).0 == (SessionV {
            pending: m.pending + outputs,
            ..m
        }),
        spec_run(m, outputs.map_values(|b: Seq<u8>| SessionEventV::PtyOutput(b))).1
            == Seq::<SessionActionV>::empty(),
    decreases outputs.len(),
{
    let evs = outputs.map_values(|b: Seq<u8>| SessionEventV::PtyOutput(b));
    if outputs.len() == 0 {
        assert(m.pending + outputs =~= m.pending);
        assert(spec_run(m, evs).0 =~~= (SessionV { pending: m.pending + outputs, ..m }));
    } else {
        let (m1, a1) = spec_step(m, evs[0]);
        assert(m1 == (SessionV { pending: m.pending.push(outputs[0]), ..m }));
        assert(evs.skip(1) =~= outputs.skip(1).map_values(
            |b: Seq<u8>| SessionEventV::PtyOutput(b),
        ));
        lemma_paused_buffering(m1, outputs.skip(1));
        assert(m.pending.push(outputs[0]) + outputs.skip(1) =~= m.pending + outputs);
        assert(spec_run(m, evs).0 =~~= (SessionV { pending: m.pending + outputs, ..m }));
        assert(spec_run(m, evs).1 =~= Seq::<SessionActionV>::empty());
    }
}

/// Law: pausing withholds and resuming repays, with nothing dropped and
/// nothing duplicated. From an active session, a `Pause` frame, then any
/// terminal output, then a `Resume` frame deliver no output at all until the
/// resume, and the resume delivers exactly the withheld chunks, one frame
/// each, in the order the terminal produced them; the session is then as it
/// was.
/// One `Pause` frame from an active session: the session pauses and nothing
/// is emitted.
#[verifier::spinoff_prover]
proof fn lemma_pause_step(m: SessionV, pause_frame: Seq<u8>)
    requires
        m.state == SessionState::Active,
        spec_parse(pause_frame) == Ok::<ClientMessageV, crate::protocol::ProtocolError>(
            ClientMessageV::Pause,
        ),
    ensures
        spec_run(m, seq![SessionEventV::Frame(pause_frame)]).0 == (SessionV {
            state: SessionState::Paused,
            ..m
        }),
        spec_run(m, seq![SessionEventV::Frame(pause_frame)]).1 == Seq::<SessionActionV>::empty(),
{
    let evs = seq![SessionEventV::Frame(pause_frame)];
    assert(evs.len() == 1);
    assert(evs[0] == SessionEventV::Frame(pause_frame));
    assert(evs.skip(1) =~= Seq::<SessionEventV>::empty());
    let (m1, a1) = spec_step(m, evs[0]);
    assert(m1 == (SessionV { state: SessionState::Paused, ..m }));
    assert(a1 == Seq::<SessionActionV>::empty());
    assert(spec_run(m1, evs.skip(1)) == (m1, Seq::<SessionActionV>::empty()));
    assert(spec_run(m, evs).0 == m1);
    assert(spec_run(m, evs).1 =~= Seq::<SessionActionV>::empty());
}

/// One `Resume` frame from a paused session: the session is active again,
/// holds nothing back, and everything held is delivered in order.
#[verifier::spinoff_prover]
proof fn lemma_resume_step(m: SessionV, resume_frame: Seq<u8>)
    requires
        m.state == SessionState::Paused,
        spec_parse(resume_frame) == Ok::<ClientMessageV, crate::protocol::ProtocolError>(
            ClientMessageV::Resume,
        ),
    ensures
        spec_run(m, seq![SessionEventV::Frame(resume_frame)]).0 == (SessionV {
            state: SessionState::Active,
            pending: Seq::empty(),
            ..m
        }),
        spec_run(m, seq![SessionEventV::Frame(resume_frame)]).1 == spec_flush_actions(m.pending),
{
    let evs = seq![SessionEventV::Frame(resume_frame)];
    assert(evs.len() == 1);
    assert(evs[0] == SessionEventV::Frame(resume_frame));
    assert(evs.skip(1) =~= Seq::<SessionEventV>::empty());
    let (m1, a1) = spec_step(m, evs[0]);
    assert(m1 == (SessionV { state: SessionState::Active, pending: Seq::empty(), ..m }));
    assert(a1 == spec_flush_actions(m.pending));
    assert(spec_run(m1, evs.skip(1)) == (m1, Seq::<SessionActionV>::empty()));
    assert(spec_run(m, evs).0 == m1);
    assert(spec_run(m, evs).1 =~= spec_flush_actions(m.pending));
}

/// Law: pausing withholds and resuming repays, with nothing dropped and
/// nothing duplicated. From an active session, a `Pause` frame, then any
/// terminal output, then a `Resume` frame deliver no output at all until the
/// resume, and the resume delivers exactly the withheld chunks, one frame
/// each, in the order the terminal produced them; the session is then as it
/// was.
#[verifier::spinoff_prover]
#[verifier::rlimit(100)]
pub proof fn lemma_pause_resume_delivers_all(
    m: SessionV,
    pause_frame: Seq<u8>,
    outputs: Seq<Seq<u8>>,
    resume_frame: Seq<u8>,
)
    requires
        spec_wf(m),
        m.state == SessionState::Active,
        spec_parse(pause_frame) == Ok::<ClientMessageV, crate::protocol::ProtocolError>(
            ClientMessageV::Pause,
        ),
        spec_parse(resume_frame) == Ok::<ClientMessageV, crate::protocol::ProtocolError>(
            ClientMessageV::Resume,
        ),
    ensures
        spec_run(
            m,
            seq![SessionEventV::Frame(pause_frame)] + outputs.map_values(
                |b: Seq<u8>| SessionEventV::PtyOutput(b),
            ),
        ).1 == Seq::<SessionActionV>::empty(),
        spec_run(
            m,
            seq![SessionEventV::Frame(pause_frame)] + outputs.map_values(
                |b: Seq<u8>| SessionEventV::PtyOutput(b),
            ) + seq![SessionEventV::Frame(resume_frame)],
        ).1 == spec_flush_actions(outputs),
        spec_run(
            m,
            seq![SessionEventV::Frame(pause_frame)] + outputs.map_values(
                |b: Seq<u8>| SessionEventV::PtyOutput(b),
            ) + seq![SessionEventV::Frame(resume_frame)],
        ).0 == m,
{
    let pause_evs = seq![SessionEventV::Frame(pause_frame)];
    let out_evs = outputs.map_values(|b: Seq<u8>| SessionEventV::PtyOutput(b));
    let resume_evs = seq![SessionEventV::Frame(resume_frame)];
    let paused = SessionV { state: SessionState::Paused, ..m };
    lemma_pause_step(m, pause_frame);
    lemma_run_append(m, pause_evs, out_evs);
    lemma_paused_buffering(paused, outputs);
    let held = SessionV { pending: paused.pending + outputs, ..paused };
    assert(spec_run(m, pause_evs + out_evs).0 == held);
    assert(spec_run(m, pause_evs + out_evs).1 =~= Seq::<SessionActionV>::empty());
    lemma_run_append(m, pause_evs + out_evs, resume_evs);
    lemma_resume_step(held, resume_frame);
    assert(held.pending =~= outputs);
    assert(spec_flush_actions(held.pending) =~= spec_flush_actions(outputs));
    assert(spec_run(held, resume_evs).0 =~~= m);
    assert(spec_run(m, pause_evs + out_evs).1 + spec_run(held, resume_evs).1 =~= spec_flush_actions(
        outputs,
    ));
}

/// Whether a session state is one in which no terminal can exist.
pub open spec fn spec_no_pty_state(st: SessionState) -> bool {
    st == SessionState::Connecting || st == SessionState::AwaitingInit || st
        == SessionState::Closing || st == SessionState::Closed
}

/// Whether an event is a frame carrying an `Init` whose token satisfies the
/// credential.
pub open spec fn spec_event_carries_valid_init(
    credential: Option<Seq<char>>,
    ev: SessionEventV,
) -> bool {
    match ev {
        SessionEventV::Frame(f) => match spec_parse(f) {
            Ok(ClientMessageV::Init(init)) => spec_auth_ok(credential, init.auth_token),
            _ => false,
        },
        _ => false,
    }
}

/// A session that has no terminal and sees no `Init` passing the credential
/// check never asks for a spawn and never gains a terminal, whatever else
/// arrives. (A spawn outcome is excluded from the events because the glue
/// reports one only after a spawn was asked for.)
pub proof fn lemma_no_valid_init_no_spawn(m: SessionV, evs: Seq<SessionEventV>)
    requires
        spec_no_pty_state(m.state),
        !m.has_pty,
        forall|k: int|
            0 <= k < evs.len() ==> !((#[trigger] evs[k]) is SpawnOk)
                && !spec_event_carries_valid_init(m.credential, evs[k]),
    ensures
        spec_no_pty_state(spec_run(m, evs).0.state),
        !spec_run(m, evs).0.has_pty,
        spec_run(m, evs).0.credential == m.credential,
        forall|k: int|
            0 <= k < spec_run(m, evs).1.len() ==> !((#[trigger] spec_run(m, evs).1[k]) is SpawnPty),
    decreases evs.len(),
{
    if evs.len() != 0 {
        let (m1, a1) = spec_step(m, evs[0]);
        assert(!(evs[0] is SpawnOk) && !spec_event_carries_valid_init(m.credential, evs[0]));
        assert(spec_no_pty_state(m1.state) && !m1.has_pty && m1.credential == m.credential
            && forall|k: int| 0 <= k < a1.len() ==> !((#[trigger] a1[k]) is SpawnPty));
        assert(forall|k: int|
            0 <= k < evs.skip(1).len() ==> !((#[trigger] evs.skip(1)[k]) is SpawnOk)
                && !spec_event_carries_valid_init(m1.credential, evs.skip(1)[k]));
        lemma_no_valid_init_no_spawn(m1, evs.skip(1));
        assert(forall|k: int|
            0 <= k < spec_run(m, evs).1.len() ==> !((#[trigger] spec_run(m, evs).1[k])
                is SpawnPty)) by {
            let a2 = spec_run(m1, evs.skip(1)).1;
            assert(spec_run(m, evs).1 =~= a1 + a2);
            assert(forall|k: int|
                0 <= k < (a1 + a2).len() ==> !((#[trigger] (a1 + a2)[k]) is SpawnPty));
        }
    }
}

/// Law: a wrong or missing credential never spawns. A credential-configured
/// session awaiting `Init` that only ever sees `Init` frames whose token is
/// wrong or missing never asks for a spawn and never gains a terminal.
pub proof fn lemma_wrong_token_never_spawns(m: SessionV, evs: Seq<SessionEventV>)
    requires
        m.state == SessionState::AwaitingInit,
        !m.has_pty,
        m.credential is Some,
        forall|k: int| 0 <= k < evs.len() ==> !((#[trigger] evs[k]) is SpawnOk),
        forall|k: int|
            0 <= k < evs.len() ==> match #[trigger] evs[k] {
                SessionEventV::Frame(f) => match spec_parse(f) {
                    Ok(ClientMessageV::Init(init)) => init.auth_token != m.credential,
                    _ => true,
                },
                _ => true,
            },
    ensures
        forall|k: int|
            0 <= k < spec_run(m, evs).1.len() ==> !((#[trigger] spec_run(m, evs).1[k]) is SpawnPty),
        !spec_run(m, evs).0.has_pty,
{
    assert(forall|k: int|
        0 <= k < evs.len() ==> !spec_event_carries_valid_init(m.credential, #[trigger] evs[k]));
    lemma_no_valid_init_no_spawn(m, evs);
}

/// Law: tearing down a session that never received `Init` kills nothing.
/// With no `Init` frame among the events at all, the session never gains a
/// terminal, and its teardown asks for no kill.
pub proof fn lemma_never_init_no_kill(m: SessionV, evs: Seq<SessionEventV>)
    requires
        m.state == SessionState::Connecting || m.state == SessionState::AwaitingInit,
        !m.has_pty,
        forall|k: int| 0 <= k < evs.len() ==> !((#[trigger] evs[k]) is SpawnOk),
        forall|k: int|
            0 <= k < evs.len() ==> match #[trigger] evs[k] {
                SessionEventV::Frame(f) => !(spec_parse(f) matches Ok(ClientMessageV::Init(_))),
                _ => true,
            },
    ensures
        !spec_run(m, evs).0.has_pty,
        spec_finish(spec_run(m, evs).0).1 == Seq::<SessionActionV>::empty(),
{
    assert(forall|k: int|
        0 <= k < evs.len() ==> !spec_event_carries_valid_init(m.credential, #[trigger] evs[k]));
    lemma_no_valid_init_no_spawn(m, evs);
}

/// Law: a requested size of zero defaults. An accepted `Init` spawns the
/// effective size, so zero columns become 80 and zero rows become 24; with
/// both zero the terminal is spawned at 80 by 24.
pub proof fn lemma_init_zero_defaults(m: SessionV, f: Seq<u8>, init: crate::protocol::InitMessageV)
    requires
        m.state == SessionState::AwaitingInit,
        spec_parse(f) == Ok::<ClientMessageV, crate::protocol::ProtocolError>(
            ClientMessageV::Init(init),
        ),
        spec_auth_ok(m.credential, init.auth_token),
    ensures
        spec_step(m, SessionEventV::Frame(f)).1 == seq![
            SessionActionV::SpawnPty(spec_effective_size(init.columns, init.rows)),
        ],
        init.columns == 0 ==> spec_effective_size(init.columns, init.rows).cols == 80,
        init.rows == 0 ==> spec_effective_size(init.columns, init.rows).rows == 24,
        init.columns == 0 && init.rows == 0 ==> spec_effective_size(init.columns, init.rows) == (
        PtySize { cols: 80, rows: 24 }),
{
}


} // verus!
