//! The messages that the CLI and the TUI exchange with the daemon.
use vstd::prelude::*;
use crate::config::opt_view;

verus! {

/// What a client asks of the daemon.
pub enum Request {
    Ping,
    Start { name: String },
    Stop { name: String },
    StopAll,
    Reload,
    TuiExit,
    Status,
}

/// The lifecycle state of one connection, as the daemon reports it.
#[derive(Clone, Copy, Debug, PartialEq, Eq, Structural)]
pub enum ConnectionState {
    Starting,
    Running,
    Stopping,
    Stopped,
    Failed,
}

/// One connection's state as plain values.
pub struct StatusView {
    pub name: Seq<char>,
    pub target: Seq<char>,
    pub keep_on_exit: bool,
    pub state: ConnectionState,
    pub pid: Option<u32>,
    pub started_at: Option<u64>,
    pub last_error: Option<Seq<char>>,
}

pub struct ConnectionStatus {
    pub name: String,
    pub target: String,
    pub keep_on_exit: bool,
    pub state: ConnectionState,
    pub pid: Option<u32>,
    pub started_at: Option<u64>,
    pub last_error: Option<String>,
}

impl View for ConnectionStatus {
    type V = StatusView;

    open spec fn view(&self) -> StatusView {
        StatusView {
            name: self.name@,
            target: self.target@,
            keep_on_exit: self.keep_on_exit,
            state: self.state,
            pid: self.pid,
            started_at: self.started_at,
            last_error: opt_view(self.last_error),
        }
    }
}

pub open spec fn statuses_view(v: Seq<ConnectionStatus>) -> Seq<StatusView> {
    v.map_values(|s: ConnectionStatus| s@)
}

/// The daemon's answer as plain values.
pub struct ResponseView {
    pub ok: bool,
    pub message: Seq<char>,
    pub statuses: Seq<StatusView>,
}

/// The daemon's answer: success or failure, a message, and the state of
/// every connection when the request succeeded.
pub struct Response {
    pub ok: bool,
    pub message: String,
    pub statuses: Vec<ConnectionStatus>,
}

impl View for Response {
    type V = ResponseView;

    open spec fn view(&self) -> ResponseView {
        ResponseView { ok: self.ok, message: self.message@, statuses: statuses_view(self.statuses@) }
    }
}

impl Response {
    pub fn ok(message: String, statuses: Vec<ConnectionStatus>) -> (r: Response)
        ensures
            r.ok,
            r.message == message,
            r.statuses == statuses,
            r@ == (ResponseView { ok: true, message: message@, statuses: statuses_view(statuses@) }),
    {
        Response { ok: true, message, statuses }
    }

    pub fn error(message: String) -> (r: Response)
        ensures
            !r.ok,
            r.message == message,
            r.statuses@.len() == 0,
            r@ == (ResponseView { ok: false, message: message@, statuses: Seq::empty() }),
    {
        let r = Response { ok: false, message, statuses: Vec::new() };
        assert(statuses_view(r.statuses@) =~= Seq::<StatusView>::empty());
        r
    }
}

} // verus!
