//! The TUI's own session manager: the configured connections, the state of
//! each one's SSM session, and how starts, stops and process exits change
//! it.  The processes themselves stay with the caller, which performs the
//! actions that these functions decide.
use vstd::prelude::*;
use vstd::string::*;
use crate::config::{
    config_fault, copy_opt, fault_message, joined, joined3, opt_view, texts_view, Config,
    ConfigFault, ConnectionConfig, ConnectionView,
};
use crate::daemon::config_index;
use crate::keyed::{
    ascending, entries_view, keyed_find, keyed_put, lemma_ascending_unique, lemma_lookup_index,
    lemma_lookup_same_keys,
    lemma_modify_at, lemma_modify_missing, lookup, lookup_miss, modify, Entry,
};
use crate::text::{signed_decimal, signed_decimal_text, text_lt};

verus! {

/// The lifecycle state of a session.
#[derive(Clone, Copy, Debug, PartialEq, Eq, Structural)]
pub enum ConnectionState {
    Running,
    Stopping,
    Stopped,
    Failed,
}

pub struct SessionStatusView {
    pub name: Seq<char>,
    pub target: Seq<char>,
    pub document_name: Option<Seq<char>>,
    pub state: ConnectionState,
    pub pid: Option<u32>,
    pub started_at: Option<u64>,
    pub last_error: Option<Seq<char>>,
}

/// What the TUI shows of one connection.
pub struct ConnectionStatus {
    pub name: String,
    pub target: String,
    pub document_name: Option<String>,
    pub state: ConnectionState,
    pub pid: Option<u32>,
    pub started_at: Option<u64>,
    pub last_error: Option<String>,
}

impl View for ConnectionStatus {
    type V = SessionStatusView;

    open spec fn view(&self) -> SessionStatusView {
        SessionStatusView {
            name: self.name@,
            target: self.target@,
            document_name: opt_view(self.document_name),
            state: self.state,
            pid: self.pid,
            started_at: self.started_at,
            last_error: opt_view(self.last_error),
        }
    }
}

pub open spec fn session_statuses_view(v: Seq<ConnectionStatus>) -> Seq<SessionStatusView> {
    v.map_values(|s: ConnectionStatus| s@)
}

pub fn copy_session_status(s: &ConnectionStatus) -> (r: ConnectionStatus)
    ensures
        r@ == s@,
{
    ConnectionStatus {
        name: s.name.clone(),
        target: s.target.clone(),
        document_name: copy_opt(&s.document_name),
        state: s.state,
        pid: s.pid,
        started_at: s.started_at,
        last_error: copy_opt(&s.last_error),
    }
}

/// A connection as the manager keeps it, as plain values.
pub struct SessionView {
    pub config: ConnectionView,
    /// A process of the session is held (and not yet seen to exit).
    pub has_process: bool,
    pub status: SessionStatusView,
}

pub struct ManagedSession {
    pub config: ConnectionConfig,
    pub has_process: bool,
    pub status: ConnectionStatus,
}

impl Entry for ManagedSession {
    type V = SessionView;

    open spec fn key_view(&self) -> Seq<char> {
        self.config.name@
    }

    open spec fn value_view(&self) -> SessionView {
        SessionView { config: self.config@, has_process: self.has_process, status: self.status@ }
    }

    fn key(&self) -> (r: &str) {
        self.config.name.as_str()
    }
}

pub type SessionsView = Seq<(Seq<char>, SessionView)>;

pub open spec fn fresh_session(c: ConnectionView) -> SessionView {
    SessionView {
        config: c,
        has_process: false,
        status: SessionStatusView {
            name: c.name,
            target: c.target,
            document_name: c.document_name,
            state: ConnectionState::Stopped,
            pid: None,
            started_at: None,
            last_error: None,
        },
    }
}

/// The sessions that `new` sets up: one stopped session per name.
pub open spec fn initial_sessions(conns: Seq<ConnectionView>) -> SessionsView {
    config_index(conns).map_values(|e: (Seq<char>, ConnectionView)| (e.0, fresh_session(e.1)))
}

pub open spec fn session_status_list(s: SessionsView) -> Seq<SessionStatusView> {
    s.map_values(|e: (Seq<char>, SessionView)| e.1.status)
}

/// Every entry carries its key as the name of its definition and state,
/// and its state shows the target and document of its definition.
pub open spec fn session_names_agree(s: SessionsView) -> bool {
    forall|i: int|
        0 <= i < s.len() ==> {
            &&& (#[trigger] s[i]).1.config.name == s[i].0
            &&& s[i].1.status.name == s[i].0
            &&& s[i].1.status.target == s[i].1.config.target
            &&& s[i].1.status.document_name == s[i].1.config.document_name
        }
}

pub open spec fn session_active(state: ConnectionState) -> bool {
    state == ConnectionState::Running || state == ConnectionState::Stopping
}

/// Why the session manager refuses a request.  `T` is the text type.
#[derive(Debug)]
pub enum SessionFault<T> {
    InvalidConfig(ConfigFault<T>),
    RemoveActive(T),
    EditActive(T),
    UnknownConnection(T),
    AlreadyActive(T),
    SpawnFailed(T),
    NotRunning(T),
    KillFailed,
}

pub type SessionError = SessionFault<String>;

impl View for SessionFault<String> {
    type V = SessionFault<Seq<char>>;

    open spec fn view(&self) -> SessionFault<Seq<char>> {
        match self {
            SessionFault::InvalidConfig(f) => SessionFault::InvalidConfig(f@),
            SessionFault::RemoveActive(t) => SessionFault::RemoveActive(t@),
            SessionFault::EditActive(t) => SessionFault::EditActive(t@),
            SessionFault::UnknownConnection(t) => SessionFault::UnknownConnection(t@),
            SessionFault::AlreadyActive(t) => SessionFault::AlreadyActive(t@),
            SessionFault::SpawnFailed(t) => SessionFault::SpawnFailed(t@),
            SessionFault::NotRunning(t) => SessionFault::NotRunning(t@),
            SessionFault::KillFailed => SessionFault::KillFailed,
        }
    }
}

pub open spec fn session_message(f: SessionFault<Seq<char>>) -> Seq<char> {
    match f {
        SessionFault::InvalidConfig(c) => fault_message(c),
        SessionFault::RemoveActive(n) => "cannot remove active connection "@ + n
            + "; stop it first"@,
        SessionFault::EditActive(n) => "cannot edit active connection "@ + n + "; stop it first"@,
        SessionFault::UnknownConnection(n) => "unknown connection: "@ + n,
        SessionFault::AlreadyActive(n) => "connection "@ + n + " is already active"@,
        SessionFault::SpawnFailed(n) => "starting AWS session for "@ + n,
        SessionFault::NotRunning(n) => "connection "@ + n + " is not running"@,
        SessionFault::KillFailed => "stopping AWS session"@,
    }
}

impl SessionFault<String> {
    pub fn message(&self) -> (r: String)
        ensures
            r@ == session_message(self@),
    {
        match self {
            SessionFault::InvalidConfig(c) => c.message(),
            SessionFault::RemoveActive(n) => joined3(
                "cannot remove active connection ",
                n.as_str(),
                "; stop it first",
            ),
            SessionFault::EditActive(n) => joined3(
                "cannot edit active connection ",
                n.as_str(),
                "; stop it first",
            ),
            SessionFault::UnknownConnection(n) => joined("unknown connection: ", n.as_str()),
            SessionFault::AlreadyActive(n) => joined3("connection ", n.as_str(), " is already active"),
            SessionFault::SpawnFailed(n) => joined("starting AWS session for ", n.as_str()),
            SessionFault::NotRunning(n) => joined3("connection ", n.as_str(), " is not running"),
            SessionFault::KillFailed => String::from_str("stopping AWS session"),
        }
    }
}

/// The first active session, in name order, whose definition the new
/// configuration drops or changes, with the fault that names it.
pub open spec fn session_reload_blocker(s: SessionsView, m: Seq<(Seq<char>, ConnectionView)>) -> Option<
    SessionFault<Seq<char>>,
>
    decreases s.len(),
{
    if s.len() == 0 {
        None
    } else if session_active(s[0].1.status.state) && lookup(m, s[0].0) is None {
        Some(SessionFault::RemoveActive(s[0].0))
    } else if session_active(s[0].1.status.state) && lookup(m, s[0].0) != Some(s[0].1.config) {
        Some(SessionFault::EditActive(s[0].0))
    } else {
        session_reload_blocker(s.drop_first(), m)
    }
}

/// A session after a reload: a known name keeps its process and state,
/// with the new definition, target and document; a new name starts fresh.
pub open spec fn carried_session(previous: Option<SessionView>, c: ConnectionView) -> SessionView {
    match previous {
        Some(e) => SessionView {
            config: c,
            has_process: e.has_process,
            status: SessionStatusView {
                target: c.target,
                document_name: c.document_name,
                ..e.status
            },
        },
        None => fresh_session(c),
    }
}

pub open spec fn sessions_reloaded(s: SessionsView, m: Seq<(Seq<char>, ConnectionView)>) -> SessionsView {
    m.map_values(|e: (Seq<char>, ConnectionView)| (e.0, carried_session(lookup(s, e.0), e.1)))
}

/// What reloading the configuration `conns` gives.
pub open spec fn session_reload_outcome(s: SessionsView, conns: Seq<ConnectionView>) -> Result<
    SessionsView,
    SessionFault<Seq<char>>,
> {
    match config_fault(conns) {
        Some(f) => Err(SessionFault::InvalidConfig(f)),
        None => match session_reload_blocker(s, config_index(conns)) {
            Some(f) => Err(f),
            None => Ok(sessions_reloaded(s, config_index(conns))),
        },
    }
}

/// The answer to `start`: refused, or the definition to launch.
pub open spec fn session_start_decision(s: SessionsView, name: Seq<char>) -> Result<
    ConnectionView,
    SessionFault<Seq<char>>,
> {
    match lookup(s, name) {
        None => Err(SessionFault::UnknownConnection(name)),
        Some(e) => if session_active(e.status.state) {
            Err(SessionFault::AlreadyActive(name))
        } else {
            Ok(e.config)
        },
    }
}

/// A session just launched with process `pid` at `now`.
pub open spec fn session_started(e: SessionView, pid: Option<u32>, now: u64) -> SessionView {
    SessionView {
        config: e.config,
        has_process: true,
        status: SessionStatusView {
            state: ConnectionState::Running,
            pid: pid,
            started_at: Some(now),
            last_error: None,
            ..e.status
        },
    }
}

/// What `stop` does next for a session that may be stopped.
#[derive(Clone, Copy, Debug, PartialEq, Eq, Structural)]
pub enum StopStep {
    /// No process is held: the session is now stopped.
    Stopped,
    /// The process must be killed; then `mark_stopping` records it.
    Kill,
}

pub open spec fn session_with_state(e: SessionView, state: ConnectionState) -> SessionView {
    SessionView { status: SessionStatusView { state: state, ..e.status }, ..e }
}

/// What `stop` decides: refused, or the next step.
pub open spec fn session_stop_decision(s: SessionsView, name: Seq<char>) -> Result<
    StopStep,
    SessionFault<Seq<char>>,
> {
    match lookup(s, name) {
        None => Err(SessionFault::UnknownConnection(name)),
        Some(e) => if !session_active(e.status.state) {
            Err(SessionFault::NotRunning(name))
        } else if e.has_process {
            Ok(StopStep::Kill)
        } else {
            Ok(StopStep::Stopped)
        },
    }
}

/// What waiting on a session's process found.
pub enum WaitOutcome {
    /// Still running.
    Running,
    /// The process ended; `code` is its exit code (none when a signal
    /// ended it).
    Exited { success: bool, code: Option<i32> },
    /// Waiting failed with this error.
    Error(String),
}

pub enum WaitView {
    Running,
    Exited { success: bool, code: Option<i32> },
    Error(Seq<char>),
}

impl View for WaitOutcome {
    type V = WaitView;

    open spec fn view(&self) -> WaitView {
        match self {
            WaitOutcome::Running => WaitView::Running,
            WaitOutcome::Exited { success, code } => WaitView::Exited {
                success: *success,
                code: *code,
            },
            WaitOutcome::Error(e) => WaitView::Error(e@),
        }
    }
}

/// The error recorded when a session's process exits: none when it was
/// asked to stop or succeeded.
pub open spec fn exit_error(success: bool, code: Option<i32>, was_stopping: bool) -> Option<Seq<char>> {
    if was_stopping || success {
        None
    } else {
        match code {
            Some(c) => Some("AWS session exited with code "@ + signed_decimal(c as int)),
            None => Some("AWS session terminated by signal"@),
        }
    }
}

/// A session after its process was polled.
pub open spec fn after_wait(e: SessionView, w: WaitView) -> SessionView {
    if !e.has_process {
        e
    } else {
        match w {
            WaitView::Running => e,
            WaitView::Error(msg) => SessionView {
                config: e.config,
                has_process: false,
                status: SessionStatusView {
                    state: ConnectionState::Failed,
                    last_error: Some(msg),
                    pid: None,
                    ..e.status
                },
            },
            WaitView::Exited { success, code } => {
                let was_stopping = e.status.state == ConnectionState::Stopping;
                SessionView {
                    config: e.config,
                    has_process: false,
                    status: SessionStatusView {
                        state: if was_stopping || success {
                            ConnectionState::Stopped
                        } else {
                            ConnectionState::Failed
                        },
                        pid: None,
                        last_error: exit_error(success, code, was_stopping),
                        ..e.status
                    },
                }
            },
        }
    }
}

pub struct SessionManager {
    entries: Vec<ManagedSession>,
}

impl View for SessionManager {
    type V = SessionsView;

    closed spec fn view(&self) -> SessionsView {
        entries_view(self.entries@)
    }
}

fn fresh_managed(c: ConnectionConfig) -> (r: ManagedSession)
    ensures
        r.value_view() == fresh_session(c@),
        r.key_view() == c@.name,
{
    let status = ConnectionStatus {
        name: c.name.clone(),
        target: c.target.clone(),
        document_name: copy_opt(&c.document_name),
        state: ConnectionState::Stopped,
        pid: None,
        started_at: None,
        last_error: None,
    };
    ManagedSession { config: c, has_process: false, status }
}

/// Replaces entry `i`'s process flag and state.
fn set_session(v: &mut Vec<ManagedSession>, i: usize, has_process: bool, status: ConnectionStatus)
    requires
        i < old(v).len(),
    ensures
        entries_view(final(v)@) == entries_view(old(v)@).update(
            i as int,
            (
                entries_view(old(v)@)[i as int].0,
                SessionView {
                    config: entries_view(old(v)@)[i as int].1.config,
                    has_process: has_process,
                    status: status@,
                },
            ),
        ),
{
    let ghost s = entries_view(v@);
    let mut m = v.remove(i);
    m.status = status;
    m.has_process = has_process;
    v.insert(i, m);
    assert(entries_view(v@) =~= s.update(
        i as int,
        (
            s[i as int].0,
            SessionView { config: s[i as int].1.config, has_process: has_process, status: status@ },
        ),
    ));
}

/// Clears entry `i`'s process flag.
fn release_process(v: &mut Vec<ManagedSession>, i: usize)
    requires
        i < old(v).len(),
    ensures
        entries_view(final(v)@) == entries_view(old(v)@).update(
            i as int,
            unheld(entries_view(old(v)@)[i as int]),
        ),
{
    let ghost s = entries_view(v@);
    let ghost e = v@[i as int];
    assert(s[i as int] == (e.key_view(), e.value_view()));
    let mut m = v.remove(i);
    m.has_process = false;
    v.insert(i, m);
    assert(entries_view(v@) =~= s.update(i as int, unheld(s[i as int])));
}

fn index_connection_configs(config: &Config) -> (r: Vec<ConnectionConfig>)
    ensures
        entries_view(r@) == config_index(config@),
        ascending(entries_view(r@)),
{
    let mut m: Vec<ConnectionConfig> = Vec::new();
    let mut i: usize = 0;
    assert(entries_view(m@) =~= Seq::<(Seq<char>, ConnectionView)>::empty());
    assert(config@.take(0) =~= Seq::<ConnectionView>::empty());
    while i < config.connections.len()
        invariant
            i <= config.connections.len(),
            entries_view(m@) == config_index(config@.take(i as int)),
            ascending(entries_view(m@)),
        decreases config.connections.len() - i,
    {
        let c = config.connections[i].copy();
        assert(config@.take(i + 1).drop_last() =~= config@.take(i as int));
        assert(config@.take(i + 1).last() == config@[i as int]);
        assert(config@[i as int] == config.connections@[i as int]@);
        keyed_put(&mut m, c);
        i = i + 1;
    }
    assert(config@.take(i as int) =~= config@);
    m
}

impl SessionManager {
    #[verifier::type_invariant]
    spec fn well_kept(self) -> bool {
        ascending(self@) && session_names_agree(self@)
    }

    /// The manager is well kept: names ascend, and each state belongs to
    /// the definition listed beside it.
    pub fn check(&self)
        ensures
            ascending(self@),
            session_names_agree(self@),
    {
        proof {
            use_type_invariant(self);
        }
    }

    /// One stopped session per configured name.
    pub fn new(config: &Config) -> (r: SessionManager)
        ensures
            r@ == initial_sessions(config@),
    {
        let m = index_connection_configs(config);
        let ghost ci = entries_view(m@);
        let mut entries: Vec<ManagedSession> = Vec::new();
        let mut i: usize = 0;
        while i < m.len()
            invariant
                ci == entries_view(m@),
                ascending(ci),
                ci == config_index(config@),
                i <= m.len(),
                entries.len() == i,
                entries_view(entries@) == initial_sessions(config@).take(i as int),
                session_names_agree(entries_view(entries@)),
            decreases m.len() - i,
        {
            let e = fresh_managed(m[i].copy());
            assert(ci[i as int] == (m@[i as int].key_view(), m@[i as int].value_view()));
            let ghost before = entries@;
            entries.push(e);
            assert(entries@ == before.push(e));
            assert(entries_view(entries@) =~= initial_sessions(config@).take(i + 1));
            i = i + 1;
        }
        assert(initial_sessions(config@).take(i as int) =~= initial_sessions(config@));
        let r = SessionManager { entries };
        assert(ascending(r@)) by {
            assert forall|a: int, b: int| 0 <= a < b < r@.len() implies text_lt(
                #[trigger] r@[a].0,
                #[trigger] r@[b].0,
            ) by {
                assert(r@[a].0 == ci[a].0 && r@[b].0 == ci[b].0);
            }
        }
        r
    }

    /// What the TUI shows of every session, in name order.
    pub fn statuses(&self) -> (r: Vec<ConnectionStatus>)
        ensures
            session_statuses_view(r@) == session_status_list(self@),
    {
        let mut r: Vec<ConnectionStatus> = Vec::new();
        let mut i: usize = 0;
        while i < self.entries.len()
            invariant
                i <= self.entries.len(),
                r.len() == i,
                session_statuses_view(r@) == session_status_list(self@).take(i as int),
            decreases self.entries.len() - i,
        {
            let st = copy_session_status(&self.entries[i].status);
            let ghost before = r@;
            r.push(st);
            assert(r@ == before.push(st));
            assert(session_statuses_view(r@) =~= session_status_list(self@).take(i + 1));
            i = i + 1;
        }
        assert(session_status_list(self@).take(i as int) =~= session_status_list(self@));
        r
    }
}

impl SessionManager {
    /// Takes a new configuration.  Refused, with nothing changed, when it
    /// does not validate, or drops or changes a connection whose session is
    /// running or stopping; otherwise known names keep their sessions and
    /// new names start stopped.
    pub fn reload_config(&mut self, config: &Config) -> (r: Result<(), SessionError>)
        ensures
            session_reload_outcome(old(self)@, config@) matches Ok(v) ==> (r is Ok && final(self)@
                == v),
            session_reload_outcome(old(self)@, config@) matches Err(f) ==> (r matches Err(e) && e@
                == f && final(self)@ == old(self)@),
    {
        proof {
            use_type_invariant(&*self);
        }
        let ghost s = self@;
        match config.validate() {
            Err(e) => {
                return Err(SessionFault::InvalidConfig(e));
            },
            Ok(()) => {},
        }
        let m = index_connection_configs(config);
        let ghost ci = entries_view(m@);
        let n = self.entries.len();
        let mut i: usize = 0;
        assert(s.skip(0) =~= s);
        while i < n
            invariant
                n == self.entries.len(),
                s == self@,
                s == old(self)@,
                ci == entries_view(m@),
                ci == config_index(config@),
                config_fault(config@) is None,
                i <= n,
                session_reload_blocker(s, ci) == session_reload_blocker(s.skip(i as int), ci),
            decreases n - i,
        {
            let e = &self.entries[i];
            let ghost t = s.skip(i as int);
            assert(t[0] == s[i as int]);
            assert(t.drop_first() =~= s.skip(i + 1));
            let active = match e.status.state {
                ConnectionState::Running | ConnectionState::Stopping => true,
                _ => false,
            };
            if active {
                match keyed_find(&m, e.config.name.as_str()) {
                    None => {
                        return Err(SessionFault::RemoveActive(e.config.name.clone()));
                    },
                    Some(j) => {
                        if !e.config.same_as(&m[j]) {
                            return Err(SessionFault::EditActive(e.config.name.clone()));
                        }
                    },
                }
            }
            i = i + 1;
        }
        assert(s.skip(n as int) =~= Seq::<(Seq<char>, SessionView)>::empty());
        let mut entries: Vec<ManagedSession> = Vec::new();
        let mut j: usize = 0;
        while j < m.len()
            invariant
                s == self@,
                ascending(s),
                session_names_agree(s),
                ci == entries_view(m@),
                ascending(ci),
                j <= m.len(),
                entries.len() == j,
                entries_view(entries@) == sessions_reloaded(s, ci).take(j as int),
                session_names_agree(entries_view(entries@)),
            decreases m.len() - j,
        {
            let c = m[j].copy();
            assert(ci[j as int] == (c@.name, c@));
            let entry = match keyed_find(&self.entries, c.name.as_str()) {
                Some(k) => {
                    let mut st = copy_session_status(&self.entries[k].status);
                    st.target = c.target.clone();
                    st.document_name = copy_opt(&c.document_name);
                    assert(s[k as int].1.status.name == s[k as int].0);
                    ManagedSession { config: c, has_process: self.entries[k].has_process, status: st }
                },
                None => fresh_managed(c),
            };
            let ghost before = entries@;
            entries.push(entry);
            assert(entries@ == before.push(entry));
            assert(entries_view(entries@) =~= sessions_reloaded(s, ci).take(j + 1));
            j = j + 1;
        }
        assert(sessions_reloaded(s, ci).take(j as int) =~= sessions_reloaded(s, ci));
        proof {
            assert forall|a: int, b: int|
                0 <= a < b < entries_view(entries@).len() implies text_lt(
                #[trigger] entries_view(entries@)[a].0,
                #[trigger] entries_view(entries@)[b].0,
            ) by {
                assert(entries_view(entries@)[a].0 == ci[a].0);
                assert(entries_view(entries@)[b].0 == ci[b].0);
            }
        }
        self.entries = entries;
        Ok(())
    }

    /// Decides a start: the definition to launch, unless the name is
    /// unknown or its session is running or stopping.  Nothing changes
    /// until the launch is recorded with `record_started`.
    pub fn start(&self, name: &str) -> (r: Result<ConnectionConfig, SessionError>)
        ensures
            session_start_decision(self@, name@) matches Ok(c) ==> (r matches Ok(d) && d@ == c),
            session_start_decision(self@, name@) matches Err(f) ==> (r matches Err(e) && e@ == f),
    {
        match keyed_find(&self.entries, name) {
            None => Err(SessionFault::UnknownConnection(String::from_str(name))),
            Some(i) => {
                let m = &self.entries[i];
                match m.status.state {
                    ConnectionState::Running | ConnectionState::Stopping => Err(
                        SessionFault::AlreadyActive(String::from_str(name)),
                    ),
                    _ => Ok(m.config.copy()),
                }
            },
        }
    }

    /// Records that `name`'s session was launched with process `pid` at
    /// `now`, and that its process is now held.
    pub fn record_started(&mut self, name: &str, pid: Option<u32>, now: u64)
        ensures
            final(self)@ == modify(old(self)@, name@, |e: SessionView| session_started(e, pid, now)),
    {
        proof {
            use_type_invariant(&*self);
        }
        let ghost s = self@;
        match keyed_find(&self.entries, name) {
            None => {
                proof {
                    lemma_modify_missing(s, name@, |e: SessionView| session_started(e, pid, now));
                }
            },
            Some(i) => {
                let mut status = copy_session_status(&self.entries[i].status);
                status.state = ConnectionState::Running;
                status.pid = pid;
                status.started_at = Some(now);
                status.last_error = None;
                let mut v: Vec<ManagedSession> = Vec::new();
                std::mem::swap(&mut v, &mut self.entries);
                set_session(&mut v, i, true, status);
                proof {
                    lemma_modify_at(s, name@, |e: SessionView| session_started(e, pid, now), i as int);
                    assert(entries_view(v@) =~= modify(
                        s,
                        name@,
                        |e: SessionView| session_started(e, pid, now),
                    ));
                }
                self.entries = v;
            },
        }
    }

    /// Decides a stop.  Refused when the name is unknown or its session is
    /// neither running nor stopping.  With no process held the session is
    /// stopped at once; otherwise the caller kills the process and then
    /// records it with `mark_stopping`.
    pub fn stop(&mut self, name: &str) -> (r: Result<StopStep, SessionError>)
        ensures
            session_stop_decision(old(self)@, name@) matches Err(f) ==> (r matches Err(e) && e@
                == f),
            session_stop_decision(old(self)@, name@) matches Ok(step) ==> r == Ok::<
                StopStep,
                SessionError,
            >(step),
            r == Ok::<StopStep, SessionError>(StopStep::Stopped) ==> final(self)@ == modify(
                old(self)@,
                name@,
                |e: SessionView| session_with_state(e, ConnectionState::Stopped),
            ),
            r != Ok::<StopStep, SessionError>(StopStep::Stopped) ==> final(self)@ == old(self)@,
    {
        proof {
            use_type_invariant(&*self);
        }
        let ghost s = self@;
        match keyed_find(&self.entries, name) {
            None => Err(SessionFault::UnknownConnection(String::from_str(name))),
            Some(i) => {
                match self.entries[i].status.state {
                    ConnectionState::Running | ConnectionState::Stopping => {},
                    _ => {
                        return Err(SessionFault::NotRunning(String::from_str(name)));
                    },
                }
                if self.entries[i].has_process {
                    return Ok(StopStep::Kill);
                }
                let mut status = copy_session_status(&self.entries[i].status);
                status.state = ConnectionState::Stopped;
                let mut v: Vec<ManagedSession> = Vec::new();
                std::mem::swap(&mut v, &mut self.entries);
                set_session(&mut v, i, false, status);
                proof {
                    lemma_modify_at(
                        s,
                        name@,
                        |e: SessionView| session_with_state(e, ConnectionState::Stopped),
                        i as int,
                    );
                    assert(entries_view(v@) =~= modify(
                        s,
                        name@,
                        |e: SessionView| session_with_state(e, ConnectionState::Stopped),
                    ));
                }
                self.entries = v;
                Ok(StopStep::Stopped)
            },
        }
    }

    /// Records that `name`'s process was told to stop.
    pub fn mark_stopping(&mut self, name: &str)
        ensures
            final(self)@ == modify(
                old(self)@,
                name@,
                |e: SessionView| session_with_state(e, ConnectionState::Stopping),
            ),
    {
        proof {
            use_type_invariant(&*self);
        }
        let ghost s = self@;
        match keyed_find(&self.entries, name) {
            None => {
                proof {
                    lemma_modify_missing(
                        s,
                        name@,
                        |e: SessionView| session_with_state(e, ConnectionState::Stopping),
                    );
                }
            },
            Some(i) => {
                let mut status = copy_session_status(&self.entries[i].status);
                status.state = ConnectionState::Stopping;
                let has_process = self.entries[i].has_process;
                let mut v: Vec<ManagedSession> = Vec::new();
                std::mem::swap(&mut v, &mut self.entries);
                set_session(&mut v, i, has_process, status);
                proof {
                    lemma_modify_at(
                        s,
                        name@,
                        |e: SessionView| session_with_state(e, ConnectionState::Stopping),
                        i as int,
                    );
                    assert(entries_view(v@) =~= modify(
                        s,
                        name@,
                        |e: SessionView| session_with_state(e, ConnectionState::Stopping),
                    ));
                }
                self.entries = v;
            },
        }
    }

    /// Records what polling `name`'s process found: an ended process
    /// leaves the session stopped (when it was stopping or succeeded) or
    /// failed; a failed wait leaves it failed with the error.
    pub fn record_wait(&mut self, name: &str, outcome: &WaitOutcome)
        ensures
            final(self)@ == modify(old(self)@, name@, |e: SessionView| after_wait(e, outcome@)),
    {
        proof {
            use_type_invariant(&*self);
        }
        let ghost s = self@;
        let ghost f = |e: SessionView| after_wait(e, outcome@);
        match keyed_find(&self.entries, name) {
            None => {
                proof {
                    lemma_modify_missing(s, name@, f);
                }
            },
            Some(i) => {
                proof {
                    lemma_modify_at(s, name@, f, i as int);
                }
                if !self.entries[i].has_process {
                    assert(modify(s, name@, f) =~= s);
                    return;
                }
                let mut status = copy_session_status(&self.entries[i].status);
                match outcome {
                    WaitOutcome::Running => {
                        assert(modify(s, name@, f) =~= s);
                        return;
                    },
                    WaitOutcome::Error(msg) => {
                        status.state = ConnectionState::Failed;
                        status.last_error = Some(msg.clone());
                        status.pid = None;
                    },
                    WaitOutcome::Exited { success, code } => {
                        let was_stopping = match status.state {
                            ConnectionState::Stopping => true,
                            _ => false,
                        };
                        status.state = if was_stopping || *success {
                            ConnectionState::Stopped
                        } else {
                            ConnectionState::Failed
                        };
                        status.pid = None;
                        status.last_error = if was_stopping || *success {
                            None
                        } else {
                            match code {
                                Some(c) => Some(
                                    joined(
                                        "AWS session exited with code ",
                                        signed_decimal_text(*c as i64).as_str(),
                                    ),
                                ),
                                None => Some(String::from_str("AWS session terminated by signal")),
                            }
                        };
                    },
                }
                let mut v: Vec<ManagedSession> = Vec::new();
                std::mem::swap(&mut v, &mut self.entries);
                set_session(&mut v, i, false, status);
                assert(entries_view(v@) =~= modify(s, name@, f));
                self.entries = v;
            },
        }
    }

    /// What the TUI does on exit: gives up the processes of the sessions not
    /// marked `keep_on_exit`, and gives their names for the caller to kill.
    /// Sessions marked `keep_on_exit` keep their processes running; the
    /// recorded states stay as they are.
    pub fn shutdown(&mut self) -> (r: Vec<String>)
        ensures
            final(self)@ == released_all(old(self)@),
            texts_view(r@) == process_names(old(self)@),
    {
        proof {
            use_type_invariant(&*self);
        }
        let ghost s = self@;
        let mut v: Vec<ManagedSession> = Vec::new();
        std::mem::swap(&mut v, &mut self.entries);
        let mut names: Vec<String> = Vec::new();
        let n = v.len();
        let mut i: usize = 0;
        assert(s.take(0) =~= Seq::<(Seq<char>, SessionView)>::empty());
        while i < n
            invariant
                n == v.len(),
                s.len() == n,
                i <= n,
                entries_view(v@) == released_all(s).take(i as int) + s.skip(i as int),
                texts_view(names@) == process_names(s.take(i as int)),
            decreases n - i,
        {
            let ghost before = entries_view(v@);
            assert(before[i as int] == s[i as int]);
            assert(s.take(i + 1).drop_last() =~= s.take(i as int));
            assert(s.take(i + 1).last() == s[i as int]);
            if !v[i].config.keep_on_exit {
                if v[i].has_process {
                    let nm = v[i].config.name.clone();
                    let ghost nb = names@;
                    names.push(nm);
                    assert(names@ == nb.push(nm));
                    assert(texts_view(names@) =~= texts_view(nb).push(nm@));
                }
                release_process(&mut v, i);
            }
            assert(released_all(s)[i as int] == released(s[i as int]));
            assert(entries_view(v@) =~= released_all(s).take(i + 1) + s.skip(i + 1));
            i = i + 1;
        }
        assert(s.take(n as int) =~= s);
        assert(entries_view(v@) =~= released_all(s));
        proof {
            assert forall|a: int, b: int|
                0 <= a < b < entries_view(v@).len() implies text_lt(
                #[trigger] entries_view(v@)[a].0,
                #[trigger] entries_view(v@)[b].0,
            ) by {
                assert(entries_view(v@)[a].0 == s[a].0 && entries_view(v@)[b].0 == s[b].0);
            }
        }
        self.entries = v;
        names
    }
}

/// An entry whose process is given up.
pub open spec fn unheld(e: (Seq<char>, SessionView)) -> (Seq<char>, SessionView) {
    (e.0, SessionView { has_process: false, ..e.1 })
}

/// An entry as the TUI leaves it on exit: a session marked `keep_on_exit`
/// keeps its process; any other gives it up.
pub open spec fn released(e: (Seq<char>, SessionView)) -> (Seq<char>, SessionView) {
    if e.1.config.keep_on_exit {
        e
    } else {
        unheld(e)
    }
}

/// The sessions as the TUI leaves them on exit.
pub open spec fn released_all(s: SessionsView) -> SessionsView {
    s.map_values(|e: (Seq<char>, SessionView)| released(e))
}

/// A session whose process the TUI kills when it exits: it holds one and
/// is not marked `keep_on_exit`.
pub open spec fn killed_on_exit(e: SessionView) -> bool {
    e.has_process && !e.config.keep_on_exit
}

/// The names of the sessions whose processes the TUI kills on exit, in
/// name order.
pub open spec fn process_names(s: SessionsView) -> Seq<Seq<char>>
    decreases s.len(),
{
    if s.len() == 0 {
        Seq::empty()
    } else if killed_on_exit(s.last().1) {
        process_names(s.drop_last()).push(s.last().0)
    } else {
        process_names(s.drop_last())
    }
}

/// Once no session blocks a reload, each running or stopping session is
/// listed in the new configuration with its definition unchanged.
proof fn lemma_no_session_blocker(s: SessionsView, m: Seq<(Seq<char>, ConnectionView)>, i: int)
    requires
        session_reload_blocker(s, m) is None,
        0 <= i < s.len(),
        session_active(s[i].1.status.state),
    ensures
        lookup(m, s[i].0) == Some(s[i].1.config),
    decreases i,
{
    if i > 0 {
        lemma_no_session_blocker(s.drop_first(), m, i - 1);
        assert(s.drop_first()[i - 1] == s[i]);
    }
}

proof fn lemma_session_blocker_found(s: SessionsView, m: Seq<(Seq<char>, ConnectionView)>, i: int)
    requires
        0 <= i < s.len(),
        session_active(s[i].1.status.state),
        lookup(m, s[i].0) != Some(s[i].1.config),
    ensures
        session_reload_blocker(s, m) is Some,
    decreases i,
{
    if i > 0 && session_reload_blocker(s, m) is None {
        assert(s.drop_first()[i - 1] == s[i]);
        lemma_session_blocker_found(s.drop_first(), m, i - 1);
    }
}

/// Editing or removing an active connection requires stopping it first:
/// the TUI refuses a configuration that drops or changes the definition of
/// a running or stopping session, and one that it takes leaves every such
/// session as it was.
pub proof fn lemma_session_reload_spares_active(
    s: SessionsView,
    conns: Seq<ConnectionView>,
    name: Seq<char>,
)
    requires
        ascending(s),
        session_names_agree(s),
    ensures
        lookup(s, name) matches Some(e) && session_active(e.status.state) && lookup(
            config_index(conns),
            name,
        ) != Some(e.config) ==> session_reload_outcome(s, conns) is Err,
        session_reload_outcome(s, conns) matches Ok(t) ==> (lookup(s, name) matches Some(e) ==> (
        session_active(e.status.state) ==> lookup(t, name) == Some(e))),
{
    let m = config_index(conns);
    lemma_lookup_index(s, name);
    if lookup(s, name) is Some {
        let e = lookup(s, name)->0;
        let i = choose|i: int|
            0 <= i < s.len() && #[trigger] s[i].0 == name && s[i].1 == e && forall|j: int|
                0 <= j < i ==> lookup_miss(s, name, j);
        if session_active(e.status.state) {
            if lookup(m, name) != Some(e.config) {
                lemma_session_blocker_found(s, m, i);
            }
            if session_reload_outcome(s, conns) is Ok {
                lemma_no_session_blocker(s, m, i);
                let t = sessions_reloaded(s, m);
                assert forall|j: int| 0 <= j < m.len() implies #[trigger] t[j].0 == m[j].0 by {}
                lemma_lookup_same_keys(m, t, name);
                let j = choose|j: int|
                    0 <= j < m.len() && #[trigger] m[j].0 == name && lookup(m, name) == Some(m[j].1)
                        && lookup(t, name) == Some(t[j].1);
                assert(t[j].1 == carried_session(lookup(s, m[j].0), m[j].1));
            }
        }
    }
}

/// A connection whose session runs or stops is not started again.
pub proof fn lemma_no_second_session(s: SessionsView, name: Seq<char>)
    ensures
        lookup(s, name) matches Some(e) && session_active(e.status.state) ==> session_start_decision(
            s,
            name,
        ) == Err::<ConnectionView, SessionFault<Seq<char>>>(SessionFault::AlreadyActive(name)),
{
}

/// A name is among those the TUI kills on exit exactly when an entry under
/// that name holds a process and is not marked `keep_on_exit`.
proof fn lemma_process_names_contains(s: SessionsView, name: Seq<char>)
    ensures
        process_names(s).contains(name) <==> exists|i: int|
            0 <= i < s.len() && #[trigger] s[i].0 == name && killed_on_exit(s[i].1),
    decreases s.len(),
{
    if s.len() > 0 {
        let t = s.drop_last();
        lemma_process_names_contains(t, name);
        if process_names(s).contains(name) {
            if killed_on_exit(s.last().1) && name == s.last().0 {
                assert(s[s.len() - 1].0 == name);
            } else {
                if killed_on_exit(s.last().1) {
                    let k = choose|k: int|
                        0 <= k < process_names(s).len() && process_names(s)[k] == name;
                    assert(process_names(t)[k] == name);
                }
                let i = choose|i: int|
                    0 <= i < t.len() && #[trigger] t[i].0 == name && killed_on_exit(t[i].1);
                assert(s[i] == t[i]);
            }
        }
        if exists|i: int| 0 <= i < s.len() && #[trigger] s[i].0 == name && killed_on_exit(s[i].1) {
            let i = choose|i: int|
                0 <= i < s.len() && #[trigger] s[i].0 == name && killed_on_exit(s[i].1);
            if i == s.len() - 1 {
                assert(process_names(s).last() == name);
            } else {
                assert(t[i] == s[i]);
                let k = choose|k: int|
                    0 <= k < process_names(t).len() && process_names(t)[k] == name;
                if killed_on_exit(s.last().1) {
                    assert(process_names(s)[k] == name);
                } else {
                    assert(process_names(s) == process_names(t));
                }
            }
        }
    }
}

/// When the TUI exits, sessions marked `keep_on_exit` keep running: their
/// entries, process included, stay as they were, and their names are not
/// among those whose processes the TUI kills.  Every other session gives
/// up its process, and the names to kill are exactly those of the
/// temporary sessions that hold one.
pub proof fn lemma_tui_exit_keeps_background_sessions(s: SessionsView, name: Seq<char>)
    requires
        ascending(s),
    ensures
        match lookup(s, name) {
            None => lookup(released_all(s), name) is None,
            Some(e) => lookup(released_all(s), name) == Some(
                if e.config.keep_on_exit {
                    e
                } else {
                    SessionView { has_process: false, ..e }
                },
            ),
        },
        process_names(s).contains(name) <==> (lookup(s, name) matches Some(e) && e.has_process
            && !e.config.keep_on_exit),
{
    let t = released_all(s);
    assert forall|i: int| 0 <= i < s.len() implies #[trigger] t[i].0 == s[i].0 by {}
    lemma_lookup_same_keys(s, t, name);
    lemma_lookup_index(s, name);
    lemma_process_names_contains(s, name);
    if lookup(s, name) is Some {
        let i = choose|i: int|
            0 <= i < s.len() && #[trigger] s[i].0 == name && lookup(s, name) == Some(s[i].1)
                && lookup(t, name) == Some(t[i].1);
        assert forall|j: int| 0 <= j < s.len() && #[trigger] s[j].0 == name implies j == i by {
            if j != i {
                lemma_ascending_unique(s, i, j);
            }
        }
    } else {
        assert forall|j: int| 0 <= j < s.len() implies #[trigger] s[j].0 != name by {
            assert(lookup_miss(s, name, j));
        }
    }
}

/// A session that is neither running nor stopping can be started (again):
/// a stopped one and a failed one are launched with their definition;
/// running and stopping ones are refused.
pub proof fn lemma_session_start_when_idle(s: SessionsView, name: Seq<char>)
    ensures
        lookup(s, name) matches Some(e) ==> ((e.status.state == ConnectionState::Stopped
            || e.status.state == ConnectionState::Failed) ==> session_start_decision(s, name)
            == Ok::<ConnectionView, SessionFault<Seq<char>>>(e.config)),
        lookup(s, name) matches Some(e) ==> ((e.status.state == ConnectionState::Running
            || e.status.state == ConnectionState::Stopping) ==> session_start_decision(s, name)
            == Err::<ConnectionView, SessionFault<Seq<char>>>(SessionFault::AlreadyActive(name))),
        lookup(s, name) is None ==> session_start_decision(s, name) == Err::<
            ConnectionView,
            SessionFault<Seq<char>>,
        >(SessionFault::UnknownConnection(name)),
{
}

/// How polling settles a session that holds a process: while it runs
/// nothing changes; once it exits it no longer holds a process or a pid,
/// and it is stopped when it was stopping or exited successfully, failed
/// otherwise, with no error in the first case; when waiting fails it is
/// failed with that error.  Its definition, name and target stay.
pub proof fn lemma_wait_settles(e: SessionView, w: WaitView)
    requires
        e.has_process,
    ensures
        w is Running ==> after_wait(e, w) == e,
        w matches WaitView::Exited { success, code } ==> {
            &&& !after_wait(e, w).has_process
            &&& after_wait(e, w).status.pid is None
            &&& (success || e.status.state == ConnectionState::Stopping) ==> after_wait(
                e,
                w,
            ).status.state == ConnectionState::Stopped && after_wait(e, w).status.last_error is None
            &&& !(success || e.status.state == ConnectionState::Stopping) ==> after_wait(
                e,
                w,
            ).status.state == ConnectionState::Failed && after_wait(e, w).status.last_error is Some
        },
        w matches WaitView::Error(msg) ==> {
            &&& !after_wait(e, w).has_process
            &&& after_wait(e, w).status.pid is None
            &&& after_wait(e, w).status.state == ConnectionState::Failed
            &&& after_wait(e, w).status.last_error == Some(msg)
        },
        after_wait(e, w).config == e.config,
        after_wait(e, w).status.name == e.status.name,
        after_wait(e, w).status.target == e.status.target,
{
}

/// Only a running or stopping session can be stopped: one holding a
/// process has it killed first, one without is stopped at once; stopped
/// and failed sessions are refused as not running.
pub proof fn lemma_session_stop_only_live(s: SessionsView, name: Seq<char>)
    ensures
        lookup(s, name) matches Some(e) ==> ((e.status.state == ConnectionState::Running
            || e.status.state == ConnectionState::Stopping) ==> session_stop_decision(s, name)
            == Ok::<StopStep, SessionFault<Seq<char>>>(
            if e.has_process {
                StopStep::Kill
            } else {
                StopStep::Stopped
            },
        )),
        lookup(s, name) matches Some(e) ==> ((e.status.state == ConnectionState::Stopped
            || e.status.state == ConnectionState::Failed) ==> session_stop_decision(s, name)
            == Err::<StopStep, SessionFault<Seq<char>>>(SessionFault::NotRunning(name))),
        lookup(s, name) is None ==> session_stop_decision(s, name) == Err::<
            StopStep,
            SessionFault<Seq<char>>,
        >(SessionFault::UnknownConnection(name)),
{
}

} // verus!
