//! The daemon's connection manager: which connections exist, what state
//! each one is in, and how requests and process exits change that state.
//! Processes, cancellation and the socket stay with the caller, which
//! performs the actions that these functions decide.
use vstd::prelude::*;
use vstd::string::*;
use crate::config::{
    config_fault, fault_message, joined, joined3, opt_view, Config, ConfigError, ConfigFault,
    ConnectionConfig, ConnectionView,
};
use crate::ipc::{
    statuses_view, ConnectionState, ConnectionStatus, Request, Response, ResponseView, StatusView,
};
use crate::keyed::{
    ascending, entries_view, keyed_find, keyed_put, lemma_ascending_unique, lemma_lookup_at,
    lemma_lookup_index, lemma_lookup_same_keys, lemma_modify_at, lemma_modify_missing,
    lemma_modify_lookup, lookup, lookup_miss, modify, put, Entry,
};
use crate::text::{decimal, decimal_text, signed_decimal, signed_decimal_text};

verus! {

impl Entry for ConnectionConfig {
    type V = ConnectionView;

    open spec fn key_view(&self) -> Seq<char> {
        self.name@
    }

    open spec fn value_view(&self) -> ConnectionView {
        self@
    }

    fn key(&self) -> (r: &str) {
        self.name.as_str()
    }
}

/// A connection's definition beside its state, as plain values.
pub struct ManagedView {
    pub config: ConnectionView,
    pub status: StatusView,
}

/// A connection's definition beside its state.
pub struct ManagedConnection {
    pub config: ConnectionConfig,
    pub status: ConnectionStatus,
}

impl Entry for ManagedConnection {
    type V = ManagedView;

    open spec fn key_view(&self) -> Seq<char> {
        self.config.name@
    }

    open spec fn value_view(&self) -> ManagedView {
        ManagedView { config: self.config@, status: self.status@ }
    }

    fn key(&self) -> (r: &str) {
        self.config.name.as_str()
    }
}

/// The connections in name order, each under its name.
pub type ManagerView = Seq<(Seq<char>, ManagedView)>;

/// The configuration keyed by name; a later definition of a name replaces
/// an earlier one, as collecting into a `BTreeMap` does.
pub open spec fn config_index(conns: Seq<ConnectionView>) -> Seq<(Seq<char>, ConnectionView)>
    decreases conns.len(),
{
    if conns.len() == 0 {
        Seq::empty()
    } else {
        put(config_index(conns.drop_last()), conns.last().name, conns.last())
    }
}

/// The state of a connection that has not run yet.
pub open spec fn fresh_status(c: ConnectionView) -> StatusView {
    StatusView {
        name: c.name,
        target: c.target,
        keep_on_exit: c.keep_on_exit,
        state: ConnectionState::Stopped,
        pid: None,
        started_at: None,
        last_error: None,
    }
}

pub open spec fn fresh(c: ConnectionView) -> ManagedView {
    ManagedView { config: c, status: fresh_status(c) }
}

/// Every entry carries its key as the name of its definition and state,
/// and its state shows the target and mode of its definition.
pub open spec fn names_agree(s: ManagerView) -> bool {
    forall|i: int|
        0 <= i < s.len() ==> {
            &&& (#[trigger] s[i]).1.config.name == s[i].0
            &&& s[i].1.status.name == s[i].0
            &&& s[i].1.status.target == s[i].1.config.target
            &&& s[i].1.status.keep_on_exit == s[i].1.config.keep_on_exit
        }
}

/// A manager in the state `new` makes: one stopped connection per name.
pub open spec fn initial_manager(conns: Seq<ConnectionView>) -> ManagerView {
    config_index(conns).map_values(|e: (Seq<char>, ConnectionView)| (e.0, fresh(e.1)))
}

pub open spec fn with_state(e: ManagedView, state: ConnectionState) -> ManagedView {
    ManagedView { config: e.config, status: StatusView { state: state, ..e.status } }
}

/// A session counts as active while it starts, runs or stops.
pub open spec fn is_active(state: ConnectionState) -> bool {
    state == ConnectionState::Starting || state == ConnectionState::Running || state
        == ConnectionState::Stopping
}

/// Why the manager refuses a request.  `T` is the text type.
#[derive(Debug)]
pub enum ManagerFault<T> {
    UnknownConnection(T),
    AlreadyActive(T),
    StillStopping(T),
    AlreadyStopping(T),
    NotRunning(T),
    ReloadActive(T),
    SpawnFailed(T),
    InvalidConfig(ConfigFault<T>),
}

pub type ManagerError = ManagerFault<String>;

impl View for ManagerFault<String> {
    type V = ManagerFault<Seq<char>>;

    open spec fn view(&self) -> ManagerFault<Seq<char>> {
        match self {
            ManagerFault::UnknownConnection(t) => ManagerFault::UnknownConnection(t@),
            ManagerFault::AlreadyActive(t) => ManagerFault::AlreadyActive(t@),
            ManagerFault::StillStopping(t) => ManagerFault::StillStopping(t@),
            ManagerFault::AlreadyStopping(t) => ManagerFault::AlreadyStopping(t@),
            ManagerFault::NotRunning(t) => ManagerFault::NotRunning(t@),
            ManagerFault::ReloadActive(t) => ManagerFault::ReloadActive(t@),
            ManagerFault::SpawnFailed(t) => ManagerFault::SpawnFailed(t@),
            ManagerFault::InvalidConfig(f) => ManagerFault::InvalidConfig(f@),
        }
    }
}

pub open spec fn manager_message(f: ManagerFault<Seq<char>>) -> Seq<char> {
    match f {
        ManagerFault::UnknownConnection(n) => "unknown connection: "@ + n,
        ManagerFault::AlreadyActive(n) => "connection "@ + n + " is already active"@,
        ManagerFault::StillStopping(n) => "connection "@ + n + " is still stopping"@,
        ManagerFault::AlreadyStopping(n) => "connection "@ + n + " is already stopping"@,
        ManagerFault::NotRunning(n) => "connection "@ + n + " is not running"@,
        ManagerFault::ReloadActive(n) => "cannot reload active connection "@ + n
            + "; stop it before changing or removing it"@,
        ManagerFault::SpawnFailed(n) => "starting AWS session for "@ + n,
        ManagerFault::InvalidConfig(f) => fault_message(f),
    }
}

impl ManagerFault<String> {
    pub fn message(&self) -> (r: String)
        ensures
            r@ == manager_message(self@),
    {
        match self {
            ManagerFault::UnknownConnection(n) => joined("unknown connection: ", n.as_str()),
            ManagerFault::AlreadyActive(n) => joined3("connection ", n.as_str(), " is already active"),
            ManagerFault::StillStopping(n) => joined3("connection ", n.as_str(), " is still stopping"),
            ManagerFault::AlreadyStopping(n) => joined3(
                "connection ",
                n.as_str(),
                " is already stopping",
            ),
            ManagerFault::NotRunning(n) => joined3("connection ", n.as_str(), " is not running"),
            ManagerFault::ReloadActive(n) => joined3(
                "cannot reload active connection ",
                n.as_str(),
                "; stop it before changing or removing it",
            ),
            ManagerFault::SpawnFailed(n) => joined("starting AWS session for ", n.as_str()),
            ManagerFault::InvalidConfig(f) => f.message(),
        }
    }
}

/// The answer to `start`: refused, or the definition to launch.
pub open spec fn start_decision(s: ManagerView, name: Seq<char>) -> Result<
    ConnectionView,
    ManagerFault<Seq<char>>,
> {
    match lookup(s, name) {
        None => Err(ManagerFault::UnknownConnection(name)),
        Some(e) => if e.status.state == ConnectionState::Starting || e.status.state
            == ConnectionState::Running {
            Err(ManagerFault::AlreadyActive(name))
        } else if e.status.state == ConnectionState::Stopping {
            Err(ManagerFault::StillStopping(name))
        } else {
            Ok(e.config)
        },
    }
}

/// A connection whose session was just launched.
pub open spec fn started(e: ManagedView, pid: Option<u32>, now: u64) -> ManagedView {
    ManagedView {
        config: e.config,
        status: StatusView {
            state: ConnectionState::Running,
            pid: pid,
            started_at: Some(now),
            last_error: None,
            ..e.status
        },
    }
}

/// Why `stop` refuses, if it does.
pub open spec fn stop_fault(s: ManagerView, name: Seq<char>) -> Option<ManagerFault<Seq<char>>> {
    match lookup(s, name) {
        None => Some(ManagerFault::UnknownConnection(name)),
        Some(e) => if e.status.state == ConnectionState::Starting || e.status.state
            == ConnectionState::Running {
            None
        } else if e.status.state == ConnectionState::Stopping {
            Some(ManagerFault::AlreadyStopping(name))
        } else {
            Some(ManagerFault::NotRunning(name))
        },
    }
}

/// Which sessions a bulk stop takes down.
#[derive(Clone, Copy, Debug, PartialEq, Eq, Structural)]
pub enum StopScope {
    /// Every running session.
    All,
    /// Running sessions not marked `keep_on_exit`.
    Temporary,
    /// Sessions that start or run, when the daemon shuts down.
    Shutdown,
}

pub open spec fn in_scope(e: ManagedView, scope: StopScope) -> bool {
    match scope {
        StopScope::All => e.status.state == ConnectionState::Running,
        StopScope::Temporary => e.status.state == ConnectionState::Running && !e.status.keep_on_exit,
        StopScope::Shutdown => e.status.state == ConnectionState::Starting || e.status.state
            == ConnectionState::Running,
    }
}

/// The listing after a bulk stop: sessions in scope are stopping.
pub open spec fn stopped_in_scope(s: ManagerView, scope: StopScope) -> ManagerView {
    s.map_values(
        |e: (Seq<char>, ManagedView)|
            if in_scope(e.1, scope) {
                (e.0, with_state(e.1, ConnectionState::Stopping))
            } else {
                e
            },
    )
}

/// The names of the sessions in scope, in name order.
pub open spec fn names_in_scope(s: ManagerView, scope: StopScope) -> Seq<Seq<char>>
    decreases s.len(),
{
    if s.len() == 0 {
        Seq::empty()
    } else if in_scope(s.last().1, scope) {
        names_in_scope(s.drop_last(), scope).push(s.last().0)
    } else {
        names_in_scope(s.drop_last(), scope)
    }
}

/// A process exit as plain values.
pub struct EventView {
    pub name: Seq<char>,
    pub stopped_by_request: bool,
    pub exit_code: Option<i32>,
    pub error: Option<Seq<char>>,
}

/// The end of a session's process, as the process monitor reports it.
pub struct ProcessEvent {
    pub name: String,
    pub stopped_by_request: bool,
    pub exit_code: Option<i32>,
    pub error: Option<String>,
}

impl View for ProcessEvent {
    type V = EventView;

    open spec fn view(&self) -> EventView {
        EventView {
            name: self.name@,
            stopped_by_request: self.stopped_by_request,
            exit_code: self.exit_code,
            error: opt_view(self.error),
        }
    }
}

/// The error recorded for an exit code: any code but 0 is one.
pub open spec fn exit_code_error(code: Option<i32>) -> Option<Seq<char>> {
    match code {
        Some(c) => if c != 0 {
            Some("AWS session exited with code "@ + signed_decimal(c as int))
        } else {
            None
        },
        None => None,
    }
}

/// A connection whose process has ended: stopped when asked to stop or
/// when it exited with code 0, failed otherwise.
pub open spec fn after_exit(e: ManagedView, ev: EventView) -> ManagedView {
    ManagedView {
        config: e.config,
        status: StatusView {
            pid: None,
            state: if ev.stopped_by_request || ev.exit_code == Some(0i32) {
                ConnectionState::Stopped
            } else {
                ConnectionState::Failed
            },
            last_error: match ev.error {
                Some(x) => Some(x),
                None => exit_code_error(ev.exit_code),
            },
            ..e.status
        },
    }
}

/// The states of all connections, in name order.
pub open spec fn status_list(s: ManagerView) -> Seq<StatusView> {
    s.map_values(|e: (Seq<char>, ManagedView)| e.1.status)
}

/// The first active connection, in name order, whose definition the new
/// configuration changes or drops: a reload must leave it alone.
pub open spec fn reload_blocker(s: ManagerView, m: Seq<(Seq<char>, ConnectionView)>) -> Option<
    Seq<char>,
>
    decreases s.len(),
{
    if s.len() == 0 {
        None
    } else if is_active(s[0].1.status.state) && lookup(m, s[0].0) != Some(s[0].1.config) {
        Some(s[0].0)
    } else {
        reload_blocker(s.drop_first(), m)
    }
}

/// A connection after a reload: a known name keeps its state with the
/// new target and mode; a new name starts stopped.
pub open spec fn carried(previous: Option<ManagedView>, c: ConnectionView) -> ManagedView {
    match previous {
        Some(e) => ManagedView {
            config: c,
            status: StatusView { target: c.target, keep_on_exit: c.keep_on_exit, ..e.status },
        },
        None => fresh(c),
    }
}

/// The connections after reloading the keyed configuration `m`.
pub open spec fn reloaded(s: ManagerView, m: Seq<(Seq<char>, ConnectionView)>) -> ManagerView {
    m.map_values(|e: (Seq<char>, ConnectionView)| (e.0, carried(lookup(s, e.0), e.1)))
}

/// What reloading the configuration `conns` gives: refused when it does
/// not validate or would change an active connection.
pub open spec fn reload_outcome(s: ManagerView, conns: Seq<ConnectionView>) -> Result<
    ManagerView,
    ManagerFault<Seq<char>>,
> {
    match config_fault(conns) {
        Some(f) => Err(ManagerFault::InvalidConfig(f)),
        None => match reload_blocker(s, config_index(conns)) {
            Some(n) => Err(ManagerFault::ReloadActive(n)),
            None => Ok(reloaded(s, config_index(conns))),
        },
    }
}

pub struct ConnectionManager {
    entries: Vec<ManagedConnection>,
}

impl View for ConnectionManager {
    type V = ManagerView;

    closed spec fn view(&self) -> ManagerView {
        entries_view(self.entries@)
    }
}

pub fn copy_status(s: &ConnectionStatus) -> (r: ConnectionStatus)
    ensures
        r@ == s@,
{
    ConnectionStatus {
        name: s.name.clone(),
        target: s.target.clone(),
        keep_on_exit: s.keep_on_exit,
        state: s.state,
        pid: s.pid,
        started_at: s.started_at,
        last_error: crate::config::copy_opt(&s.last_error),
    }
}

fn fresh_entry(c: ConnectionConfig) -> (r: ManagedConnection)
    ensures
        r.value_view() == fresh(c@),
        r.key_view() == c@.name,
{
    let status = ConnectionStatus {
        name: c.name.clone(),
        target: c.target.clone(),
        keep_on_exit: c.keep_on_exit,
        state: ConnectionState::Stopped,
        pid: None,
        started_at: None,
        last_error: None,
    };
    ManagedConnection { config: c, status }
}

/// Replaces the state of entry `i`.
fn set_status(v: &mut Vec<ManagedConnection>, i: usize, status: ConnectionStatus)
    requires
        i < old(v).len(),
    ensures
        entries_view(final(v)@) == entries_view(old(v)@).update(
            i as int,
            (
                entries_view(old(v)@)[i as int].0,
                ManagedView { config: entries_view(old(v)@)[i as int].1.config, status: status@ },
            ),
        ),
{
    let ghost s = entries_view(v@);
    let mut m = v.remove(i);
    m.status = status;
    v.insert(i, m);
    assert(entries_view(v@) =~= s.update(
        i as int,
        (s[i as int].0, ManagedView { config: s[i as int].1.config, status: status@ }),
    ));
}

/// The configuration as a keyed list of definitions.
fn index_configs(config: &Config) -> (r: Vec<ConnectionConfig>)
    ensures
        entries_view(r@) == config_index(config@),
        ascending(entries_view(r@)),
{
    let mut m: Vec<ConnectionConfig> = Vec::new();
    let mut i: usize = 0;
    assert(entries_view(m@) =~= Seq::<(Seq<char>, ConnectionView)>::empty());
    assert(config@.take(0) =~= Seq::<ConnectionView>::empty());
    while i < config.connections.len()
        invariant
            i <= config.connections.len(),
            entries_view(m@) == config_index(config@.take(i as int)),
            ascending(entries_view(m@)),
        decreases config.connections.len() - i,
    {
        let c = config.connections[i].copy();
        assert(config@.take(i + 1).drop_last() =~= config@.take(i as int));
        assert(config@.take(i + 1).last() == config@[i as int]);
        assert(config@[i as int] == config.connections@[i as int]@);
        keyed_put(&mut m, c);
        i = i + 1;
    }
    assert(config@.take(i as int) =~= config@);
    m
}

impl ConnectionManager {
    #[verifier::type_invariant]
    spec fn well_kept(self) -> bool {
        ascending(self@) && names_agree(self@)
    }

    /// The manager is well kept: names ascend, and each state belongs to
    /// the definition listed beside it.
    pub fn check(&self)
        ensures
            ascending(self@),
            names_agree(self@),
    {
        proof {
            use_type_invariant(self);
        }
    }

    /// One stopped connection per configured name.
    pub fn new(config: &Config) -> (r: ConnectionManager)
        ensures
            r@ == initial_manager(config@),
    {
        let m = index_configs(config);
        let ghost ci = entries_view(m@);
        let mut entries: Vec<ManagedConnection> = Vec::new();
        let mut i: usize = 0;
        while i < m.len()
            invariant
                ci == entries_view(m@),
                ascending(ci),
                ci == config_index(config@),
                i <= m.len(),
                entries.len() == i,
                entries_view(entries@) == initial_manager(config@).take(i as int),
                names_agree(entries_view(entries@)),
            decreases m.len() - i,
        {
            let e = fresh_entry(m[i].copy());
            assert(ci[i as int] == (m@[i as int].key_view(), m@[i as int].value_view()));
            let ghost before = entries@;
            entries.push(e);
            assert(entries@ == before.push(e));
            assert(entries_view(entries@) =~= initial_manager(config@).take(i + 1));
            i = i + 1;
        }
        assert(initial_manager(config@).take(i as int) =~= initial_manager(config@));
        let r = ConnectionManager { entries };
        assert(ascending(r@)) by {
            assert forall|a: int, b: int| 0 <= a < b < r@.len() implies crate::text::text_lt(
                #[trigger] r@[a].0,
                #[trigger] r@[b].0,
            ) by {
                assert(r@[a].0 == ci[a].0 && r@[b].0 == ci[b].0);
            }
        }
        r
    }

    /// The state of every connection, in name order.
    pub fn statuses(&self) -> (r: Vec<ConnectionStatus>)
        ensures
            statuses_view(r@) == status_list(self@),
    {
        let mut r: Vec<ConnectionStatus> = Vec::new();
        let mut i: usize = 0;
        while i < self.entries.len()
            invariant
                i <= self.entries.len(),
                r.len() == i,
                statuses_view(r@) == self@.map_values(|e: (Seq<char>, ManagedView)| e.1.status).take(
                    i as int,
                ),
            decreases self.entries.len() - i,
        {
            let st = copy_status(&self.entries[i].status);
            let ghost before = r@;
            r.push(st);
            assert(r@ == before.push(st));
            assert(statuses_view(r@) =~= self@.map_values(
                |e: (Seq<char>, ManagedView)| e.1.status,
            ).take(i + 1));
            i = i + 1;
        }
        assert(self@.map_values(|e: (Seq<char>, ManagedView)| e.1.status).take(i as int)
            =~= status_list(self@));
        r
    }

    /// Decides a start: the definition to launch, unless the name is
    /// unknown or its session is active.  Nothing changes until the launch
    /// is recorded with `record_started`.
    pub fn start(&self, name: &str) -> (r: Result<ConnectionConfig, ManagerError>)
        ensures
            start_decision(self@, name@) matches Ok(c) ==> (r matches Ok(d) && d@ == c),
            start_decision(self@, name@) matches Err(f) ==> (r matches Err(e) && e@ == f),
    {
        match keyed_find(&self.entries, name) {
            None => Err(ManagerFault::UnknownConnection(String::from_str(name))),
            Some(i) => {
                let m = &self.entries[i];
                match m.status.state {
                    ConnectionState::Starting | ConnectionState::Running => Err(
                        ManagerFault::AlreadyActive(String::from_str(name)),
                    ),
                    ConnectionState::Stopping => Err(
                        ManagerFault::StillStopping(String::from_str(name)),
                    ),
                    _ => Ok(m.config.copy()),
                }
            },
        }
    }

    /// Records that the session of `name` was launched with process `pid`
    /// at `now` (seconds since the epoch).
    pub fn record_started(&mut self, name: &str, pid: Option<u32>, now: u64)
        ensures
            final(self)@ == modify(old(self)@, name@, |e: ManagedView| started(e, pid, now)),
    {
        proof {
            use_type_invariant(&*self);
        }
        let ghost s = self@;
        match keyed_find(&self.entries, name) {
            None => {
                proof {
                    lemma_modify_missing(s, name@, |e: ManagedView| started(e, pid, now));
                }
            },
            Some(i) => {
                let old_status = &self.entries[i].status;
                let status = ConnectionStatus {
                    name: old_status.name.clone(),
                    target: old_status.target.clone(),
                    keep_on_exit: old_status.keep_on_exit,
                    state: ConnectionState::Running,
                    pid,
                    started_at: Some(now),
                    last_error: None,
                };
                let mut v: Vec<ManagedConnection> = Vec::new();
                std::mem::swap(&mut v, &mut self.entries);
                set_status(&mut v, i, status);
                proof {
                    lemma_modify_at(s, name@, |e: ManagedView| started(e, pid, now), i as int);
                    assert(entries_view(v@) =~= modify(
                        s,
                        name@,
                        |e: ManagedView| started(e, pid, now),
                    ));
                }
                self.entries = v;
            },
        }
    }

    /// Stops the session of `name`: it is now stopping, and the caller
    /// cancels its process.  Refused unless the session starts or runs.
    pub fn stop(&mut self, name: &str) -> (r: Result<(), ManagerError>)
        ensures
            r is Ok <==> stop_fault(old(self)@, name@) is None,
            r matches Err(e) ==> stop_fault(old(self)@, name@) == Some(e@),
            r is Ok ==> final(self)@ == modify(
                old(self)@,
                name@,
                |e: ManagedView| with_state(e, ConnectionState::Stopping),
            ),
            r is Err ==> final(self)@ == old(self)@,
    {
        proof {
            use_type_invariant(&*self);
        }
        let ghost s = self@;
        match keyed_find(&self.entries, name) {
            None => Err(ManagerFault::UnknownConnection(String::from_str(name))),
            Some(i) => {
                match self.entries[i].status.state {
                    ConnectionState::Starting | ConnectionState::Running => {},
                    ConnectionState::Stopping => {
                        return Err(ManagerFault::AlreadyStopping(String::from_str(name)));
                    },
                    _ => {
                        return Err(ManagerFault::NotRunning(String::from_str(name)));
                    },
                }
                let mut status = copy_status(&self.entries[i].status);
                status.state = ConnectionState::Stopping;
                let mut v: Vec<ManagedConnection> = Vec::new();
                std::mem::swap(&mut v, &mut self.entries);
                set_status(&mut v, i, status);
                proof {
                    lemma_modify_at(
                        s,
                        name@,
                        |e: ManagedView| with_state(e, ConnectionState::Stopping),
                        i as int,
                    );
                    assert(entries_view(v@) =~= modify(
                        s,
                        name@,
                        |e: ManagedView| with_state(e, ConnectionState::Stopping),
                    ));
                }
                self.entries = v;
                Ok(())
            },
        }
    }

    /// Marks every session in `scope` as stopping and gives their names,
    /// in name order, for the caller to cancel.
    pub fn stop_in_scope(&mut self, scope: StopScope) -> (r: Vec<String>)
        ensures
            final(self)@ == stopped_in_scope(old(self)@, scope),
            crate::config::texts_view(r@) == names_in_scope(old(self)@, scope),
    {
        proof {
            use_type_invariant(&*self);
        }
        let ghost s = self@;
        let mut v: Vec<ManagedConnection> = Vec::new();
        std::mem::swap(&mut v, &mut self.entries);
        let mut names: Vec<String> = Vec::new();
        let n = v.len();
        let mut i: usize = 0;
        assert(s.take(0) =~= Seq::<(Seq<char>, ManagedView)>::empty());
        while i < n
            invariant
                n == v.len(),
                s.len() == n,
                i <= n,
                entries_view(v@) == stopped_in_scope(s, scope).take(i as int) + s.skip(i as int),
                crate::config::texts_view(names@) == names_in_scope(s.take(i as int), scope),
            decreases n - i,
        {
            let ghost before = entries_view(v@);
            assert(before[i as int] == s[i as int]);
            let st = v[i].status.state;
            let cand = match scope {
                StopScope::All => st == ConnectionState::Running,
                StopScope::Temporary => st == ConnectionState::Running && !v[i].status.keep_on_exit,
                StopScope::Shutdown => st == ConnectionState::Starting || st
                    == ConnectionState::Running,
            };
            assert(s.take(i + 1).drop_last() =~= s.take(i as int));
            assert(s.take(i + 1).last() == s[i as int]);
            if cand {
                let mut status = copy_status(&v[i].status);
                status.state = ConnectionState::Stopping;
                let nm = v[i].config.name.clone();
                set_status(&mut v, i, status);
                let ghost nb = names@;
                names.push(nm);
                assert(names@ == nb.push(nm));
                assert(crate::config::texts_view(names@) =~= crate::config::texts_view(nb).push(
                    nm@,
                ));
            }
            assert(entries_view(v@) =~= stopped_in_scope(s, scope).take(i + 1) + s.skip(i + 1));
            i = i + 1;
        }
        assert(s.take(n as int) =~= s);
        assert(entries_view(v@) =~= stopped_in_scope(s, scope));
        proof {
            assert forall|a: int, b: int|
                0 <= a < b < entries_view(v@).len() implies crate::text::text_lt(
                #[trigger] entries_view(v@)[a].0,
                #[trigger] entries_view(v@)[b].0,
            ) by {
                assert(entries_view(v@)[a].0 == s[a].0 && entries_view(v@)[b].0 == s[b].0);
            }
        }
        self.entries = v;
        names
    }

    /// Stops every running session, or, with `keep_on_exit`, the running
    /// ones not marked to outlive the TUI; gives the names it stopped.
    pub fn stop_all(&mut self, keep_on_exit: bool) -> (r: Vec<String>)
        ensures
            final(self)@ == stopped_in_scope(
                old(self)@,
                if keep_on_exit {
                    StopScope::Temporary
                } else {
                    StopScope::All
                },
            ),
            crate::config::texts_view(r@) == names_in_scope(
                old(self)@,
                if keep_on_exit {
                    StopScope::Temporary
                } else {
                    StopScope::All
                },
            ),
    {
        if keep_on_exit {
            self.stop_in_scope(StopScope::Temporary)
        } else {
            self.stop_in_scope(StopScope::All)
        }
    }

    /// Begins the daemon's shutdown: every starting or running session is
    /// now stopping; gives their names for the caller to cancel.
    pub fn shutdown(&mut self) -> (r: Vec<String>)
        ensures
            final(self)@ == stopped_in_scope(old(self)@, StopScope::Shutdown),
            crate::config::texts_view(r@) == names_in_scope(old(self)@, StopScope::Shutdown),
    {
        self.stop_in_scope(StopScope::Shutdown)
    }

    /// Records the end of a session's process; an event for an unknown
    /// name changes nothing (the result says whether the name was known).
    pub fn handle_process_event(&mut self, event: &ProcessEvent) -> (r: bool)
        ensures
            r == (lookup(old(self)@, event@.name) is Some),
            final(self)@ == modify(old(self)@, event@.name, |e: ManagedView| after_exit(e, event@)),
    {
        proof {
            use_type_invariant(&*self);
        }
        let ghost s = self@;
        match keyed_find(&self.entries, event.name.as_str()) {
            None => {
                proof {
                    lemma_modify_missing(s, event@.name, |e: ManagedView| after_exit(e, event@));
                }
                false
            },
            Some(i) => {
                let mut status = copy_status(&self.entries[i].status);
                status.pid = None;
                let exited_zero = match event.exit_code {
                    Some(code) => code == 0,
                    None => false,
                };
                status.state = if event.stopped_by_request || exited_zero {
                    ConnectionState::Stopped
                } else {
                    ConnectionState::Failed
                };
                status.last_error = match &event.error {
                    Some(e) => Some(e.clone()),
                    None => match event.exit_code {
                        Some(code) => if code != 0 {
                            Some(
                                joined(
                                    "AWS session exited with code ",
                                    signed_decimal_text(code as i64).as_str(),
                                ),
                            )
                        } else {
                            None
                        },
                        None => None,
                    },
                };
                let mut v: Vec<ManagedConnection> = Vec::new();
                std::mem::swap(&mut v, &mut self.entries);
                set_status(&mut v, i, status);
                proof {
                    lemma_modify_at(s, event@.name, |e: ManagedView| after_exit(e, event@), i as int);
                    assert(entries_view(v@) =~= modify(
                        s,
                        event@.name,
                        |e: ManagedView| after_exit(e, event@),
                    ));
                }
                self.entries = v;
                true
            },
        }
    }
}


impl ConnectionManager {
    /// Reloads the configuration.  Refused, with nothing changed, when the
    /// configuration does not validate or when it changes or drops a
    /// connection whose session is active; otherwise every configured name
    /// keeps its state (with the new target and mode) and new names start
    /// stopped.
    pub fn reload(&mut self, config: &Config) -> (r: Result<(), ManagerError>)
        ensures
            reload_outcome(old(self)@, config@) matches Ok(v) ==> (r is Ok && final(self)@ == v),
            reload_outcome(old(self)@, config@) matches Err(f) ==> (r matches Err(e) && e@ == f
                && final(self)@ == old(self)@),
    {
        proof {
            use_type_invariant(&*self);
        }
        let ghost s = self@;
        match config.validate() {
            Err(e) => {
                return Err(ManagerFault::InvalidConfig(e));
            },
            Ok(()) => {},
        }
        let m = index_configs(config);
        let ghost ci = entries_view(m@);
        let n = self.entries.len();
        let mut i: usize = 0;
        assert(s.skip(0) =~= s);
        while i < n
            invariant
                n == self.entries.len(),
                s == self@,
                s == old(self)@,
                ci == entries_view(m@),
                ci == config_index(config@),
                config_fault(config@) is None,
                i <= n,
                reload_blocker(s, ci) == reload_blocker(s.skip(i as int), ci),
            decreases n - i,
        {
            let e = &self.entries[i];
            let ghost t = s.skip(i as int);
            assert(t[0] == s[i as int]);
            assert(t.drop_first() =~= s.skip(i + 1));
            let active = match e.status.state {
                ConnectionState::Starting | ConnectionState::Running | ConnectionState::Stopping => true,
                _ => false,
            };
            if active {
                let same = match keyed_find(&m, e.config.name.as_str()) {
                    None => false,
                    Some(j) => e.config.same_as(&m[j]),
                };
                if !same {
                    return Err(ManagerFault::ReloadActive(e.config.name.clone()));
                }
            }
            i = i + 1;
        }
        assert(s.skip(n as int) =~= Seq::<(Seq<char>, ManagedView)>::empty());
        let mut entries: Vec<ManagedConnection> = Vec::new();
        let mut j: usize = 0;
        while j < m.len()
            invariant
                s == self@,
                ascending(s),
                names_agree(s),
                ci == entries_view(m@),
                ascending(ci),
                j <= m.len(),
                entries.len() == j,
                entries_view(entries@) == reloaded(s, ci).take(j as int),
                names_agree(entries_view(entries@)),
            decreases m.len() - j,
        {
            let c = m[j].copy();
            assert(ci[j as int] == (c@.name, c@));
            let entry = match keyed_find(&self.entries, c.name.as_str()) {
                Some(k) => {
                    let mut st = copy_status(&self.entries[k].status);
                    st.target = c.target.clone();
                    st.keep_on_exit = c.keep_on_exit;
                    assert(s[k as int].1.status.name == s[k as int].0);
                    ManagedConnection { config: c, status: st }
                },
                None => fresh_entry(c),
            };
            let ghost before = entries@;
            entries.push(entry);
            assert(entries@ == before.push(entry));
            assert(entries_view(entries@) =~= reloaded(s, ci).take(j + 1));
            j = j + 1;
        }
        assert(reloaded(s, ci).take(j as int) =~= reloaded(s, ci));
        proof {
            assert forall|a: int, b: int|
                0 <= a < b < entries_view(entries@).len() implies crate::text::text_lt(
                #[trigger] entries_view(entries@)[a].0,
                #[trigger] entries_view(entries@)[b].0,
            ) by {
                assert(entries_view(entries@)[a].0 == ci[a].0);
                assert(entries_view(entries@)[b].0 == ci[b].0);
            }
        }
        self.entries = entries;
        Ok(())
    }
}

/// What the daemon does with a request: answer it (and cancel the named
/// sessions' processes), launch a session, or read the configuration file.
pub enum Dispatch {
    Reply { response: Response, cancel: Vec<String> },
    Launch { name: String, config: ConnectionConfig },
    LoadConfig,
}

/// A successful answer that carries the state of every connection.
pub open spec fn ok_reply(message: Seq<char>, s: ManagerView) -> ResponseView {
    ResponseView { ok: true, message: message, statuses: status_list(s) }
}

/// A failed answer.
pub open spec fn error_reply(message: Seq<char>) -> ResponseView {
    ResponseView { ok: false, message: message, statuses: Seq::empty() }
}

pub open spec fn stop_count_message(count: nat, temporary: bool) -> Seq<char> {
    if temporary {
        "stopping "@ + decimal(count) + " temporary connection(s)"@
    } else {
        "stopping "@ + decimal(count) + " connection(s)"@
    }
}

impl ConnectionManager {
    fn ok_response(&self, message: String) -> (r: Response)
        ensures
            r@ == ok_reply(message@, self@),
    {
        Response::ok(message, self.statuses())
    }

    /// Decides a client's request, as the daemon answers it.
    pub fn handle_request(&mut self, request: &Request) -> (r: Dispatch)
        ensures
            match request {
                Request::Ping => {
                    &&& final(self)@ == old(self)@
                    &&& r matches Dispatch::Reply { response, cancel }
                    &&& response@ == ok_reply("daemon is running"@, old(self)@)
                    &&& cancel@.len() == 0
                },
                Request::Status => {
                    &&& final(self)@ == old(self)@
                    &&& r matches Dispatch::Reply { response, cancel }
                    &&& response@ == ok_reply("status retrieved"@, old(self)@)
                    &&& cancel@.len() == 0
                },
                Request::Reload => final(self)@ == old(self)@ && r is LoadConfig,
                Request::Start { name } => {
                    &&& final(self)@ == old(self)@
                    &&& match start_decision(old(self)@, name@) {
                        Ok(c) => {
                            &&& r matches Dispatch::Launch { name: n, config }
                            &&& n@ == name@
                            &&& config@ == c
                        },
                        Err(f) => {
                            &&& r matches Dispatch::Reply { response, cancel }
                            &&& response@ == error_reply(manager_message(f))
                            &&& cancel@.len() == 0
                        },
                    }
                },
                Request::Stop { name } => match stop_fault(old(self)@, name@) {
                    None => {
                        &&& final(self)@ == modify(
                            old(self)@,
                            name@,
                            |e: ManagedView| with_state(e, ConnectionState::Stopping),
                        )
                        &&& r matches Dispatch::Reply { response, cancel }
                        &&& response@ == ok_reply("stopping "@ + name@, final(self)@)
                        &&& crate::config::texts_view(cancel@) == seq![name@]
                    },
                    Some(f) => {
                        &&& final(self)@ == old(self)@
                        &&& r matches Dispatch::Reply { response, cancel }
                        &&& response@ == error_reply(manager_message(f))
                        &&& cancel@.len() == 0
                    },
                },
                Request::StopAll => {
                    &&& final(self)@ == stopped_in_scope(old(self)@, StopScope::All)
                    &&& r matches Dispatch::Reply { response, cancel }
                    &&& crate::config::texts_view(cancel@) == names_in_scope(
                        old(self)@,
                        StopScope::All,
                    )
                    &&& response@ == ok_reply(
                        stop_count_message(names_in_scope(old(self)@, StopScope::All).len(), false),
                        final(self)@,
                    )
                },
                Request::TuiExit => {
                    &&& final(self)@ == stopped_in_scope(old(self)@, StopScope::Temporary)
                    &&& r matches Dispatch::Reply { response, cancel }
                    &&& crate::config::texts_view(cancel@) == names_in_scope(
                        old(self)@,
                        StopScope::Temporary,
                    )
                    &&& response@ == ok_reply(
                        stop_count_message(
                            names_in_scope(old(self)@, StopScope::Temporary).len(),
                            true,
                        ),
                        final(self)@,
                    )
                },
            },
    {
        match request {
            Request::Ping => Dispatch::Reply {
                response: self.ok_response(String::from_str("daemon is running")),
                cancel: Vec::new(),
            },
            Request::Status => Dispatch::Reply {
                response: self.ok_response(String::from_str("status retrieved")),
                cancel: Vec::new(),
            },
            Request::Reload => Dispatch::LoadConfig,
            Request::Start { name } => match self.start(name.as_str()) {
                Ok(config) => Dispatch::Launch { name: name.clone(), config },
                Err(e) => Dispatch::Reply { response: Response::error(e.message()), cancel: Vec::new() },
            },
            Request::Stop { name } => match self.stop(name.as_str()) {
                Ok(()) => {
                    let mut cancel: Vec<String> = Vec::new();
                    cancel.push(name.clone());
                    assert(crate::config::texts_view(cancel@) =~= seq![name@]);
                    Dispatch::Reply {
                        response: self.ok_response(joined("stopping ", name.as_str())),
                        cancel,
                    }
                },
                Err(e) => Dispatch::Reply { response: Response::error(e.message()), cancel: Vec::new() },
            },
            Request::StopAll => {
                let names = self.stop_all(false);
                let count = decimal_text(names.len() as u64);
                let message = joined3("stopping ", count.as_str(), " connection(s)");
                Dispatch::Reply { response: self.ok_response(message), cancel: names }
            },
            Request::TuiExit => {
                let names = self.stop_all(true);
                let count = decimal_text(names.len() as u64);
                let message = joined3("stopping ", count.as_str(), " temporary connection(s)");
                Dispatch::Reply { response: self.ok_response(message), cancel: names }
            },
        }
    }

    /// Answers a start once the launch was tried: `launched` is the new
    /// process's id (if the system gave one), or `None` when it could not
    /// be spawned.
    pub fn finish_start(&mut self, name: &str, launched: Option<Option<u32>>, now: u64) -> (r: Response)
        ensures
            launched is None ==> {
                &&& final(self)@ == old(self)@
                &&& r@ == error_reply(manager_message(ManagerFault::SpawnFailed(name@)))
            },
            launched matches Some(pid) ==> {
                &&& final(self)@ == modify(old(self)@, name@, |e: ManagedView| started(e, pid, now))
                &&& r@ == ok_reply("started "@ + name@, final(self)@)
            },
    {
        match launched {
            None => Response::error(ManagerFault::SpawnFailed(String::from_str(name)).message()),
            Some(pid) => {
                self.record_started(name, pid, now);
                self.ok_response(joined("started ", name))
            },
        }
    }

    /// Answers a reload once the configuration file was read: `loaded` is
    /// the parsed configuration, or the message of the read or parse error.
    pub fn finish_reload(&mut self, loaded: Result<Config, String>) -> (r: Response)
        ensures
            loaded matches Err(m) ==> (final(self)@ == old(self)@ && r@ == error_reply(m@)),
            loaded matches Ok(c) ==> match reload_outcome(old(self)@, c@) {
                Ok(v) => final(self)@ == v && r@ == ok_reply("configuration reloaded"@, v),
                Err(f) => final(self)@ == old(self)@ && r@ == error_reply(manager_message(f)),
            },
    {
        match loaded {
            Err(m) => Response::error(m),
            Ok(c) => match self.reload(&c) {
                Ok(()) => self.ok_response(String::from_str("configuration reloaded")),
                Err(e) => Response::error(e.message()),
            },
        }
    }
}

/// A name is among those a bulk stop cancels exactly when an entry under
/// that name is in scope.
proof fn lemma_names_in_scope_contains(s: ManagerView, scope: StopScope, name: Seq<char>)
    ensures
        names_in_scope(s, scope).contains(name) <==> exists|i: int|
            0 <= i < s.len() && #[trigger] s[i].0 == name && in_scope(s[i].1, scope),
    decreases s.len(),
{
    if s.len() > 0 {
        let t = s.drop_last();
        lemma_names_in_scope_contains(t, scope, name);
        if names_in_scope(s, scope).contains(name) {
            if in_scope(s.last().1, scope) && name == s.last().0 {
                assert(s[s.len() - 1].0 == name);
            } else {
                if in_scope(s.last().1, scope) {
                    let k = choose|k: int|
                        0 <= k < names_in_scope(s, scope).len() && names_in_scope(s, scope)[k]
                            == name;
                    assert(names_in_scope(t, scope)[k] == name);
                }
                let i = choose|i: int|
                    0 <= i < t.len() && #[trigger] t[i].0 == name && in_scope(t[i].1, scope);
                assert(s[i] == t[i]);
            }
        }
        if exists|i: int| 0 <= i < s.len() && #[trigger] s[i].0 == name && in_scope(s[i].1, scope) {
            let i = choose|i: int|
                0 <= i < s.len() && #[trigger] s[i].0 == name && in_scope(s[i].1, scope);
            if i == s.len() - 1 {
                assert(names_in_scope(s, scope).last() == name);
            } else {
                assert(t[i] == s[i]);
                let k = choose|k: int|
                    0 <= k < names_in_scope(t, scope).len() && names_in_scope(t, scope)[k] == name;
                if in_scope(s.last().1, scope) {
                    assert(names_in_scope(s, scope)[k] == name);
                } else {
                    assert(names_in_scope(s, scope) == names_in_scope(t, scope));
                }
            }
        }
    }
}

/// When the TUI exits, the daemon stops the running connections that are
/// not marked `keep_on_exit` and only those: a connection marked
/// `keep_on_exit` keeps its state, and the names whose processes it
/// cancels are exactly those of the running temporary connections.
pub proof fn lemma_tui_exit_spares_background(s: ManagerView, name: Seq<char>)
    requires
        ascending(s),
    ensures
        match lookup(s, name) {
            None => lookup(stopped_in_scope(s, StopScope::Temporary), name) is None,
            Some(e) => lookup(stopped_in_scope(s, StopScope::Temporary), name) == Some(
                if e.status.state == ConnectionState::Running && !e.status.keep_on_exit {
                    with_state(e, ConnectionState::Stopping)
                } else {
                    e
                },
            ),
        },
        names_in_scope(s, StopScope::Temporary).contains(name) <==> (lookup(s, name) matches Some(
            e,
        ) && e.status.state == ConnectionState::Running && !e.status.keep_on_exit),
{
    let t = stopped_in_scope(s, StopScope::Temporary);
    assert forall|i: int| 0 <= i < s.len() implies #[trigger] t[i].0 == s[i].0 by {}
    lemma_lookup_same_keys(s, t, name);
    lemma_lookup_index(s, name);
    lemma_names_in_scope_contains(s, StopScope::Temporary, name);
    if lookup(s, name) is Some {
        let i = choose|i: int|
            0 <= i < s.len() && #[trigger] s[i].0 == name && lookup(s, name) == Some(s[i].1)
                && lookup(t, name) == Some(t[i].1);
        assert forall|j: int| 0 <= j < s.len() && #[trigger] s[j].0 == name implies j == i by {
            if j != i {
                lemma_ascending_unique(s, i, j);
            }
        }
    } else {
        assert forall|j: int| 0 <= j < s.len() implies #[trigger] s[j].0 != name by {
            assert(lookup_miss(s, name, j));
        }
    }
}

/// Once no active connection blocks a reload, each active connection is
/// listed in the new configuration with its definition unchanged.
proof fn lemma_no_blocker(s: ManagerView, m: Seq<(Seq<char>, ConnectionView)>, i: int)
    requires
        reload_blocker(s, m) is None,
        0 <= i < s.len(),
        is_active(s[i].1.status.state),
    ensures
        lookup(m, s[i].0) == Some(s[i].1.config),
    decreases i,
{
    if i > 0 {
        lemma_no_blocker(s.drop_first(), m, i - 1);
        assert(s.drop_first()[i - 1] == s[i]);
    }
}

/// An active connection that the new configuration drops or changes
/// blocks the reload.
proof fn lemma_blocker_found(s: ManagerView, m: Seq<(Seq<char>, ConnectionView)>, i: int)
    requires
        0 <= i < s.len(),
        is_active(s[i].1.status.state),
        lookup(m, s[i].0) != Some(s[i].1.config),
    ensures
        reload_blocker(s, m) is Some,
    decreases i,
{
    if i > 0 && reload_blocker(s, m) is None {
        assert(s.drop_first()[i - 1] == s[i]);
        lemma_blocker_found(s.drop_first(), m, i - 1);
    }
}

/// Editing or removing an active connection requires stopping it first:
/// a reload that would drop or change the definition of an active
/// connection is refused, and a reload that goes through leaves every
/// active connection as it was, definition and state.
pub proof fn lemma_reload_spares_active(s: ManagerView, conns: Seq<ConnectionView>, name: Seq<char>)
    requires
        ascending(s),
        names_agree(s),
    ensures
        lookup(s, name) matches Some(e) && is_active(e.status.state) && lookup(
            config_index(conns),
            name,
        ) != Some(e.config) ==> reload_outcome(s, conns) is Err,
        reload_outcome(s, conns) matches Ok(t) ==> (lookup(s, name) matches Some(e) ==> (
        is_active(e.status.state) ==> lookup(t, name) == Some(e))),
{
    let m = config_index(conns);
    lemma_lookup_index(s, name);
    if lookup(s, name) is Some {
        let e = lookup(s, name)->0;
        let i = choose|i: int|
            0 <= i < s.len() && #[trigger] s[i].0 == name && s[i].1 == e && forall|j: int|
                0 <= j < i ==> lookup_miss(s, name, j);
        if is_active(e.status.state) {
            if lookup(m, name) != Some(e.config) {
                lemma_blocker_found(s, m, i);
            }
            if reload_outcome(s, conns) is Ok {
                lemma_no_blocker(s, m, i);
                let t = reloaded(s, m);
                assert forall|j: int| 0 <= j < m.len() implies #[trigger] t[j].0 == m[j].0 by {}
                lemma_lookup_same_keys(m, t, name);
                let j = choose|j: int|
                    0 <= j < m.len() && #[trigger] m[j].0 == name && lookup(m, name) == Some(m[j].1)
                        && lookup(t, name) == Some(t[j].1);
                assert(t[j].1 == carried(lookup(s, m[j].0), m[j].1));
                assert(names_agree(s) ==> s[i].1.status.target == s[i].1.config.target);
            }
        }
    }
}

/// A connection whose session starts or runs is not started again.
pub proof fn lemma_no_second_start(s: ManagerView, name: Seq<char>)
    ensures
        lookup(s, name) matches Some(e) && (e.status.state == ConnectionState::Starting
            || e.status.state == ConnectionState::Running) ==> start_decision(s, name) == Err::<
            ConnectionView,
            ManagerFault<Seq<char>>,
        >(ManagerFault::AlreadyActive(name)),
{
}

/// Stopping one connection leaves every other connection as it was, and
/// the stopped one keeps its definition.
pub proof fn lemma_stop_touches_one(s: ManagerView, name: Seq<char>, other: Seq<char>)
    ensures
        other != name ==> lookup(
            modify(s, name, |e: ManagedView| with_state(e, ConnectionState::Stopping)),
            other,
        ) == lookup(s, other),
        lookup(s, name) matches Some(e) ==> lookup(
            modify(s, name, |e: ManagedView| with_state(e, ConnectionState::Stopping)),
            name,
        ) == Some(with_state(e, ConnectionState::Stopping)),
{
    lemma_modify_lookup(s, name, |e: ManagedView| with_state(e, ConnectionState::Stopping), other);
}

/// A connection that is not starting, running or stopping can be started
/// (again): a stopped one, and one whose last session failed, are launched
/// with their definition; the others are refused.
pub proof fn lemma_start_when_idle(s: ManagerView, name: Seq<char>)
    ensures
        lookup(s, name) matches Some(e) ==> ((e.status.state == ConnectionState::Stopped
            || e.status.state == ConnectionState::Failed) ==> start_decision(s, name) == Ok::<
            ConnectionView,
            ManagerFault<Seq<char>>,
        >(e.config)),
        lookup(s, name) matches Some(e) ==> (e.status.state == ConnectionState::Stopping
            ==> start_decision(s, name) == Err::<ConnectionView, ManagerFault<Seq<char>>>(
            ManagerFault::StillStopping(name),
        )),
        lookup(s, name) is None ==> start_decision(s, name) == Err::<
            ConnectionView,
            ManagerFault<Seq<char>>,
        >(ManagerFault::UnknownConnection(name)),
{
}

/// How a process exit settles a connection: it no longer has a process; it
/// is stopped when it was asked to stop or exited with code 0, and failed
/// otherwise; the error is the one reported, else a nonzero exit code's;
/// its definition, name, target and start time stay.
pub proof fn lemma_exit_settles(e: ManagedView, ev: EventView)
    ensures
        after_exit(e, ev).status.pid is None,
        (ev.stopped_by_request || ev.exit_code == Some(0i32)) ==> after_exit(e, ev).status.state
            == ConnectionState::Stopped,
        !(ev.stopped_by_request || ev.exit_code == Some(0i32)) ==> after_exit(
            e,
            ev,
        ).status.state == ConnectionState::Failed,
        ev.error matches Some(x) ==> after_exit(e, ev).status.last_error == Some(x),
        ev.error is None && (ev.exit_code is None || ev.exit_code == Some(0i32)) ==> after_exit(
            e,
            ev,
        ).status.last_error is None,
        ev.error is None ==> (ev.exit_code matches Some(c) ==> (c != 0 ==> after_exit(
            e,
            ev,
        ).status.last_error is Some)),
        after_exit(e, ev).config == e.config,
        after_exit(e, ev).status.name == e.status.name,
        after_exit(e, ev).status.target == e.status.target,
        after_exit(e, ev).status.keep_on_exit == e.status.keep_on_exit,
        after_exit(e, ev).status.started_at == e.status.started_at,
{
}

/// Only a connection that starts or runs can be stopped; a stopping one is
/// refused as already stopping, a stopped or failed one as not running.
pub proof fn lemma_stop_only_live(s: ManagerView, name: Seq<char>)
    ensures
        lookup(s, name) matches Some(e) ==> ((e.status.state == ConnectionState::Starting
            || e.status.state == ConnectionState::Running) ==> stop_fault(s, name) is None),
        lookup(s, name) matches Some(e) ==> (e.status.state == ConnectionState::Stopping
            ==> stop_fault(s, name) == Some(ManagerFault::AlreadyStopping(name))),
        lookup(s, name) matches Some(e) ==> ((e.status.state == ConnectionState::Stopped
            || e.status.state == ConnectionState::Failed) ==> stop_fault(s, name) == Some(
            ManagerFault::NotRunning(name),
        )),
        lookup(s, name) is None ==> stop_fault(s, name) == Some(
            ManagerFault::UnknownConnection(name),
        ),
{
}

} // verus!
