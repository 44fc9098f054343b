use ssmux::config::{Config, ConnectionConfig};
use ssmux::daemon::{ConnectionManager, Dispatch, ManagerFault, ProcessEvent};
use ssmux::ipc::{ConnectionState, ConnectionStatus, Request, Response};
use ssmux::params::Parameters;

fn connection(name: &str, target: &str, keep_on_exit: bool) -> ConnectionConfig {
    ConnectionConfig {
        name: name.to_owned(),
        target: target.to_owned(),
        region: None,
        profile: None,
        document_name: None,
        keep_on_exit,
        parameters: Parameters::new(),
        extra_args: Vec::new(),
    }
}

fn manager() -> ConnectionManager {
    ConnectionManager::new(&Config {
        connections: vec![
            connection("web", "i-2", false),
            connection("db", "i-1", true),
            connection("cache", "i-3", false),
        ],
    })
}

fn status<'a>(statuses: &'a [ConnectionStatus], name: &str) -> &'a ConnectionStatus {
    statuses.iter().find(|s| s.name == name).unwrap()
}

fn reply(d: Dispatch) -> (Response, Vec<String>) {
    match d {
        Dispatch::Reply { response, cancel } => (response, cancel),
        _ => panic!("expected a reply"),
    }
}

fn run(m: &mut ConnectionManager, name: &str, pid: u32) {
    match m.handle_request(&Request::Start { name: name.to_owned() }) {
        Dispatch::Launch { name: n, config } => {
            assert_eq!(n, name);
            assert_eq!(config.name, name);
            let r = m.finish_start(name, Some(Some(pid)), 1_700_000_000);
            assert!(r.ok);
            assert_eq!(r.message, format!("started {name}"));
        }
        _ => panic!("expected a launch"),
    }
}

#[test]
fn new_manager_lists_connections_stopped_in_name_order() {
    let m = manager();
    let s = m.statuses();
    let names: Vec<&str> = s.iter().map(|x| x.name.as_str()).collect();
    assert_eq!(names, vec!["cache", "db", "web"]);
    assert!(s.iter().all(|x| x.state == ConnectionState::Stopped && x.pid.is_none()));
    assert!(status(&s, "db").keep_on_exit);
    assert_eq!(status(&s, "web").target, "i-2");
}

#[test]
fn ping_and_status_answer_with_every_state() {
    let mut m = manager();
    let (r, cancel) = reply(m.handle_request(&Request::Ping));
    assert!(r.ok);
    assert_eq!(r.message, "daemon is running");
    assert_eq!(r.statuses.len(), 3);
    assert!(cancel.is_empty());
    let (r, _) = reply(m.handle_request(&Request::Status));
    assert_eq!(r.message, "status retrieved");
}

#[test]
fn a_started_connection_runs_with_its_pid() {
    let mut m = manager();
    run(&mut m, "db", 42);
    let s = m.statuses();
    let db = status(&s, "db");
    assert_eq!(db.state, ConnectionState::Running);
    assert_eq!(db.pid, Some(42));
    assert_eq!(db.started_at, Some(1_700_000_000));
}

#[test]
fn a_running_connection_is_not_started_twice() {
    let mut m = manager();
    run(&mut m, "db", 42);
    let (r, _) = reply(m.handle_request(&Request::Start { name: "db".to_owned() }));
    assert!(!r.ok);
    assert_eq!(r.message, "connection db is already active");
    assert!(r.statuses.is_empty());
}

#[test]
fn unknown_names_are_refused() {
    let mut m = manager();
    let (r, _) = reply(m.handle_request(&Request::Start { name: "nope".to_owned() }));
    assert_eq!(r.message, "unknown connection: nope");
    let (r, _) = reply(m.handle_request(&Request::Stop { name: "nope".to_owned() }));
    assert_eq!(r.message, "unknown connection: nope");
}

#[test]
fn a_failed_spawn_changes_nothing() {
    let mut m = manager();
    let r = m.finish_start("db", None, 5);
    assert!(!r.ok);
    assert_eq!(r.message, "starting AWS session for db");
    assert_eq!(status(&m.statuses(), "db").state, ConnectionState::Stopped);
}

#[test]
fn stop_marks_only_that_connection_stopping() {
    let mut m = manager();
    run(&mut m, "db", 1);
    run(&mut m, "web", 2);
    let (r, cancel) = reply(m.handle_request(&Request::Stop { name: "db".to_owned() }));
    assert!(r.ok);
    assert_eq!(r.message, "stopping db");
    assert_eq!(cancel, vec!["db".to_owned()]);
    let s = m.statuses();
    assert_eq!(status(&s, "db").state, ConnectionState::Stopping);
    assert_eq!(status(&s, "web").state, ConnectionState::Running);
    let (r, _) = reply(m.handle_request(&Request::Stop { name: "db".to_owned() }));
    assert_eq!(r.message, "connection db is already stopping");
    let (r, _) = reply(m.handle_request(&Request::Start { name: "db".to_owned() }));
    assert_eq!(r.message, "connection db is still stopping");
    let (r, _) = reply(m.handle_request(&Request::Stop { name: "cache".to_owned() }));
    assert_eq!(r.message, "connection cache is not running");
}

#[test]
fn tui_exit_keeps_background_connections_alive() {
    let mut m = manager();
    run(&mut m, "db", 1);
    run(&mut m, "web", 2);
    let (r, cancel) = reply(m.handle_request(&Request::TuiExit));
    assert!(r.ok);
    assert_eq!(r.message, "stopping 1 temporary connection(s)");
    assert_eq!(cancel, vec!["web".to_owned()]);
    let s = m.statuses();
    assert_eq!(status(&s, "db").state, ConnectionState::Running);
    assert_eq!(status(&s, "db").pid, Some(1));
    assert_eq!(status(&s, "web").state, ConnectionState::Stopping);
    assert_eq!(status(&s, "cache").state, ConnectionState::Stopped);
}

#[test]
fn stop_all_stops_every_running_connection() {
    let mut m = manager();
    run(&mut m, "db", 1);
    run(&mut m, "web", 2);
    let (r, cancel) = reply(m.handle_request(&Request::StopAll));
    assert_eq!(r.message, "stopping 2 connection(s)");
    assert_eq!(cancel, vec!["db".to_owned(), "web".to_owned()]);
    assert!(m
        .statuses()
        .iter()
        .filter(|s| s.name != "cache")
        .all(|s| s.state == ConnectionState::Stopping));
}

#[test]
fn shutdown_cancels_every_live_session() {
    let mut m = manager();
    run(&mut m, "db", 1);
    let names = m.shutdown();
    assert_eq!(names, vec!["db".to_owned()]);
    assert_eq!(status(&m.statuses(), "db").state, ConnectionState::Stopping);
}

#[test]
fn process_exits_settle_the_state() {
    let mut m = manager();
    run(&mut m, "db", 1);
    run(&mut m, "web", 2);
    assert!(m.handle_process_event(&ProcessEvent {
        name: "db".to_owned(),
        stopped_by_request: false,
        exit_code: Some(255),
        error: None,
    }));
    assert!(m.handle_process_event(&ProcessEvent {
        name: "web".to_owned(),
        stopped_by_request: false,
        exit_code: Some(0),
        error: None,
    }));
    assert!(!m.handle_process_event(&ProcessEvent {
        name: "ghost".to_owned(),
        stopped_by_request: true,
        exit_code: None,
        error: None,
    }));
    let s = m.statuses();
    let db = status(&s, "db");
    assert_eq!(db.state, ConnectionState::Failed);
    assert_eq!(db.pid, None);
    assert_eq!(db.last_error.as_deref(), Some("AWS session exited with code 255"));
    let web = status(&s, "web");
    assert_eq!(web.state, ConnectionState::Stopped);
    assert_eq!(web.last_error, None);
}

#[test]
fn a_requested_stop_ends_stopped_and_keeps_a_reported_error() {
    let mut m = manager();
    run(&mut m, "db", 1);
    m.stop("db").ok().unwrap();
    m.handle_process_event(&ProcessEvent {
        name: "db".to_owned(),
        stopped_by_request: true,
        exit_code: Some(-1),
        error: Some("waiting for AWS session failed".to_owned()),
    });
    let s = m.statuses();
    assert_eq!(status(&s, "db").state, ConnectionState::Stopped);
    assert_eq!(
        status(&s, "db").last_error.as_deref(),
        Some("waiting for AWS session failed")
    );
}

#[test]
fn reload_refuses_to_change_an_active_connection() {
    let mut m = manager();
    run(&mut m, "db", 1);
    let changed = Config {
        connections: vec![connection("db", "i-9", true), connection("web", "i-2", false)],
    };
    let r = m.finish_reload(Ok(changed));
    assert!(!r.ok);
    assert_eq!(
        r.message,
        "cannot reload active connection db; stop it before changing or removing it"
    );
    assert_eq!(m.statuses().len(), 3);
    let dropped = Config { connections: vec![connection("web", "i-2", false)] };
    assert!(matches!(m.reload(&dropped), Err(ManagerFault::ReloadActive(n)) if n == "db"));
}

#[test]
fn reload_keeps_active_connections_and_takes_the_rest() {
    let mut m = manager();
    run(&mut m, "db", 1);
    let next = Config {
        connections: vec![
            connection("db", "i-1", true),
            connection("web", "i-22", true),
            connection("new", "i-4", false),
        ],
    };
    let r = m.finish_reload(Ok(next));
    assert!(r.ok);
    assert_eq!(r.message, "configuration reloaded");
    let s = m.statuses();
    let names: Vec<&str> = s.iter().map(|x| x.name.as_str()).collect();
    assert_eq!(names, vec!["db", "new", "web"]);
    assert_eq!(status(&s, "db").state, ConnectionState::Running);
    assert_eq!(status(&s, "db").pid, Some(1));
    assert_eq!(status(&s, "web").target, "i-22");
    assert!(status(&s, "web").keep_on_exit);
    assert_eq!(status(&s, "new").state, ConnectionState::Stopped);
}

#[test]
fn reload_reports_read_errors_and_invalid_files() {
    let mut m = manager();
    let r = m.finish_reload(Err("parsing configuration failed".to_owned()));
    assert!(!r.ok);
    assert_eq!(r.message, "parsing configuration failed");
    let r = m.finish_reload(Ok(Config { connections: vec![connection("x", "", false)] }));
    assert_eq!(r.message, "connection x has an empty target");
    assert_eq!(m.statuses().len(), 3);
}

#[test]
fn reload_request_asks_for_the_file() {
    let mut m = manager();
    assert!(matches!(m.handle_request(&Request::Reload), Dispatch::LoadConfig));
}

#[test]
fn responses_carry_what_they_were_given() {
    let r = Response::error("boom".to_owned());
    assert!(!r.ok);
    assert_eq!(r.message, "boom");
    let r = Response::ok("fine".to_owned(), Vec::new());
    assert!(r.ok);
}
