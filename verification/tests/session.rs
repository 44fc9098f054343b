use ssmux::config::{Config, ConnectionConfig};
use ssmux::params::Parameters;
use ssmux::session::{ConnectionState, ConnectionStatus, SessionFault, SessionManager, StopStep, WaitOutcome};

fn connection(name: &str, target: &str, document: Option<&str>) -> ConnectionConfig {
    ConnectionConfig {
        name: name.to_owned(),
        target: target.to_owned(),
        region: None,
        profile: None,
        document_name: document.map(|d| d.to_owned()),
        keep_on_exit: false,
        parameters: Parameters::new(),
        extra_args: Vec::new(),
    }
}

fn sessions() -> SessionManager {
    SessionManager::new(&Config {
        connections: vec![
            connection("web", "i-2", None),
            connection("db", "i-1", Some("AWS-StartPortForwardingSession")),
        ],
    })
}

fn status<'a>(statuses: &'a [ConnectionStatus], name: &str) -> &'a ConnectionStatus {
    statuses.iter().find(|s| s.name == name).unwrap()
}

#[test]
fn sessions_start_stopped_in_name_order() {
    let m = sessions();
    let s = m.statuses();
    assert_eq!(s[0].name, "db");
    assert_eq!(s[1].name, "web");
    assert_eq!(s[0].document_name.as_deref(), Some("AWS-StartPortForwardingSession"));
    assert!(s.iter().all(|x| x.state == ConnectionState::Stopped));
}

#[test]
fn a_started_session_cannot_start_again() {
    let mut m = sessions();
    let c = m.start("db").ok().unwrap();
    assert_eq!(c.target, "i-1");
    m.record_started("db", Some(7), 100);
    let st = m.statuses();
    assert_eq!(status(&st, "db").state, ConnectionState::Running);
    assert_eq!(status(&st, "db").pid, Some(7));
    let e = m.start("db").err().unwrap();
    assert!(matches!(e, SessionFault::AlreadyActive(ref n) if n == "db"));
    assert_eq!(e.message(), "connection db is already active");
}

#[test]
fn stopping_a_session_with_a_process_kills_it_first() {
    let mut m = sessions();
    m.record_started("db", Some(7), 100);
    assert!(matches!(m.stop("db"), Ok(StopStep::Kill)));
    assert_eq!(status(&m.statuses(), "db").state, ConnectionState::Running);
    m.mark_stopping("db");
    assert_eq!(status(&m.statuses(), "db").state, ConnectionState::Stopping);
    m.record_wait("db", &WaitOutcome::Exited { success: false, code: Some(1) });
    let st = m.statuses();
    assert_eq!(status(&st, "db").state, ConnectionState::Stopped);
    assert_eq!(status(&st, "db").last_error, None);
    assert_eq!(status(&st, "db").pid, None);
}

#[test]
fn a_session_that_fails_on_its_own_reports_why() {
    let mut m = sessions();
    m.record_started("web", Some(9), 100);
    m.record_wait("web", &WaitOutcome::Running);
    assert_eq!(status(&m.statuses(), "web").state, ConnectionState::Running);
    m.record_wait("web", &WaitOutcome::Exited { success: false, code: Some(2) });
    let st = m.statuses();
    assert_eq!(status(&st, "web").state, ConnectionState::Failed);
    assert_eq!(status(&st, "web").last_error.as_deref(), Some("AWS session exited with code 2"));
    m.record_started("web", Some(10), 200);
    m.record_wait("web", &WaitOutcome::Exited { success: false, code: None });
    assert_eq!(
        status(&m.statuses(), "web").last_error.as_deref(),
        Some("AWS session terminated by signal")
    );
    m.record_started("web", Some(11), 300);
    m.record_wait("web", &WaitOutcome::Error("no such process".to_owned()));
    assert_eq!(status(&m.statuses(), "web").last_error.as_deref(), Some("no such process"));
}

#[test]
fn stopping_what_does_not_run_is_refused() {
    let mut m = sessions();
    let e = m.stop("db").err().unwrap();
    assert_eq!(e.message(), "connection db is not running");
    let e = m.stop("nope").err().unwrap();
    assert_eq!(e.message(), "unknown connection: nope");
}

#[test]
fn reload_refuses_to_drop_or_edit_an_active_session() {
    let mut m = sessions();
    m.record_started("db", Some(7), 100);
    let dropped = Config { connections: vec![connection("web", "i-2", None)] };
    let e = m.reload_config(&dropped).err().unwrap();
    assert_eq!(e.message(), "cannot remove active connection db; stop it first");
    let edited = Config {
        connections: vec![connection("db", "i-99", None), connection("web", "i-2", None)],
    };
    let e = m.reload_config(&edited).err().unwrap();
    assert_eq!(e.message(), "cannot edit active connection db; stop it first");
    assert_eq!(status(&m.statuses(), "db").target, "i-1");
}

#[test]
fn reload_keeps_running_sessions_and_adds_new_ones() {
    let mut m = sessions();
    m.record_started("db", Some(7), 100);
    let next = Config {
        connections: vec![
            connection("db", "i-1", Some("AWS-StartPortForwardingSession")),
            connection("api", "i-5", None),
        ],
    };
    assert!(m.reload_config(&next).is_ok());
    let st = m.statuses();
    assert_eq!(st.len(), 2);
    assert_eq!(st[0].name, "api");
    assert_eq!(status(&st, "db").state, ConnectionState::Running);
    assert_eq!(status(&st, "db").pid, Some(7));
}

#[test]
fn reload_refuses_an_invalid_configuration() {
    let mut m = sessions();
    let bad = Config { connections: vec![connection("a", "i", None), connection("a", "j", None)] };
    let e = m.reload_config(&bad).err().unwrap();
    assert_eq!(e.message(), "duplicate connection name: a");
}

#[test]
fn shutdown_gives_up_every_temporary_process() {
    let mut m = sessions();
    m.record_started("db", Some(7), 100);
    let names = m.shutdown();
    assert_eq!(names, vec!["db".to_owned()]);
    assert!(m.shutdown().is_empty());
}

#[test]
fn keep_on_exit_sessions_outlive_the_tui() {
    let mut background = connection("db", "i-1", Some("AWS-StartPortForwardingSession"));
    background.keep_on_exit = true;
    let mut m = SessionManager::new(&Config {
        connections: vec![background, connection("web", "i-2", None)],
    });
    m.record_started("db", Some(7), 100);
    m.record_started("web", Some(8), 100);
    assert_eq!(m.shutdown(), vec!["web".to_owned()]);
    assert!(matches!(m.stop("db"), Ok(StopStep::Kill)));
    assert!(matches!(m.stop("web"), Ok(StopStep::Stopped)));
    assert_eq!(m.shutdown(), Vec::<String>::new());
}
