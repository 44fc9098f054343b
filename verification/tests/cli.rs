use ssmux::cli::{config_command, config_table, find_named, state_label, status_table, ConfigCommand};
use ssmux::config::{Config, ConnectionConfig};
use ssmux::ipc::{ConnectionState, ConnectionStatus};
use ssmux::params::Parameters;

fn connection(name: &str, target: &str) -> ConnectionConfig {
    ConnectionConfig {
        name: name.to_owned(),
        target: target.to_owned(),
        region: Some("us-west-2".to_owned()),
        profile: None,
        document_name: None,
        keep_on_exit: false,
        parameters: Parameters::new(),
        extra_args: vec!["--debug".to_owned()],
    }
}

fn add(name: &str, parameters: &[&str], keep_on_exit: bool) -> ConfigCommand {
    ConfigCommand::Add {
        name: name.to_owned(),
        target: "i-0deadbeefdeadbeef0".to_owned(),
        region: Some("us-west-2".to_owned()),
        profile: None,
        document_name: Some("AWS-StartPortForwardingSessionToRemoteHost".to_owned()),
        keep_on_exit,
        parameters: parameters.iter().map(|p| p.to_string()).collect(),
    }
}

fn edit(name: &str) -> ConfigCommand {
    ConfigCommand::Edit {
        name: name.to_owned(),
        target: None,
        region: None,
        profile: None,
        document_name: None,
        keep_on_exit: false,
        temporary: false,
        parameters: Vec::new(),
        clear_parameters: false,
    }
}

#[test]
fn add_appends_a_new_connection() {
    let mut config = Config { connections: vec![connection("web", "i-2")] };
    let command = add(
        "demo-db",
        &["host=db.example.test", "portNumber=5432", "localPortNumber=15432"],
        true,
    );
    assert!(config_command(&mut config, &command).is_ok());
    assert_eq!(config.connections.len(), 2);
    let c = &config.connections[1];
    assert_eq!(c.name, "demo-db");
    assert!(c.keep_on_exit);
    assert!(c.extra_args.is_empty());
    let keys: Vec<&str> = c.parameters.entries().iter().map(|e| e.0.as_str()).collect();
    assert_eq!(keys, vec!["host", "localPortNumber", "portNumber"]);
}

#[test]
fn add_refuses_a_taken_name_and_bad_parameters() {
    let mut config = Config { connections: vec![connection("web", "i-2")] };
    let e = config_command(&mut config, &add("web", &[], false)).err().unwrap();
    assert_eq!(e.message(), "connection already exists: web");
    let e = config_command(&mut config, &add("db", &["port"], false)).err().unwrap();
    assert_eq!(e.message(), "parameter must use KEY=VALUE: port");
    assert_eq!(config.connections.len(), 1);
}

#[test]
fn remove_undoes_add() {
    let mut config = Config { connections: vec![connection("web", "i-2")] };
    config_command(&mut config, &add("db", &["a=1"], false)).ok().unwrap();
    config_command(&mut config, &ConfigCommand::Remove { name: "db".to_owned() })
        .ok()
        .unwrap();
    assert_eq!(config.connections.len(), 1);
    assert!(config.connections[0].same_as(&connection("web", "i-2")));
}

#[test]
fn remove_and_edit_refuse_unknown_names() {
    let mut config = Config { connections: vec![connection("web", "i-2")] };
    let e = config_command(&mut config, &ConfigCommand::Remove { name: "db".to_owned() })
        .err()
        .unwrap();
    assert_eq!(e.message(), "unknown connection: db");
    let e = config_command(&mut config, &edit("db")).err().unwrap();
    assert_eq!(e.message(), "unknown connection: db");
}

#[test]
fn edit_replaces_only_what_it_is_given() {
    let mut config = Config { connections: vec![connection("web", "i-2"), connection("db", "i-1")] };
    let mut command = edit("db");
    if let ConfigCommand::Edit { target, keep_on_exit, parameters, .. } = &mut command {
        *target = Some("i-9".to_owned());
        *keep_on_exit = true;
        *parameters = vec!["portNumber=22".to_owned()];
    }
    config_command(&mut config, &command).ok().unwrap();
    let c = &config.connections[1];
    assert_eq!(c.target, "i-9");
    assert_eq!(c.region.as_deref(), Some("us-west-2"));
    assert!(c.keep_on_exit);
    assert_eq!(c.parameters.entries()[0], ("portNumber".to_owned(), "22".to_owned()));
    assert_eq!(c.extra_args, vec!["--debug".to_owned()]);

    let mut command = edit("db");
    if let ConfigCommand::Edit { temporary, clear_parameters, .. } = &mut command {
        *temporary = true;
        *clear_parameters = true;
    }
    config_command(&mut config, &command).ok().unwrap();
    let c = &config.connections[1];
    assert!(!c.keep_on_exit);
    assert!(c.parameters.is_empty());
    assert!(config.connections[0].same_as(&connection("web", "i-2")));
}

#[test]
fn list_changes_nothing() {
    let mut config = Config { connections: vec![connection("web", "i-2")] };
    assert!(config_command(&mut config, &ConfigCommand::List).is_ok());
    assert_eq!(config.connections.len(), 1);
}

#[test]
fn find_named_finds_the_first_match() {
    let config = Config { connections: vec![connection("web", "i-2"), connection("db", "i-1")] };
    assert_eq!(find_named(&config, &"db".to_owned()), Some(1));
    assert_eq!(find_named(&config, &"nope".to_owned()), None);
}

#[test]
fn state_labels() {
    assert_eq!(state_label(ConnectionState::Starting), "starting");
    assert_eq!(state_label(ConnectionState::Running), "running");
    assert_eq!(state_label(ConnectionState::Stopping), "stopping");
    assert_eq!(state_label(ConnectionState::Stopped), "stopped");
    assert_eq!(state_label(ConnectionState::Failed), "failed");
}

#[test]
fn status_table_lays_out_columns_and_errors() {
    let statuses = vec![
        ConnectionStatus {
            name: "db".to_owned(),
            target: "i-1".to_owned(),
            keep_on_exit: true,
            state: ConnectionState::Running,
            pid: Some(4242),
            started_at: Some(1),
            last_error: None,
        },
        ConnectionStatus {
            name: "web".to_owned(),
            target: "i-2".to_owned(),
            keep_on_exit: false,
            state: ConnectionState::Failed,
            pid: None,
            started_at: None,
            last_error: Some("AWS session exited with code 255".to_owned()),
        },
    ];
    let lines = status_table(&statuses);
    assert_eq!(lines.len(), 5);
    assert_eq!(
        lines[0],
        format!("{:<18} {:<10} {:<24} {:<8} {:<6}", "NAME", "STATE", "TARGET", "PID", "MODE")
    );
    assert_eq!(lines[1], "─".repeat(74));
    assert_eq!(
        lines[2],
        format!("{:<18} {:<10} {:<24} {:<8} {:<12}", "db", "running", "i-1", "4242", "background")
    );
    assert_eq!(
        lines[3],
        format!("{:<18} {:<10} {:<24} {:<8} {:<12}", "web", "failed", "i-2", "-", "temporary")
    );
    assert_eq!(lines[4], "  error: AWS session exited with code 255");
    assert_eq!(status_table(&Vec::new()), vec!["no connections configured".to_owned()]);
}

#[test]
fn config_table_lists_mode_target_and_region() {
    let mut db = connection("db", "i-1");
    db.region = None;
    db.keep_on_exit = true;
    let lines = config_table(&vec![connection("web", "i-2"), db]);
    assert_eq!(lines.len(), 4);
    assert_eq!(
        lines[0],
        format!("{:<18} {:<10} {:<24} {:<18}", "NAME", "MODE", "TARGET", "REGION")
    );
    assert_eq!(
        lines[2],
        format!("{:<18} {:<10} {:<24} {:<18}", "web", "temporary", "i-2", "us-west-2")
    );
    assert_eq!(
        lines[3],
        format!("{:<18} {:<10} {:<24} {:<18}", "db", "background", "i-1", "-")
    );
    assert_eq!(config_table(&Vec::new()), vec!["no connections configured".to_owned()]);
}
