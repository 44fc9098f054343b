use ssmux::config::{example_config, parse_parameters, Config, ConfigFault, ConnectionConfig};
use ssmux::params::Parameters;

fn connection(name: &str, target: &str) -> ConnectionConfig {
    ConnectionConfig {
        name: name.to_owned(),
        target: target.to_owned(),
        region: None,
        profile: None,
        document_name: None,
        keep_on_exit: false,
        parameters: Parameters::new(),
        extra_args: Vec::new(),
    }
}

fn config(connections: Vec<ConnectionConfig>) -> Config {
    Config { connections }
}

fn texts(values: &[&str]) -> Vec<String> {
    values.iter().map(|v| v.to_string()).collect()
}

fn message_of(result: Result<(), ssmux::config::ConfigError>) -> String {
    match result {
        Ok(()) => String::new(),
        Err(e) => e.message(),
    }
}

#[test]
fn a_sound_configuration_validates() {
    let c = config(vec![connection("a", "i-1"), connection("b", "i-2")]);
    assert!(c.validate().is_ok());
    assert!(Config::empty().validate().is_ok());
}

#[test]
fn blank_names_are_refused() {
    let c = config(vec![connection("  ", "i-1")]);
    assert!(matches!(c.validate(), Err(ConfigFault::EmptyName)));
    assert_eq!(message_of(c.validate()), "connection names cannot be empty");
}

#[test]
fn blank_targets_are_refused() {
    let c = config(vec![connection("db", " \t")]);
    assert_eq!(message_of(c.validate()), "connection db has an empty target");
}

#[test]
fn duplicate_names_are_refused() {
    let c = config(vec![connection("db", "i-1"), connection("db", "i-2")]);
    assert_eq!(message_of(c.validate()), "duplicate connection name: db");
}

#[test]
fn blank_parameters_are_refused() {
    let mut db = connection("db", "i-1");
    db.parameters.insert("host".to_owned(), "  ".to_owned());
    let c = config(vec![db]);
    assert_eq!(
        message_of(c.validate()),
        "connection db has an empty parameter name or value"
    );
}

#[test]
fn the_first_fault_in_file_order_is_reported() {
    let c = config(vec![
        connection("a", "i-1"),
        connection("b", ""),
        connection("", "i-3"),
    ]);
    assert_eq!(message_of(c.validate()), "connection b has an empty target");
}

#[test]
fn load_keeps_a_valid_configuration_and_refuses_an_invalid_one() {
    let loaded = Config::load(config(vec![connection("a", "i-1")])).ok().unwrap();
    assert_eq!(loaded.connections.len(), 1);
    assert_eq!(loaded.connections[0].name, "a");
    assert!(Config::load(config(vec![connection("", "i-1")])).is_err());
}

#[test]
fn a_missing_file_gives_the_empty_configuration() {
    let c = Config::load_or_default(None).ok().unwrap();
    assert!(c.connections.is_empty());
    let found = Config::load_or_default(Some(config(vec![connection("a", "i-1")])))
        .ok()
        .unwrap();
    assert_eq!(found.connections[0].target, "i-1");
}

#[test]
fn parameters_parse_into_key_order() {
    let p = parse_parameters(&texts(&["portNumber=22", "host=db.example.test"]))
        .ok()
        .unwrap();
    let entries = p.entries();
    assert_eq!(entries.len(), 2);
    assert_eq!(entries[0], ("host".to_owned(), "db.example.test".to_owned()));
    assert_eq!(entries[1], ("portNumber".to_owned(), "22".to_owned()));
}

#[test]
fn a_value_may_hold_an_equals_sign() {
    let p = parse_parameters(&texts(&["query=a=b"])).ok().unwrap();
    assert_eq!(p.entries()[0], ("query".to_owned(), "a=b".to_owned()));
}

#[test]
fn parameter_faults_name_the_argument() {
    let e = parse_parameters(&texts(&["host"])).err().unwrap();
    assert_eq!(e.message(), "parameter must use KEY=VALUE: host");
    let e = parse_parameters(&texts(&[" =1"])).err().unwrap();
    assert_eq!(e.message(), "parameter must have a non-empty key and value:  =1");
    let e = parse_parameters(&texts(&["a=1", "a=2"])).err().unwrap();
    assert_eq!(e.message(), "duplicate parameter: a");
}

#[test]
fn no_arguments_give_no_parameters() {
    assert!(parse_parameters(&Vec::new()).ok().unwrap().is_empty());
}

#[test]
fn the_template_holds_a_background_demo_connection() {
    let text = example_config();
    assert!(text.starts_with("# ssmux connection configuration\n"));
    let parsed: toml::Value = toml::from_str(text).unwrap();
    let connections = parsed["connections"].as_array().unwrap();
    assert_eq!(connections.len(), 1);
    let demo = &connections[0];
    assert_eq!(demo["name"].as_str(), Some("demo-stage"));
    assert_eq!(demo["target"].as_str(), Some("i-0deadbeefdeadbeef0"));
    assert_eq!(demo["region"].as_str(), Some("us-west-2"));
    assert_eq!(demo["document_name"].as_str(), Some("AWS-StartPortForwardingSession"));
    assert_eq!(demo["keep_on_exit"].as_bool(), Some(true));
    assert_eq!(demo["parameters"]["portNumber"].as_str(), Some("22"));
    assert_eq!(demo["parameters"]["localPortNumber"].as_str(), Some("10022"));
    assert!(demo.get("profile").is_none());
}

#[test]
fn other_fault_messages() {
    assert_eq!(
        ConfigFault::AlreadyExists("db".to_owned()).message(),
        "connection already exists: db"
    );
    assert_eq!(
        ConfigFault::UnknownConnection("db".to_owned()).message(),
        "unknown connection: db"
    );
}

#[test]
fn a_read_gives_back_the_last_write() {
    let mut p = Parameters::new();
    assert_eq!(p.insert("host".to_owned(), "a".to_owned()), None);
    assert_eq!(p.insert("port".to_owned(), "22".to_owned()), None);
    assert_eq!(p.insert("host".to_owned(), "b".to_owned()), Some("a".to_owned()));
    assert_eq!(p.len(), 2);
    assert_eq!(p.entries()[0], ("host".to_owned(), "b".to_owned()));
    assert_eq!(p.entries()[1], ("port".to_owned(), "22".to_owned()));
}

#[test]
fn insertion_order_does_not_change_the_parameters() {
    let mut a = Parameters::new();
    a.insert("x".to_owned(), "1".to_owned());
    a.insert("y".to_owned(), "2".to_owned());
    let mut b = Parameters::new();
    b.insert("y".to_owned(), "2".to_owned());
    b.insert("x".to_owned(), "1".to_owned());
    assert!(a.same_as(&b));
    assert_eq!(a.entries(), b.entries());
}

#[test]
fn dropping_or_reordering_connections_keeps_a_configuration_valid() {
    let all = config(vec![connection("a", "i-1"), connection("b", "i-2"), connection("c", "i-3")]);
    assert!(all.validate().is_ok());
    let kept = config(vec![connection("c", "i-3"), connection("a", "i-1")]);
    assert!(kept.validate().is_ok());
}
