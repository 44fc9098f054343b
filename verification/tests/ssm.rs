use ssmux::config::ConnectionConfig;
use ssmux::params::Parameters;
use ssmux::ssm::{command_for, is_interactive, parameters_argument};

fn parameters(pairs: &[(&str, &str)]) -> Parameters {
    let mut p = Parameters::new();
    for (k, v) in pairs {
        p.insert(k.to_string(), v.to_string());
    }
    p
}

fn demo() -> ConnectionConfig {
    ConnectionConfig {
        name: "demo".to_owned(),
        target: "i-123".to_owned(),
        region: Some("us-west-2".to_owned()),
        profile: Some("staging".to_owned()),
        document_name: Some("AWS-StartPortForwardingSession".to_owned()),
        keep_on_exit: false,
        parameters: parameters(&[("localPortNumber", "10022"), ("portNumber", "22")]),
        extra_args: Vec::new(),
    }
}

#[test]
fn config_requires_expected_ssm_arguments() {
    let config = demo();
    assert_eq!(
        parameters_argument(&config.parameters).as_deref(),
        Some("localPortNumber=10022,portNumber=22")
    );
}

#[test]
fn parameters_come_out_in_key_order() {
    let p = parameters(&[("portNumber", "22"), ("host", "db"), ("localPortNumber", "10022")]);
    assert_eq!(
        parameters_argument(&p).as_deref(),
        Some("host=db,localPortNumber=10022,portNumber=22")
    );
}

#[test]
fn no_parameters_give_no_argument() {
    assert_eq!(parameters_argument(&Parameters::new()), None);
}

#[test]
fn command_line_orders_profile_region_target_document_parameters_extras() {
    let mut config = demo();
    config.extra_args = vec!["--debug".to_owned()];
    let line = command_for(&config);
    assert_eq!(line.program, "aws");
    assert_eq!(
        line.args,
        vec![
            "--profile",
            "staging",
            "--region",
            "us-west-2",
            "ssm",
            "start-session",
            "--target",
            "i-123",
            "--document-name",
            "AWS-StartPortForwardingSession",
            "--parameters",
            "localPortNumber=10022,portNumber=22",
            "--debug",
        ]
    );
}

#[test]
fn command_line_without_options() {
    let config = ConnectionConfig {
        name: "shell".to_owned(),
        target: "i-9".to_owned(),
        region: None,
        profile: None,
        document_name: None,
        keep_on_exit: false,
        parameters: Parameters::new(),
        extra_args: Vec::new(),
    };
    let line = command_for(&config);
    assert_eq!(line.args, vec!["ssm", "start-session", "--target", "i-9"]);
    assert!(is_interactive(&config));
}

#[test]
fn interactive_documents() {
    let mut config = demo();
    assert!(!is_interactive(&config));
    config.document_name = Some("AWS-StartInteractiveCommand".to_owned());
    assert!(is_interactive(&config));
}
