use ssmux::config::{Config, ConnectionConfig};
use ssmux::params::Parameters;
use ssmux::session::{ConnectionState, ConnectionStatus};
use ssmux::tui::app::App;
use ssmux::tui::layout::{
    centered_fixed_rect, centered_width_rect, delete_prompt, display_width, document_choices,
    dropdown_area, form_height, selected_details, table_widths, Area,
};

fn status(name: &str, document: Option<&str>) -> ConnectionStatus {
    ConnectionStatus {
        name: name.to_owned(),
        target: "i-1".to_owned(),
        document_name: document.map(|d| d.to_owned()),
        state: ConnectionState::Stopped,
        pid: None,
        started_at: None,
        last_error: None,
    }
}

fn listing() -> Vec<ConnectionStatus> {
    vec![status("db", None), status("web", Some("AWS-StartPortForwardingSession"))]
}

fn area(x: u16, y: u16, width: u16, height: u16) -> Area {
    Area { x, y, width, height }
}

#[test]
fn wide_screens_keep_the_natural_widths() {
    assert_eq!(table_widths(120, &listing()), [20, 10, 22, 32, 7, 14]);
    assert_eq!(table_widths(200, &Vec::new()), [20, 10, 22, 24, 7, 14]);
}

#[test]
fn narrow_screens_shrink_error_document_target_then_name() {
    let w = table_widths(100, &listing());
    assert_eq!(w, [19, 10, 20, 30, 7, 12]);
    assert_eq!(w.iter().map(|x| u32::from(*x)).sum::<u32>(), 98);
}

#[test]
fn no_column_goes_below_its_minimum() {
    assert_eq!(table_widths(10, &listing()), [18, 10, 18, 20, 7, 8]);
    assert_eq!(table_widths(0, &Vec::new()), [18, 10, 18, 20, 7, 8]);
}

#[test]
fn long_names_are_capped() {
    let long = "n".repeat(80);
    let w = table_widths(400, &vec![status(&long, Some(&"d".repeat(80)))]);
    assert_eq!(w[0], 36);
    assert_eq!(w[3], 50);
}

#[test]
fn widths_count_characters() {
    assert_eq!(display_width("aé"), 2);
    assert_eq!(display_width(""), 0);
}

#[test]
fn popups_are_centred() {
    assert_eq!(centered_fixed_rect(90, 20, area(0, 0, 100, 50)), area(5, 15, 90, 20));
    assert_eq!(centered_width_rect(60, 6, area(2, 1, 40, 4)), area(2, 1, 40, 4));
    assert_eq!(centered_width_rect(32, 6, area(0, 0, 80, 24)), area(24, 9, 32, 6));
}

#[test]
fn the_delete_dialog_fits_its_question() {
    let (message, width) = delete_prompt("db");
    assert_eq!(message, "Delete connection 'db'?");
    assert_eq!(width, 32);
    let (_, width) = delete_prompt(&"x".repeat(30));
    assert_eq!(width, 59);
    let (_, width) = delete_prompt(&"x".repeat(60));
    assert_eq!(width, 60);
}

#[test]
fn the_form_asks_for_its_rows() {
    assert_eq!(form_height(5, 1, None), 16);
    assert_eq!(form_height(5, 3, Some(4)), 26);
    assert_eq!(form_height(40000, 0, None), 65535);
}

#[test]
fn the_document_list_marks_the_choice() {
    let options = vec![String::new(), "AWS-X".to_owned()];
    assert_eq!(
        document_choices(&options, 1),
        vec!["  (none)".to_owned(), "▶ AWS-X".to_owned()]
    );
}

#[test]
fn the_document_list_stays_on_screen() {
    let screen = area(0, 0, 80, 24);
    assert_eq!(dropdown_area(screen, area(5, 10, 100, 2), 4), area(5, 12, 78, 6));
    assert_eq!(dropdown_area(screen, area(5, 20, 40, 2), 4), area(5, 18, 40, 6));
}

#[test]
fn details_show_the_selected_connection() {
    let mut parameters = Parameters::new();
    parameters.insert("port".to_owned(), "1".to_owned());
    parameters.insert("host".to_owned(), "a".to_owned());
    let db = ConnectionConfig {
        name: "db".to_owned(),
        target: "i-1".to_owned(),
        region: Some("us-west-2".to_owned()),
        profile: None,
        document_name: Some("AWS-StartPortForwardingSession".to_owned()),
        keep_on_exit: false,
        parameters,
        extra_args: Vec::new(),
    };
    let app = App::new(Config { connections: vec![db] });
    let rows = selected_details(&app).unwrap();
    let expected = [
        ("NAME", "db"),
        ("STATE", "stopped"),
        ("TARGET", "i-1"),
        ("REGION", "us-west-2"),
        ("PROFILE", "-"),
        ("DOCUMENT", "AWS-StartPortForwardingSession"),
        ("PARAMETERS", "host=a, port=1"),
    ];
    assert_eq!(rows.len(), expected.len());
    for (row, (label, value)) in rows.iter().zip(expected.iter()) {
        assert_eq!(row.0, *label);
        assert_eq!(row.1, *value);
    }
    let empty = App::new(Config { connections: Vec::new() });
    assert!(selected_details(&empty).is_none());
}
