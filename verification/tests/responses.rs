use server_manager::handler::{
    err_response, health_all_response, health_response, invalid_command_message, join_strings,
    logs_response, registration_required_message,
};
use server_manager::health::Health;

#[test]
fn health_response_names_server_and_label() {
    let r = health_response("main", &Health::Healthy);
    assert_eq!(r, "===\nServer: main\n Health: Healthy");
    assert!(r.contains("Server: main"));
}

#[test]
fn health_all_response_joins_lines() {
    let results = vec![
        ("api".to_string(), Health::Healthy),
        ("db".to_string(), Health::Down),
    ];
    let r = health_all_response(&results);
    assert_eq!(r, "===\nServer: api\nHealth: Healthy\n===\nServer: db\nHealth: Down");
    assert_eq!(health_all_response(&Vec::new()), "");
}

#[test]
fn logs_response_falls_back_when_absent() {
    assert_eq!(logs_response(Some("line1\nline2".to_string())), "line1\nline2");
    assert_eq!(logs_response(None), "Logs are not available.");
}

#[test]
fn fixed_messages() {
    assert!(invalid_command_message().starts_with("Invalid or unknown command."));
    assert!(invalid_command_message().contains("/logs <server_name> <lines>"));
    assert!(invalid_command_message().contains("/health (server_name)"));
    assert_eq!(
        registration_required_message(),
        "Registration required. Usage: /register <password>"
    );
    assert_eq!(err_response("boom"), "[Err] boom");
}

#[test]
fn join_strings_uses_the_separator() {
    let items = vec!["a".to_string(), "b".to_string(), "c".to_string()];
    assert_eq!(join_strings(&items, "\n\n"), "a\n\nb\n\nc");
    assert_eq!(join_strings(&vec!["solo".to_string()], "\n"), "solo");
    assert_eq!(join_strings(&Vec::new(), "\n"), "");
}
