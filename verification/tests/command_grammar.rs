use server_manager::command::{AlarmCommand, Command};
use server_manager::text::parse_i32;

#[test]
fn health_with_name_parses() {
    match Command::parse("/health main") {
        Command::HealthCheck(name) => assert_eq!(name, "main"),
        _ => panic!("wrong command"),
    }
}

#[test]
fn health_alone_parses_to_all() {
    assert!(matches!(Command::parse("/health"), Command::HealthCheckAll));
}

#[test]
fn logs_with_integer_parses() {
    match Command::parse("/logs main 100") {
        Command::Logs(name, n) => {
            assert_eq!(name, "main");
            assert_eq!(n, 100);
        },
        _ => panic!("wrong command"),
    }
}

#[test]
fn logs_with_bad_integer_parses_to_nothing() {
    assert!(matches!(Command::parse("/logs main ten"), Command::Nothing));
    assert!(matches!(Command::parse("/logs main 1.5"), Command::Nothing));
    assert!(matches!(Command::parse("/logs main 99999999999999"), Command::Nothing));
    assert!(matches!(Command::parse("/logs main "), Command::Nothing));
}

#[test]
fn alarm_commands_parse() {
    assert!(matches!(
        Command::parse("/alarm add disk-full"),
        Command::Alarm(AlarmCommand::Add(n)) if n == "disk-full"
    ));
    assert!(matches!(
        Command::parse("/alarm remove disk-full"),
        Command::Alarm(AlarmCommand::Remove(n)) if n == "disk-full"
    ));
    assert!(matches!(Command::parse("/alarm list"), Command::Alarm(AlarmCommand::List)));
    assert!(matches!(Command::parse("/alarm"), Command::Alarm(AlarmCommand::List)));
}

#[test]
fn unknown_text_parses_to_nothing() {
    assert!(matches!(Command::parse("hello there"), Command::Nothing));
    assert!(matches!(Command::parse(""), Command::Nothing));
    assert!(matches!(Command::parse("/Health main"), Command::Nothing));
    assert!(matches!(Command::parse("/health a b"), Command::Nothing));
    assert!(matches!(Command::parse("/alarm drop x"), Command::Nothing));
}

#[test]
fn whitespace_between_tokens_is_ignored() {
    match Command::parse("  /logs   main\t42 ") {
        Command::Logs(name, n) => {
            assert_eq!(name, "main");
            assert_eq!(n, 42);
        },
        _ => panic!("wrong command"),
    }
}

#[test]
fn parse_i32_accepts_what_std_accepts() {
    assert_eq!(parse_i32("42"), Some(42));
    assert_eq!(parse_i32("+17"), Some(17));
    assert_eq!(parse_i32("-5"), Some(-5));
    assert_eq!(parse_i32("0007"), Some(7));
    assert_eq!(parse_i32("2147483647"), Some(i32::MAX));
    assert_eq!(parse_i32("-2147483648"), Some(i32::MIN));
}

#[test]
fn parse_i32_rejects_what_std_rejects() {
    assert_eq!(parse_i32(""), None);
    assert_eq!(parse_i32("+"), None);
    assert_eq!(parse_i32("-"), None);
    assert_eq!(parse_i32("12a"), None);
    assert_eq!(parse_i32(" 12"), None);
    assert_eq!(parse_i32("2147483648"), None);
    assert_eq!(parse_i32("-2147483649"), None);
    assert_eq!(parse_i32("184467440737095516160"), None);
}

#[test]
fn unicode_whitespace_separates_command_tokens() {
    match Command::parse("/health\u{a0}main") {
        Command::HealthCheck(name) => assert_eq!(name, "main"),
        _ => panic!("wrong command"),
    }
}
