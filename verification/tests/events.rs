use server_manager::config::EventConfig;
use server_manager::event::{
    Event, EventKind, EventManager, EventMessage, EventTask, HealthEventChecker, LogEventChecker,
};
use server_manager::health::Health;
use server_manager::subscribe::EventSubscribeList;

fn event_config(kind: &str, name: &str, target: &str, keyword: &str) -> EventConfig {
    EventConfig {
        kind: kind.to_string(),
        name: name.to_string(),
        target: target.to_string(),
        keyword: keyword.to_string(),
    }
}

#[test]
fn health_watcher_emits_on_matching_keyword() {
    let checker = HealthEventChecker::new();
    let health = Health::Unknown("connection refused".to_string());
    let hit = checker.check_cycle("api", "refused", &health);
    let message = hit.expect("expected a match");
    assert_eq!(message.event_name, "api");
    assert_eq!(message.text, "Keyword 'refused' found in health check of server 'api'");
}

#[test]
fn health_watcher_stays_quiet_without_match() {
    let checker = HealthEventChecker::new();
    assert!(checker.check_cycle("api", "refused", &Health::Healthy).is_none());
    assert!(checker.check_cycle("api", "refused", &Health::Down).is_none());
}

#[test]
fn log_watcher_emits_once_for_two_line_stream() {
    let checker = LogEventChecker::new();
    let lines = ["INFO ok", "ERROR boom"];
    let mut emitted: Vec<EventMessage> = Vec::new();
    for line in lines.iter() {
        if let Some(m) = checker.check_line("api", "ERROR", line) {
            emitted.push(m);
        }
    }
    assert_eq!(emitted.len(), 1);
    assert!(emitted[0].text.contains("boom"));
    assert_eq!(emitted[0].text, "Keyword 'ERROR' found in logs of server 'api'\nLog: ERROR boom");
}

#[test]
fn event_from_recognizes_kinds() {
    let log_event = Event::from(event_config("logs", "e1", "api", "ERROR"));
    assert!(matches!(
        log_event.event_kind,
        EventKind::Log { ref server_name, ref keyword } if server_name == "api" && keyword == "ERROR"
    ));
    let health_event = Event::from(event_config("health", "e2", "api", "Down"));
    assert!(matches!(health_event.event_kind, EventKind::Health { .. }));
    let other = Event::from(event_config("metrics", "e3", "api", "x"));
    assert!(matches!(other.event_kind, EventKind::Unrecognized));
}

#[test]
fn event_task_checks_by_kind() {
    let task = EventTask {
        event: Event::from(event_config("health", "watch-api", "api", "refused")),
    };
    let hit = task.check("connection refused");
    assert!(hit.is_some());
    assert_eq!(hit.unwrap().event_name, "api");
    assert!(task.check("all good").is_none());

    let quiet = EventTask { event: Event::from(event_config("nope", "x", "api", "refused")) };
    assert!(quiet.check("connection refused").is_none());
}

#[test]
fn event_manager_resolves_subscribers() {
    let events = vec![event_config("logs", "disk-full", "api", "ERROR")];
    let mut subs = EventSubscribeList::new();
    subs.subscribe(&events, "chat1".to_string(), "disk-full".to_string()).unwrap();
    subs.subscribe(&events, "chat2".to_string(), "disk-full".to_string()).unwrap();

    let manager = EventManager::new();
    let message = EventMessage { event_name: "disk-full".to_string(), text: "boom".to_string() };
    let recipients = manager.handle(&message, &subs);
    assert_eq!(recipients, vec!["chat1".to_string(), "chat2".to_string()]);

    let unknown = EventMessage { event_name: "other".to_string(), text: "boom".to_string() };
    assert_eq!(manager.handle(&unknown, &subs).len(), 0);
}
