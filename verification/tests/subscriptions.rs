use server_manager::command::AlarmCommand;
use server_manager::config::EventConfig;
use server_manager::handler::execute_alarm;
use server_manager::subscribe::EventSubscribeList;

fn sample_events() -> Vec<EventConfig> {
    vec![
        EventConfig {
            kind: "logs".to_string(),
            name: "disk-full".to_string(),
            target: "api".to_string(),
            keyword: "ERROR".to_string(),
        },
        EventConfig {
            kind: "health".to_string(),
            name: "api-down".to_string(),
            target: "api".to_string(),
            keyword: "Down".to_string(),
        },
    ]
}

#[test]
fn subscribe_unknown_event_fails_and_changes_nothing() {
    let events = sample_events();
    let mut subs = EventSubscribeList::new();
    let r = subs.subscribe(&events, "chat1".to_string(), "no-such".to_string());
    assert_eq!(r.unwrap_err(), "Event 'no-such' does not exist in configuration");
    assert_eq!(subs.subscribes.len(), 0);
}

#[test]
fn subscribe_adds_exactly_one_chat_id() {
    let events = sample_events();
    let mut subs = EventSubscribeList::new();
    subs.subscribe(&events, "chat1".to_string(), "disk-full".to_string()).unwrap();
    assert_eq!(subs.subscribes.len(), 1);
    assert_eq!(subs.subscribes[0].event_name, "disk-full");
    assert_eq!(subs.subscribes[0].chat_ids, vec!["chat1".to_string()]);
}

#[test]
fn subscribe_twice_is_idempotent() {
    let events = sample_events();
    let mut subs = EventSubscribeList::new();
    subs.subscribe(&events, "chat1".to_string(), "disk-full".to_string()).unwrap();
    subs.subscribe(&events, "chat1".to_string(), "disk-full".to_string()).unwrap();
    assert_eq!(subs.subscribes.len(), 1);
    assert_eq!(subs.subscribes[0].chat_ids.len(), 1);
}

#[test]
fn unsubscribe_absent_chat_is_a_no_op() {
    let events = sample_events();
    let mut subs = EventSubscribeList::new();
    subs.subscribe(&events, "chat1".to_string(), "disk-full".to_string()).unwrap();
    subs.unsubscribe("disk-full", "someone-else");
    subs.unsubscribe("no-such-event", "chat1");
    assert_eq!(subs.subscribes.len(), 1);
    assert_eq!(subs.subscribes[0].chat_ids, vec!["chat1".to_string()]);
}

#[test]
fn unsubscribe_removes_the_chat() {
    let events = sample_events();
    let mut subs = EventSubscribeList::new();
    subs.subscribe(&events, "chat1".to_string(), "disk-full".to_string()).unwrap();
    subs.subscribe(&events, "chat2".to_string(), "disk-full".to_string()).unwrap();
    subs.unsubscribe("disk-full", "chat1");
    assert_eq!(subs.subscribes[0].chat_ids, vec!["chat2".to_string()]);
    assert!(!subs.contains("disk-full", "chat1"));
    assert!(subs.contains("disk-full", "chat2"));
}

#[test]
fn find_subscribed_events_lists_names_in_order() {
    let events = sample_events();
    let mut subs = EventSubscribeList::new();
    subs.subscribe(&events, "chat1".to_string(), "disk-full".to_string()).unwrap();
    subs.subscribe(&events, "chat1".to_string(), "api-down".to_string()).unwrap();
    subs.subscribe(&events, "chat2".to_string(), "api-down".to_string()).unwrap();
    let names = subs.find_subscribed_events("chat1");
    assert_eq!(names, vec!["disk-full".to_string(), "api-down".to_string()]);
    assert_eq!(subs.find_subscribed_events("chat3").len(), 0);
}

#[test]
fn list_subscribed_event_returns_the_definitions() {
    let events = sample_events();
    let mut subs = EventSubscribeList::new();
    subs.subscribe(&events, "chat1".to_string(), "api-down".to_string()).unwrap();
    let listed = subs.list_subscribed_event(&events, "chat1");
    assert_eq!(listed.len(), 1);
    assert_eq!(listed[0].name, "api-down");
    assert_eq!(listed[0].kind, "health");
}

#[test]
fn find_subscribe_looks_up_by_name() {
    let events = sample_events();
    let mut subs = EventSubscribeList::new();
    subs.subscribe(&events, "chat1".to_string(), "disk-full".to_string()).unwrap();
    assert!(subs.find_subscribe("disk-full").is_some());
    assert!(subs.find_subscribe("api-down").is_none());
    let entry = subs.find_subscribe_mut("disk-full").unwrap();
    entry.chat_ids.push("chat9".to_string());
    assert!(subs.find_subscribe("disk-full").unwrap().contains("chat9"));
}

#[test]
fn alarm_add_responses() {
    let events = sample_events();
    let mut subs = EventSubscribeList::new();
    let ok = execute_alarm(&AlarmCommand::Add("disk-full".to_string()), &mut subs, &events, "c1");
    assert_eq!(ok, "Successfully subscribed");
    let bad = execute_alarm(&AlarmCommand::Add("nope".to_string()), &mut subs, &events, "c1");
    assert_eq!(bad, "[Err] Event 'nope' does not exist in configuration");
}

#[test]
fn alarm_remove_and_list_responses() {
    let events = sample_events();
    let mut subs = EventSubscribeList::new();
    execute_alarm(&AlarmCommand::Add("disk-full".to_string()), &mut subs, &events, "c1");
    let listed = execute_alarm(&AlarmCommand::List, &mut subs, &events, "c1");
    assert_eq!(
        listed,
        "--- list ---\n---\nname: disk-full\ntype: logs\ntarget: api\nkeyword: ERROR"
    );
    let removed = execute_alarm(&AlarmCommand::Remove("disk-full".to_string()), &mut subs, &events, "c1");
    assert_eq!(removed, "Successfully removed");
    let empty = execute_alarm(&AlarmCommand::List, &mut subs, &events, "c1");
    assert_eq!(empty, "--- list ---\n");
}
