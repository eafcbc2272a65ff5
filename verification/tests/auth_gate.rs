use server_manager::auth::AuthAdapter;
use server_manager::chat::ChatList;
use server_manager::handler::{handle_register, route_message, HandlerAction};

fn gate_with_password(password: Option<&str>) -> AuthAdapter {
    AuthAdapter::from_parts(password.map(|p| p.to_string()), ChatList::new())
}

#[test]
fn test_register_password_not_required() {
    let mut gate = gate_with_password(None);
    let response = handle_register(&mut gate, "telegram", "user123", "testpass");
    assert_eq!(response, "Password is not required");
    assert_eq!(gate.chat_list.chats.len(), 0);
}

#[test]
fn test_register_valid_password() {
    let mut gate = gate_with_password(Some("correctpass"));
    let response = handle_register(&mut gate, "telegram", "user123", "correctpass");
    assert_eq!(response, "Successfully registered.");
    assert_eq!(gate.chat_list.chats.len(), 1);
    assert_eq!(gate.chat_list.chats[0].client_name, "telegram");
    assert_eq!(gate.chat_list.chats[0].identity, "user123");
}

#[test]
fn test_register_invalid_password() {
    let mut gate = gate_with_password(Some("correctpass"));
    let response = handle_register(&mut gate, "telegram", "user123", "wrongpass");
    assert_eq!(response, "Invalid password. Usage: /register <password>");
    assert_eq!(gate.chat_list.chats.len(), 0);
}

#[test]
fn test_authenticate_registered_user() {
    let mut gate = gate_with_password(Some("correctpass"));
    gate.register("telegram".to_string(), "user123".to_string()).unwrap();
    let action = route_message(&mut gate, "telegram", "user123", "/health");
    match action {
        HandlerAction::Execute(_, _) => (),
        HandlerAction::Reply(m) => panic!("unexpected reply: {}", m),
    }
}

#[test]
fn test_authenticate_unregistered_user() {
    let mut gate = gate_with_password(Some("correctpass"));
    let action = route_message(&mut gate, "telegram", "user123", "/health");
    match action {
        HandlerAction::Reply(m) => {
            assert_eq!(m, "Registration required. Usage: /register <password>")
        },
        HandlerAction::Execute(_, _) => panic!("unexpected execution"),
    }
}

#[test]
fn test_no_password_allows_all_users() {
    let mut gate = gate_with_password(None);
    let action = route_message(&mut gate, "telegram", "user123", "/health");
    match action {
        HandlerAction::Execute(_, id) => assert_eq!(id, "user123"),
        HandlerAction::Reply(m) => panic!("unexpected reply: {}", m),
    }
}

#[test]
fn test_validate_password_correct() {
    let gate = gate_with_password(Some("correctpass"));
    assert!(gate.validate_password("correctpass".to_string()));
}

#[test]
fn test_validate_password_incorrect() {
    let gate = gate_with_password(Some("correctpass"));
    assert!(!gate.validate_password("wrongpass".to_string()));
}

#[test]
fn test_password_required_with_password() {
    let gate = gate_with_password(Some("testpass"));
    assert!(gate.password_required());
}

#[test]
fn test_password_required_without_password() {
    let gate = gate_with_password(None);
    assert!(!gate.password_required());
}

#[test]
fn test_register_persists_to_file() {
    let mut gate = gate_with_password(Some("testpass"));
    gate.register("telegram".to_string(), "user123".to_string()).unwrap();
    assert_eq!(gate.chat_list.chats.len(), 1);
    assert_eq!(gate.chat_list.chats[0].client_name, "telegram");
    assert_eq!(gate.chat_list.chats[0].identity, "user123");
    assert!(!gate.chat_list.chats[0].id.is_empty());
}

#[test]
fn test_register_multiple_users() {
    let mut gate = gate_with_password(Some("testpass"));
    gate.register("telegram".to_string(), "user123".to_string()).unwrap();
    gate.register("slack".to_string(), "user456".to_string()).unwrap();
    gate.register("discord".to_string(), "user789".to_string()).unwrap();
    assert_eq!(gate.chat_list.chats.len(), 3);
    assert_eq!(gate.chat_list.chats[0].client_name, "telegram");
    assert_eq!(gate.chat_list.chats[1].client_name, "slack");
    assert_eq!(gate.chat_list.chats[2].client_name, "discord");
}

#[test]
fn test_authenticate_with_persisted_data() {
    let mut gate = gate_with_password(Some("testpass"));
    gate.register("telegram".to_string(), "user123".to_string()).unwrap();
    assert!(gate.authenticate("telegram".to_string(), "user123".to_string()).is_some());
    assert!(gate.authenticate("telegram".to_string(), "unregistered".to_string()).is_none());
}

#[test]
fn test_chat_map_caching() {
    let mut gate = gate_with_password(Some("testpass"));
    gate.register("telegram".to_string(), "user123".to_string()).unwrap();
    assert!(gate.authenticate("telegram".to_string(), "user123".to_string()).is_some());
    gate.register("slack".to_string(), "user456".to_string()).unwrap();
    assert!(gate.authenticate("telegram".to_string(), "user123".to_string()).is_some());
    assert!(gate.authenticate("slack".to_string(), "user456".to_string()).is_some());
}

#[test]
fn registration_is_idempotent() {
    let mut gate = gate_with_password(Some("testpass"));
    gate.register("telegram".to_string(), "user123".to_string()).unwrap();
    let id_before = gate.authenticate("telegram".to_string(), "user123".to_string()).unwrap();
    gate.register("telegram".to_string(), "user123".to_string()).unwrap();
    assert_eq!(gate.chat_list.chats.len(), 1);
    let id_after = gate.authenticate("telegram".to_string(), "user123".to_string()).unwrap();
    assert_eq!(id_before, id_after);
}

#[test]
fn register_flow_is_idempotent_end_to_end() {
    let mut gate = gate_with_password(Some("pw"));
    let first = handle_register(&mut gate, "telegram", "chat7", "pw");
    let second = handle_register(&mut gate, "telegram", "chat7", "pw");
    assert_eq!(first, "Successfully registered.");
    assert_eq!(second, "Successfully registered.");
    assert_eq!(gate.chat_list.chats.len(), 1);
}

#[test]
fn fresh_ids_are_uuid_shaped() {
    let chat = server_manager::chat::Chat::new("telegram".to_string(), "user1".to_string());
    assert_eq!(chat.id.len(), 36);
    assert_eq!(chat.id.chars().filter(|c| *c == '-').count(), 4);
}
