use server_manager::chat::{ChatList, ChatMap, Chat};
use server_manager::cli::{client_config_of, FormatChecker};
use server_manager::client::{telegram_params, Message as InboundMessage, EchoHandler};
use server_manager::config::ClientConfig;
use server_manager::telegram::{
    advance_offset, message_source, updates_result, Chat as TgChat, Message, SendMessageDto,
    TelegramResponse, Update, User,
};
use server_manager::text::{contains_str, i64_to_string, split_whitespace, str_eq};

fn tg_user() -> User {
    User { id: 1, is_bot: false, first_name: "u".to_string() }
}

fn tg_chat(id: i64) -> TgChat {
    TgChat {
        id,
        kind: "private".to_string(),
        title: None,
        username: None,
        first_name: None,
        last_name: None,
        is_forum: None,
        is_direct_messages: None,
    }
}

fn tg_message(chat_id: i64, text: Option<&str>) -> Message {
    Message {
        message_id: 10,
        message_thread_id: None,
        from: tg_user(),
        date: 0,
        chat: tg_chat(chat_id),
        text: text.map(|t| t.to_string()),
    }
}

fn update_with_message(update_id: i64, chat_id: i64, text: Option<&str>) -> Update {
    Update {
        update_id,
        message: Some(tg_message(chat_id, text)),
        edited_message: None,
        callback_query: None,
    }
}

#[test]
fn split_whitespace_matches_tokens() {
    let toks = split_whitespace("  a\tbb   c ");
    assert_eq!(toks, vec!["a".to_string(), "bb".to_string(), "c".to_string()]);
    assert_eq!(split_whitespace("").len(), 0);
    assert_eq!(split_whitespace("   ").len(), 0);
}

#[test]
fn str_eq_and_contains() {
    assert!(str_eq("abc", "abc"));
    assert!(!str_eq("abc", "abd"));
    assert!(!str_eq("abc", "ab"));
    assert!(contains_str("ERROR boom", "boom"));
    assert!(contains_str("anything", ""));
    assert!(!contains_str("INFO ok", "ERROR"));
}

#[test]
fn decimal_formatting_matches_display() {
    assert_eq!(i64_to_string(0), "0");
    assert_eq!(i64_to_string(100), "100");
    assert_eq!(i64_to_string(-42), "-42");
    assert_eq!(i64_to_string(i64::MAX), i64::MAX.to_string());
    assert_eq!(i64_to_string(i64::MIN), i64::MIN.to_string());
}

#[test]
fn format_checkers_accept_and_reject() {
    assert!(FormatChecker::Name.valid("api-1"));
    assert!(!FormatChecker::Name.valid(""));
    assert!(!FormatChecker::Name.valid("a b"));
    assert!(FormatChecker::BaseUrl.valid("http://localhost:8080"));
    assert!(FormatChecker::BaseUrl.valid("https://host1"));
    assert!(!FormatChecker::BaseUrl.valid("localhost:8080"));
    assert!(!FormatChecker::BaseUrl.valid("http://two hosts"));
    assert!(FormatChecker::NotAllowWhitespace.valid("t0ken-x"));
    assert!(!FormatChecker::NotAllowWhitespace.valid("to ken"));
    assert!(FormatChecker::AnyText.valid("docker logs api"));
}

#[test]
fn client_kind_resolution() {
    let telegram = client_config_of("main", "telegram", Some("tok".to_string()));
    assert!(telegram.is_some());
    assert_eq!(telegram.as_ref().unwrap().kind, "telegram");
    assert!(client_config_of("main", "slack", Some("tok".to_string())).is_none());
    assert!(client_config_of("main", "telegram", None).is_none());

    let config = ClientConfig::new_telegram("main", "tok");
    let params = telegram_params(&config).unwrap();
    assert_eq!(params.0, "main");
    assert_eq!(params.1, "tok");
}

#[test]
fn echo_handler_replies_with_the_text() {
    let handler = EchoHandler::new();
    let message = InboundMessage::new("tg".to_string(), "c1".to_string(), "hi".to_string());
    assert_eq!(handler.response(&message), "hi");
}

#[test]
fn advance_offset_tracks_the_maximum() {
    let updates = vec![
        update_with_message(7, 1, Some("a")),
        update_with_message(12, 1, Some("b")),
        update_with_message(9, 1, Some("c")),
    ];
    assert_eq!(advance_offset(3, &updates), 13);
    assert_eq!(advance_offset(3, &Vec::new()), 3);
}

#[test]
fn message_source_extracts_chat_and_text() {
    let update = update_with_message(1, 4242, Some("/health"));
    assert_eq!(message_source(&update), Some(("4242".to_string(), "/health".to_string())));
    let empty_text = update_with_message(2, -7, None);
    assert_eq!(message_source(&empty_text), Some(("-7".to_string(), "".to_string())));
    let nothing = Update { update_id: 3, message: None, edited_message: None, callback_query: None };
    assert_eq!(message_source(&nothing), None);
}

#[test]
fn updates_result_checks_the_envelope() {
    let good = TelegramResponse {
        ok: true,
        result: vec![update_with_message(1, 1, Some("x"))],
        error_code: None,
        description: None,
    };
    assert_eq!(updates_result(good).unwrap().len(), 1);
    let bad = TelegramResponse {
        ok: false,
        result: Vec::new(),
        error_code: Some(401),
        description: Some("Unauthorized".to_string()),
    };
    match updates_result(bad) {
        Err(m) => assert_eq!(m, "[TelegramClient] status: 401 Unauthorized"),
        Ok(_) => panic!("expected an error"),
    }
}

#[test]
fn send_message_dto_keeps_fields() {
    let dto = SendMessageDto::new("chat9", "hello", None);
    assert_eq!(dto.chat_id, "chat9");
    assert_eq!(dto.text, "hello");
    assert!(dto.reply_markup.is_none());
}

#[test]
fn chat_map_lookup_by_pair() {
    let mut list = ChatList::new();
    list.chats.push(Chat::new("tg".to_string(), "u1".to_string()));
    list.chats.push(Chat::new("tg".to_string(), "u2".to_string()));
    let expected = list.chats[0].id.clone();
    let map = ChatMap::from(list);
    assert!(map.contains("tg", "u1"));
    assert!(!map.contains("tg", "u3"));
    assert_eq!(map.get_id("tg", "u1"), Some(expected.as_str()));
    assert_eq!(map.get_id("slack", "u1"), None);
}

#[test]
fn unicode_whitespace_separates_tokens() {
    let toks = split_whitespace("a\u{a0}b\u{2003}c");
    assert_eq!(toks, vec!["a".to_string(), "b".to_string(), "c".to_string()]);
    assert!(!FormatChecker::NotAllowWhitespace.valid("a\u{a0}b"));
}

#[test]
fn chat_map_keeps_the_later_entry_for_a_pair() {
    let mut list = ChatList::new();
    list.chats.push(Chat {
        id: "older".to_string(),
        client_name: "tg".to_string(),
        identity: "u1".to_string(),
    });
    list.chats.push(Chat {
        id: "newer".to_string(),
        client_name: "tg".to_string(),
        identity: "u1".to_string(),
    });
    let map = ChatMap::from(list);
    assert_eq!(map.get_id("tg", "u1"), Some("newer"));
}
