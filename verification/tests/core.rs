use gitter_core::catalog::normalize;
use gitter_core::config::config_path;
use gitter_core::json::encode_text_body;
use gitter_core::ledger::MessageStore;
use gitter_core::model::Mention;
use gitter_core::model::Message;
use gitter_core::model::Room;
use gitter_core::model::Url;
use gitter_core::model::User;
use gitter_core::present::keep_polling;
use gitter_core::present::message_line;
use gitter_core::present::notification_text;
use gitter_core::present::should_notify;
use gitter_core::present::SnapshotPoll;
use gitter_core::session::MessageHandler;

fn user(username: &str) -> User {
    User {
        id: format!("u-{}", username),
        username: username.to_string(),
        display_name: username.to_string(),
        url: format!("/{}", username),
        avatar_url_small: String::new(),
        avatar_url_medium: String::new(),
    }
}

fn msg(id: &str, text: &str) -> Message {
    Message {
        id: id.to_string(),
        text: text.to_string(),
        html: text.to_string(),
        sent: "2014-03-25T11:51:32.289Z".to_string(),
        from_user: user("alice"),
        unread: false,
        read_by: 0,
        urls: Vec::new(),
        mentions: Vec::new(),
        v: 1,
    }
}

fn msg_with_mentions(id: &str, text: &str, mentions: &[&str]) -> Message {
    let mut m = msg(id, text);
    m.mentions = mentions
        .iter()
        .map(|s| Mention { screen_name: s.to_string() })
        .collect();
    m
}

fn room(name: &str, one_to_one: bool) -> Room {
    Room {
        id: format!("r-{}", name),
        name: name.to_string(),
        topic: String::new(),
        url: format!("/{}", name),
        one_to_one,
        mentions: 0,
        github_type: if one_to_one { "ONETOONE".to_string() } else { "REPO".to_string() },
        lurk: false,
    }
}

fn ids(messages: &[Message]) -> Vec<String> {
    messages.iter().map(|m| m.id.clone()).collect()
}

fn names(rooms: &[Room]) -> Vec<String> {
    rooms.iter().map(|r| r.name.clone()).collect()
}

#[test]
fn new_store_is_empty() {
    let store = MessageStore::new();
    assert!(store.messages.is_empty());
    assert_eq!(store.last_new_message_id, "");
}

#[test]
fn first_fetch_is_all_new() {
    // ledger empty, fetch [A, B, C] with ids 1, 2, 3
    let mut store = MessageStore::new();
    store.set_messages(vec![msg("1", "A"), msg("2", "B"), msg("3", "C")]);
    assert_eq!(ids(&store.messages), vec!["1", "2", "3"]);
    assert_eq!(store.last_new_message_id, "3");
}

#[test]
fn incremental_fetch_yields_only_the_new_tail() {
    // watermark 3, fetch [A, B, C, D] with ids 1, 2, 3, 4
    let mut store = MessageStore::new();
    store.set_messages(vec![msg("1", "A"), msg("2", "B"), msg("3", "C")]);
    store.set_messages(vec![msg("1", "A"), msg("2", "B"), msg("3", "C"), msg("4", "D")]);
    assert_eq!(ids(&store.messages), vec!["4"]);
    assert_eq!(store.last_new_message_id, "4");
}

#[test]
fn stale_watermark_reemits_the_whole_page() {
    // watermark 99 never appears in the page, so everything is new again
    let mut store = MessageStore::new();
    store.set_messages(vec![msg("99", "old")]);
    assert_eq!(store.last_new_message_id, "99");
    store.set_messages(vec![msg("4", "D"), msg("5", "E")]);
    assert_eq!(ids(&store.messages), vec!["4", "5"]);
    assert_eq!(store.last_new_message_id, "5");
}

#[test]
fn reconcile_twice_is_idempotent() {
    let mut store = MessageStore::new();
    let page = vec![msg("1", "A"), msg("2", "B"), msg("3", "C")];
    store.set_messages(page.clone());
    store.set_messages(page);
    assert!(store.messages.is_empty());
    assert_eq!(store.last_new_message_id, "3");
}

#[test]
fn unseen_page_is_returned_in_fetch_order() {
    let mut store = MessageStore::new();
    let page = vec![msg("10", "m1"), msg("11", "m2"), msg("12", "m3"), msg("13", "m4")];
    let news = store.transform_messages(page.clone());
    assert_eq!(news, page);
}

#[test]
fn watermark_advances_to_the_newest_id() {
    let mut store = MessageStore::new();
    store.set_messages(vec![msg("1", "A"), msg("2", "B")]);
    // only one message is new, the watermark still jumps to the newest id
    store.set_messages(vec![msg("2", "B"), msg("3", "C")]);
    assert_eq!(ids(&store.messages), vec!["3"]);
    assert_eq!(store.last_new_message_id, "3");
}

#[test]
fn empty_fetch_changes_nothing() {
    let mut store = MessageStore::new();
    store.set_messages(vec![msg("1", "A"), msg("2", "B")]);
    store.set_messages(Vec::new());
    assert_eq!(ids(&store.messages), vec!["1", "2"]);
    assert_eq!(store.last_new_message_id, "2");
}

#[test]
fn transform_leaves_the_ledger_unchanged() {
    let mut store = MessageStore::new();
    store.set_messages(vec![msg("1", "A")]);
    let news = store.transform_messages(vec![msg("1", "A"), msg("2", "B")]);
    assert_eq!(ids(&news), vec!["2"]);
    assert_eq!(ids(&store.messages), vec!["1"]);
    assert_eq!(store.last_new_message_id, "1");
}

#[test]
fn duplicate_watermark_ids_cut_at_the_newest_occurrence() {
    let mut store = MessageStore::new();
    store.set_messages(vec![msg("7", "A")]);
    let news = store.transform_messages(vec![msg("7", "A"), msg("8", "B"), msg("7", "C"), msg("9", "D")]);
    assert_eq!(ids(&news), vec!["9"]);
}

#[test]
fn normalize_sorts_and_moves_one_to_one_rooms_last() {
    let rooms = vec![room("Zeta", false), room("Alpha", true), room("Beta", false)];
    let out = normalize(rooms);
    assert_eq!(names(&out), vec!["Beta", "Zeta", "Alpha"]);
}

#[test]
fn normalize_keeps_every_room_exactly_once() {
    let rooms = vec![
        room("delta", true),
        room("bravo", false),
        room("alpha", true),
        room("charlie", false),
        room("alpha", false),
    ];
    let out = normalize(rooms);
    assert_eq!(names(&out), vec!["alpha", "bravo", "charlie", "alpha", "delta"]);
}

#[test]
fn normalize_is_case_sensitive_by_codepoint() {
    // capital letters order before lowercase ones
    let rooms = vec![room("alpha", false), room("Beta", false)];
    let out = normalize(rooms);
    assert_eq!(names(&out), vec!["Beta", "alpha"]);
}

#[test]
fn normalize_is_stable_for_equal_names() {
    let mut first = room("same", false);
    first.id = "first".to_string();
    let mut second = room("same", false);
    second.id = "second".to_string();
    let out = normalize(vec![first, second]);
    let out_ids: Vec<String> = out.iter().map(|r| r.id.clone()).collect();
    assert_eq!(out_ids, vec!["first", "second"]);
}

#[test]
fn normalize_of_nothing_is_nothing() {
    let out = normalize(Vec::new());
    assert!(out.is_empty());
}

#[test]
fn blank_outgoing_text_produces_no_request() {
    // whitespace-only text is dropped before any network call
    let handler = MessageHandler::new(&"room1".to_string(), &"tok".to_string());
    assert!(handler.outgoing_request("   ").is_none());
    assert!(handler.outgoing_request("").is_none());
    assert!(handler.outgoing_request("\t\r\n").is_none());
}

#[test]
fn outgoing_request_targets_the_active_room() {
    let handler = MessageHandler::new(&"room1".to_string(), &"tok".to_string());
    let request = handler.outgoing_request("hello").expect("not blank");
    assert_eq!(request.url, "https://api.gitter.im/v1/rooms/room1/chatMessages");
    assert_eq!(request.body, "{\"text\": \"hello\"}");
}

#[test]
fn switching_rooms_redirects_the_next_poll() {
    let mut handler = MessageHandler::new(&"room1".to_string(), &"tok".to_string());
    assert_eq!(
        handler.messages_url(),
        "https://api.gitter.im/v1/rooms/room1/chatMessages?limit=15"
    );
    handler.set_current_room_id("room2".to_string());
    assert_eq!(
        handler.messages_url(),
        "https://api.gitter.im/v1/rooms/room2/chatMessages?limit=15"
    );
    assert_eq!(handler.token, "tok");
}

#[test]
fn message_bodies_are_json_escaped() {
    assert_eq!(
        encode_text_body("a\"b\\c\nd"),
        "{\"text\": \"a\\\"b\\\\c\\nd\"}"
    );
    assert_eq!(encode_text_body("\r\t"), "{\"text\": \"\\r\\t\"}");
    assert_eq!(
        encode_text_body("\u{8}\u{c}"),
        "{\"text\": \"\\b\\f\"}"
    );
    assert_eq!(
        encode_text_body("\u{1}\u{1f}"),
        "{\"text\": \"\\u0001\\u001f\"}"
    );
    assert_eq!(encode_text_body(""), "{\"text\": \"\"}");
}

#[test]
fn encoded_bodies_parse_back_to_the_text() {
    let texts = ["plain", "a\"b\\c\nd", "\u{1} tab\there", "snowman \u{2603}"];
    for text in texts {
        let body = encode_text_body(text);
        let value: serde_json::Value = serde_json::from_str(&body).expect("valid json");
        assert_eq!(value["text"].as_str(), Some(text));
    }
}

#[test]
fn notification_fires_on_a_leading_mention() {
    let message = msg_with_mentions("1", "hi @bob", &["bob"]);
    assert!(should_notify(&message, "bob"));
    assert_eq!(notification_text(&message), "Message from user alice!");
}

#[test]
fn no_notification_without_a_leading_mention() {
    assert!(!should_notify(&msg("1", "hi"), "bob"));
    let trailing = msg_with_mentions("2", "hi @carol @bob", &["carol", "bob"]);
    assert!(!should_notify(&trailing, "bob"));
}

#[test]
fn message_lines_show_author_and_text() {
    let message = msg("1", "hello there");
    assert_eq!(message_line(&message), "@alice: hello there");
}

#[test]
fn tick_stops_only_on_a_closed_channel() {
    assert!(keep_polling(&SnapshotPoll::Ready));
    assert!(keep_polling(&SnapshotPoll::Pending));
    assert!(!keep_polling(&SnapshotPoll::Closed));
}

#[test]
fn config_is_sought_under_home_first() {
    assert_eq!(
        config_path(Some("/home/u")),
        "/home/u/.gitter_gtk/config.yaml"
    );
    assert_eq!(config_path(None), "./config.yaml");
}

#[test]
fn model_values_round_trip_through_clone() {
    let mut message = msg_with_mentions("1", "text", &["bob"]);
    message.urls = vec![Url { url: "https://example.test".to_string() }];
    assert_eq!(message.clone(), message);
    let r = room("alpha", true);
    assert_eq!(r.clone(), r);
}
