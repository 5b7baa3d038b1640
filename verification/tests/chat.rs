use fssota::chat::{Chat, Message, RECENT_MESSAGES};
use fssota::objects::Player;

fn sender(name: &str) -> Player {
    Player::new(String::from(name), 1, 2, '*')
}

fn texts(messages: &[Message]) -> Vec<String> {
    messages.iter().map(|m| m.text().to_string()).collect()
}

fn log_of(words: &[&str]) -> Chat {
    let mut chat = Chat::new();
    for word in words {
        chat.add_new_message(Message::new(sender("Alice"), word));
    }
    chat
}

#[test]
fn recent_of_a_short_log_is_the_whole_log() {
    let chat = log_of(&["hi", "there", "ok"]);
    assert_eq!(texts(&chat.recent(5)), vec!["hi", "there", "ok"]);
}

#[test]
fn recent_is_the_tail_oldest_first() {
    let chat = log_of(&["1", "2", "3", "4", "5", "6", "7"]);
    assert_eq!(texts(&chat.recent(5)), vec!["3", "4", "5", "6", "7"]);
    assert_eq!(texts(&chat.recent(1)), vec!["7"]);
    assert_eq!(texts(&chat.recent(7)), vec!["1", "2", "3", "4", "5", "6", "7"]);
    assert_eq!(texts(&chat.recent(100)).len(), 7);
    assert!(chat.recent(0).is_empty());
    for n in 0..10 {
        assert_eq!(chat.recent(n).len(), n.min(7));
    }
}

#[test]
fn new_log_is_empty() {
    let chat = Chat::new();
    assert_eq!(chat.len(), 0);
    assert!(chat.messages().is_empty());
    assert!(chat.recent(5).is_empty());
    assert_eq!(chat.to_text(), "");
}

#[test]
fn messages_are_kept_in_the_order_posted() {
    let mut chat = Chat::new();
    chat.add_new_message(Message::new(sender("Alice"), "first"));
    chat.add_new_message(Message::new(sender("Bob"), "second"));
    assert_eq!(chat.len(), 2);
    assert_eq!(texts(chat.messages()), vec!["first", "second"]);
    assert_eq!(chat.messages()[0].sender(), &sender("Alice"));
    assert_eq!(chat.messages()[1].sender().name, "Bob");
    let copy = chat.clone();
    assert_eq!(texts(copy.messages()), vec!["first", "second"]);
    let rebuilt = Chat::from_messages(chat.recent(2));
    assert_eq!(texts(rebuilt.messages()), vec!["first", "second"]);
}

#[test]
fn message_line() {
    let message = Message::new(sender("Alice"), "hello world");
    assert_eq!(message.to_text(), "Alice: hello world");
    assert_eq!(message.text(), "hello world");
    assert_eq!(message.clone().to_text(), "Alice: hello world");
    assert_eq!(Message::new(sender(""), "").to_text(), ": ");
}

#[test]
fn text_shows_the_last_five_lines() {
    assert_eq!(RECENT_MESSAGES, 5);
    let chat = log_of(&["a", "b", "c", "d", "e", "f"]);
    assert_eq!(
        chat.to_text(),
        "Alice: b\nAlice: c\nAlice: d\nAlice: e\nAlice: f\n"
    );
    let short = log_of(&["hi", "there", "ok"]);
    assert_eq!(short.to_text(), "Alice: hi\nAlice: there\nAlice: ok\n");
}
