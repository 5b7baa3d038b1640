use fssota::client::{
    message_frames, or_default, refresh_frame, Key, KeyAction, DEFAULT_SYMBOL,
};
use fssota::chat::Chat;
use fssota::game::Game;
use fssota::server::{Reply, Server, Session};
use fssota::utils::{Color, Direction, Hue};

#[test]
fn keys_map_to_actions() {
    assert_eq!(KeyAction::from_key(Key::Char('w')), KeyAction::Move { direction: Direction::N });
    assert_eq!(KeyAction::from_key(Key::Char('a')), KeyAction::Move { direction: Direction::W });
    assert_eq!(KeyAction::from_key(Key::Char('s')), KeyAction::Move { direction: Direction::S });
    assert_eq!(KeyAction::from_key(Key::Char('d')), KeyAction::Move { direction: Direction::E });
    assert_eq!(KeyAction::from_key(Key::Char('/')), KeyAction::OpenChat);
    assert_eq!(KeyAction::from_key(Key::Esc), KeyAction::Disconnect);
    assert_eq!(KeyAction::from_key(Key::Char('x')), KeyAction::Refresh);
    assert_eq!(KeyAction::from_key(Key::Char('W')), KeyAction::Refresh);
    assert_eq!(KeyAction::from_key(Key::Other), KeyAction::Refresh);
}

#[test]
fn actions_open_with_their_frames() {
    let north = KeyAction::Move { direction: Direction::N };
    assert_eq!(north.opening_frames(), vec!["!MOVE", "w"]);
    let west = KeyAction::Move { direction: Direction::W };
    assert_eq!(west.opening_frames(), vec!["!MOVE", "a"]);
    assert_eq!(KeyAction::OpenChat.opening_frames(), vec!["!CHAT"]);
    assert_eq!(KeyAction::Disconnect.opening_frames(), vec!["!DISCONNECT"]);
    assert!(KeyAction::Refresh.opening_frames().is_empty());
    assert!(north.refreshes());
    assert!(KeyAction::OpenChat.refreshes());
    assert!(KeyAction::Refresh.refreshes());
    assert!(!KeyAction::Disconnect.refreshes());
    assert_eq!(refresh_frame(), "!SCREEN");
}

#[test]
fn direction_keys_round_trip() {
    for direction in [Direction::N, Direction::E, Direction::S, Direction::W] {
        let key = direction.key_text().chars().next().unwrap();
        assert_eq!(Direction::from_key(key), Some(direction));
    }
    assert_eq!(Direction::from_key('w'), Some(Direction::N));
    assert_eq!(Direction::from_key('d'), Some(Direction::E));
    assert_eq!(Direction::from_key('s'), Some(Direction::S));
    assert_eq!(Direction::from_key('a'), Some(Direction::W));
    assert_eq!(Direction::from_key('q'), None);
}

#[test]
fn only_a_written_message_is_posted() {
    assert!(message_frames("").is_empty());
    assert_eq!(message_frames("hello"), vec!["!NEWMESSAGE", "hello"]);
}

#[test]
fn blank_entries_fall_back() {
    assert_eq!(DEFAULT_SYMBOL, "@");
    assert_eq!(or_default("", DEFAULT_SYMBOL), "@");
    assert_eq!(or_default("#", DEFAULT_SYMBOL), "#");
    assert_eq!(or_default("", "root"), "root");
    assert_eq!(or_default("Alice", "root"), "Alice");
}

#[test]
fn colors_keep_text_and_tint() {
    assert_eq!(Color::green("a"), Color::Green(String::from("a")));
    assert_eq!(Color::blue("b"), Color::Blue(String::from("b")));
    assert_eq!(Color::red("c"), Color::Red(String::from("c")));
    assert_eq!(Color::magenta("d"), Color::Magenta(String::from("d")));
    assert_eq!(Color::tinted(Hue::Red, "x"), Color::Red(String::from("x")));
    assert_eq!(Color::green("a").hue(), Hue::Green);
    assert_eq!(Color::magenta("d").text(), "d");
    assert_eq!(Color::blue("b").clone(), Color::blue("b"));
    assert_eq!(Hue::from_index(0), Hue::Blue);
    assert_eq!(Hue::from_index(1), Hue::Green);
    assert_eq!(Hue::from_index(2), Hue::Red);
    assert_eq!(Hue::from_index(3), Hue::Magenta);
    assert_eq!(Hue::from_index(17), Hue::Magenta);
}

#[test]
fn random_color_keeps_the_text() {
    let mut seen = Vec::new();
    for _ in 0..400 {
        let color = Color::random("text");
        assert_eq!(color.text(), "text");
        if !seen.contains(&color.hue()) {
            seen.push(color.hue());
        }
    }
    assert_eq!(seen.len(), 4);
}

#[test]
fn move_frames_make_the_server_move() {
    let cases = [
        (Key::Char('w'), (4, 3)),
        (Key::Char('d'), (5, 4)),
        (Key::Char('s'), (4, 5)),
        (Key::Char('a'), (3, 4)),
    ];
    for (key, target) in cases {
        let mut server = Server::with_state("a", Game::blank(9, 9), Chat::new());
        let (session, _) = Session::new().step_at(&mut server, "Alice", 0, 0);
        let (mut session, _) = session.step_at(&mut server, "@", 4, 4);
        for frame in KeyAction::from_key(key).opening_frames() {
            let (next, reply) = session.step_at(&mut server, &frame, 0, 0);
            assert!(matches!(reply, Reply::Nothing));
            session = next;
        }
        match session {
            Session::Active { player } => assert_eq!((player.x, player.y), target),
            _ => panic!("the session does not await a command"),
        }
    }
}
