use crate::objects::PlayerView;
use crate::server::{
    ReplyView, ServerView, SessionView, CHAT, DISCONNECT, MOVE, NEWMESSAGE, SCREEN,
};
use crate::utils::Direction;
use vstd::prelude::*;

verus! {

/// The symbol a player gets who entered none.
pub const DEFAULT_SYMBOL: &'static str = "@";

/// A key press, as far as the client tells keys apart.
#[derive(Clone, Copy, Debug, PartialEq, Eq)]
pub enum Key {
    Char(char),
    Esc,
    Other,
}

/// What the client does about a key press.
#[derive(Clone, Copy, Debug, PartialEq, Eq)]
pub enum KeyAction {
    /// Ask the server to move the player one step.
    Move { direction: Direction },
    /// Fetch the chat log, show it, and let the user write a message.
    OpenChat,
    /// Tell the server that the player leaves, and stop.
    Disconnect,
    /// Nothing but fetching the view anew.
    Refresh,
}

/// The texts of stored strings, in their order.
pub open spec fn texts_view(texts: Seq<String>) -> Seq<Seq<char>> {
    Seq::new(texts.len(), |i: int| texts[i]@)
}

impl Direction {
    /// The movement key of this direction: `w` north, `d` east, `s` south, `a` west.
    pub open spec fn key(self) -> char {
        match self {
            Direction::N => 'w',
            Direction::E => 'd',
            Direction::S => 's',
            Direction::W => 'a',
        }
    }

    /// The movement key of this direction, as the text of a frame.
    pub fn key_text(self) -> (text: &'static str)
        ensures
            text@ == seq![self.key()],
    {
        proof {
            reveal_strlit("w");
            reveal_strlit("d");
            reveal_strlit("s");
            reveal_strlit("a");
        }
        let text = match self {
            Direction::N => "w",
            Direction::E => "d",
            Direction::S => "s",
            Direction::W => "a",
        };
        assert(text@ =~= seq![self.key()]);
        text
    }

    /// Every direction is read back from its own movement key.
    pub proof fn lemma_key_round_trip(self)
        ensures
            Direction::of_key(self.key()) == Some(self),
    {
    }
}

impl KeyAction {
    /// What the client does about `key`: a movement key moves, `/` opens the chat, escape
    /// disconnects, and any other key only refreshes the view.
    pub open spec fn of_key(key: Key) -> KeyAction {
        match key {
            Key::Char(c) => if c == '/' {
                KeyAction::OpenChat
            } else {
                match Direction::of_key(c) {
                    Some(direction) => KeyAction::Move { direction },
                    None => KeyAction::Refresh,
                }
            },
            Key::Esc => KeyAction::Disconnect,
            Key::Other => KeyAction::Refresh,
        }
    }

    /// The frames the client sends first when it acts: the command, and for a move the
    /// movement key after it.
    pub open spec fn opening(self) -> Seq<Seq<char>> {
        match self {
            KeyAction::Move { direction } => seq![MOVE@, seq![direction.key()]],
            KeyAction::OpenChat => seq![CHAT@],
            KeyAction::Disconnect => seq![DISCONNECT@],
            KeyAction::Refresh => Seq::empty(),
        }
    }

    /// Decides what to do about a key press.
    pub fn from_key(key: Key) -> (action: KeyAction)
        ensures
            action == KeyAction::of_key(key),
    {
        match key {
            Key::Char(c) => {
                if c == '/' {
                    KeyAction::OpenChat
                } else {
                    match Direction::from_key(c) {
                        Some(direction) => KeyAction::Move { direction },
                        None => KeyAction::Refresh,
                    }
                }
            },
            Key::Esc => KeyAction::Disconnect,
            Key::Other => KeyAction::Refresh,
        }
    }

    /// The texts of the frames to send first for this action.
    pub fn opening_frames(self) -> (frames: Vec<String>)
        ensures
            texts_view(frames@) == self.opening(),
    {
        let mut frames: Vec<String> = Vec::new();
        match self {
            KeyAction::Move { direction } => {
                frames.push(MOVE.to_owned());
                frames.push(direction.key_text().to_owned());
            },
            KeyAction::OpenChat => {
                frames.push(CHAT.to_owned());
            },
            KeyAction::Disconnect => {
                frames.push(DISCONNECT.to_owned());
            },
            KeyAction::Refresh => {},
        }
        assert(texts_view(frames@) =~= self.opening());
        frames
    }

    /// Whether the client asks for the view anew after this action: after every action but
    /// disconnecting.
    pub fn refreshes(self) -> (refresh: bool)
        ensures
            refresh == (self != KeyAction::Disconnect),
    {
        match self {
            KeyAction::Disconnect => false,
            _ => true,
        }
    }
}

/// The frames a client sends for a move make the server take that step: after the two
/// frames the session awaits a command again, with the player and the world as the step
/// leaves them, and nothing was sent back.
pub proof fn lemma_move_frames_move(
    server: ServerView,
    player: PlayerView,
    direction: Direction,
    x: nat,
    y: nat,
)
    ensures
        ({
            let frames = (KeyAction::Move { direction }).opening();
            let asked = (SessionView::Active { player }).advance(server, frames[0], x, y);
            let done = asked.session.advance(asked.server, frames[1], x, y);
            &&& frames.len() == 2
            &&& asked.reply == ReplyView::Nothing
            &&& done.reply == ReplyView::Nothing
            &&& done.session == (SessionView::Active {
                player: server.game.moved(player, direction).1,
            })
            &&& done.server == server.with_game(server.game.moved(player, direction).0)
        }),
{
    reveal_strlit("!MOVE");
    reveal_strlit("!DISCONNECT");
    reveal_strlit("!SCREEN");
    assert(MOVE@.len() == 5);
    assert(DISCONNECT@.len() == 11);
    assert(SCREEN@.len() == 7);
    direction.lemma_key_round_trip();
}

/// The text of the frame that asks for the view.
pub fn refresh_frame() -> (frame: String)
    ensures
        frame@ == SCREEN@,
{
    SCREEN.to_owned()
}

/// The texts of the frames that post `message` to the chat: the command and the message;
/// none at all for an empty message.
pub fn message_frames(message: &str) -> (frames: Vec<String>)
    ensures
        texts_view(frames@) == (if message@.len() == 0 {
            Seq::<Seq<char>>::empty()
        } else {
            seq![NEWMESSAGE@, message@]
        }),
{
    let mut frames: Vec<String> = Vec::new();
    if !message.is_empty() {
        frames.push(NEWMESSAGE.to_owned());
        frames.push(message.to_owned());
    }
    assert(texts_view(frames@) =~= (if message@.len() == 0 {
        Seq::<Seq<char>>::empty()
    } else {
        seq![NEWMESSAGE@, message@]
    }));
    frames
}

/// What the user entered, or `fallback` where nothing was entered.
pub fn or_default(entered: &str, fallback: &str) -> (chosen: String)
    ensures
        chosen@ == (if entered@.len() == 0 {
            fallback@
        } else {
            entered@
        }),
{
    if entered.is_empty() {
        fallback.to_owned()
    } else {
        entered.to_owned()
    }
}

} // verus!
