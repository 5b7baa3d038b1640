use crate::chat::{Chat, Message, MessageView};
use crate::frame::{lossy_text, utf8_lossy};
use crate::game::{
    lemma_kill_keeps_placed, lemma_killed_wf, lemma_move_keeps_placed, lemma_moved_cells,
    lemma_put, lemma_spawn_keeps_placed, Game, GameView, VIEW_REACH_X, VIEW_REACH_Y,
};
use crate::objects::{objects_view, Object, ObjectView, Player, PlayerView};
use crate::random::random_index;
use crate::terrain::Grove;
use crate::utils::Direction;
use vstd::prelude::*;

verus! {

/// The number of columns of the world a server starts with.
pub const WORLD_WIDTH: usize = 100;

/// The number of rows of the world a server starts with.
pub const WORLD_HEIGHT: usize = 100;

/// The command that takes the sender's player off the world and ends the session.
pub const DISCONNECT: &'static str = "!DISCONNECT";

/// The command that asks for the sender's view of the world.
pub const SCREEN: &'static str = "!SCREEN";

/// The command that announces a movement key in the next frame.
pub const MOVE: &'static str = "!MOVE";

/// The command that asks for the chat log.
pub const CHAT: &'static str = "!CHAT";

/// The command that announces the text of a chat message in the next frame.
pub const NEWMESSAGE: &'static str = "!NEWMESSAGE";

/// What all connections share: the one world and the one chat log, and the address the
/// server listens on.
#[derive(Debug)]
pub struct Server {
    address: String,
    game: Game,
    chat: Chat,
}

/// The mathematical value of a [`Server`].
pub struct ServerView {
    pub address: Seq<char>,
    pub game: GameView,
    pub chat: Seq<MessageView>,
}

impl View for Server {
    type V = ServerView;

    closed spec fn view(&self) -> ServerView {
        ServerView { address: self.address@, game: self.game@, chat: self.chat@ }
    }
}

/// Why a session was ended by the server.
#[derive(Clone, Copy, Debug, PartialEq, Eq)]
pub enum SessionError {
    /// The frame that should carry the player's symbol was empty.
    MissingSymbol,
    /// The frame after a move command did not start with a movement key.
    UnknownDirection,
}

/// Where one connection stands in the protocol.
#[derive(Debug)]
pub enum Session {
    /// Handshake: the frame with the player's name is awaited.
    AwaitingName,
    /// Handshake: the name is known, the frame with the player's symbol is awaited.
    AwaitingSymbol { name: String },
    /// The player is on the world; a command is awaited.
    Active { player: Player },
    /// A move command came; the frame with the movement key is awaited.
    AwaitingDirection { player: Player },
    /// A new-message command came; the frame with the text is awaited.
    AwaitingMessage { player: Player },
    /// The session is over.
    Disconnected,
}

/// The mathematical value of a [`Session`].
pub enum SessionView {
    AwaitingName,
    AwaitingSymbol { name: Seq<char> },
    Active { player: PlayerView },
    AwaitingDirection { player: PlayerView },
    AwaitingMessage { player: PlayerView },
    Disconnected,
}

impl View for Session {
    type V = SessionView;

    open spec fn view(&self) -> SessionView {
        match self {
            Session::AwaitingName => SessionView::AwaitingName,
            Session::AwaitingSymbol { name } => SessionView::AwaitingSymbol { name: name@ },
            Session::Active { player } => SessionView::Active { player: player@ },
            Session::AwaitingDirection { player } => SessionView::AwaitingDirection {
                player: player@,
            },
            Session::AwaitingMessage { player } => SessionView::AwaitingMessage { player: player@ },
            Session::Disconnected => SessionView::Disconnected,
        }
    }
}

/// What the connection is to do after a frame was handled.
#[derive(Debug)]
pub enum Reply {
    /// Nothing is sent.
    Nothing,
    /// Nothing is sent; the handshake is done and the player is on the world.
    Joined,
    /// The view of the world is sent, then the player's inventory.
    Screen { view: Game, inventory: Vec<Object> },
    /// The chat log is sent.
    ChatLog { chat: Chat },
    /// Nothing is sent; a message was added to the chat log.
    Posted,
    /// Nothing is sent; the frame was no known command and was passed over.
    Ignored,
    /// The connection is closed, as the client asked or because the session was over.
    Closed,
    /// The connection is closed because of a fault of the client.
    Refused { error: SessionError },
}

/// The mathematical value of a [`Reply`].
pub enum ReplyView {
    Nothing,
    Joined,
    Screen { view: GameView, inventory: Seq<ObjectView> },
    ChatLog { chat: Seq<MessageView> },
    Posted,
    Ignored,
    Closed,
    Refused { error: SessionError },
}

impl View for Reply {
    type V = ReplyView;

    open spec fn view(&self) -> ReplyView {
        match self {
            Reply::Nothing => ReplyView::Nothing,
            Reply::Joined => ReplyView::Joined,
            Reply::Screen { view, inventory } => ReplyView::Screen {
                view: view@,
                inventory: objects_view(inventory@),
            },
            Reply::ChatLog { chat } => ReplyView::ChatLog { chat: chat@ },
            Reply::Posted => ReplyView::Posted,
            Reply::Ignored => ReplyView::Ignored,
            Reply::Closed => ReplyView::Closed,
            Reply::Refused { error } => ReplyView::Refused { error: *error },
        }
    }
}

/// What handling one frame leads to: the session's next state, the shared state after it,
/// and what the connection is to do.
pub struct Outcome {
    pub session: SessionView,
    pub server: ServerView,
    pub reply: ReplyView,
}

impl ServerView {
    /// The shared state with another world in place of the present one.
    pub open spec fn with_game(self, game: GameView) -> ServerView {
        ServerView { address: self.address, game, chat: self.chat }
    }

    /// The shared state with another chat log in place of the present one.
    pub open spec fn with_chat(self, chat: Seq<MessageView>) -> ServerView {
        ServerView { address: self.address, game: self.game, chat }
    }
}

impl SessionView {
    /// The player of the session, once the handshake is done and until the session is over.
    pub open spec fn player(self) -> Option<PlayerView> {
        match self {
            SessionView::Active { player } => Some(player),
            SessionView::AwaitingDirection { player } => Some(player),
            SessionView::AwaitingMessage { player } => Some(player),
            _ => None,
        }
    }

    /// The session's player, if it has one, has coordinates on the grid of `game`.
    pub open spec fn fits(self, game: GameView) -> bool {
        match self.player() {
            Some(player) => game.in_bounds(player.x as int, player.y as int),
            None => true,
        }
    }

    /// What a frame with the text `frame` leads to. `(x, y)` is the cell for a player who
    /// joins; it matters only for the frame that ends the handshake.
    ///
    /// - Handshake: the first frame is the name; the first character of the second is the
    ///   symbol, and the player is put on the cell `(x, y)`. An empty second frame ends the
    ///   session with `MissingSymbol`.
    /// - A command is awaited: `!DISCONNECT` takes the player off the world and ends the
    ///   session; `!SCREEN` answers with the player's view and inventory; `!CHAT` answers
    ///   with the chat log; `!MOVE` and `!NEWMESSAGE` await one more frame; any other frame
    ///   is passed over.
    /// - After `!MOVE`: the first character of the frame is the movement key, and the
    ///   player tries that step. A frame that does not start with a movement key takes the
    ///   player off the world and ends the session with `UnknownDirection`.
    /// - After `!NEWMESSAGE`: the frame is added to the chat log as a message of the player.
    /// - Once the session is over, every frame is answered by closing.
    pub open spec fn advance(self, server: ServerView, frame: Seq<char>, x: nat, y: nat) -> Outcome {
        match self {
            SessionView::AwaitingName => Outcome {
                session: SessionView::AwaitingSymbol { name: frame },
                server,
                reply: ReplyView::Nothing,
            },
            SessionView::AwaitingSymbol { name } => if frame.len() == 0 {
                Outcome {
                    session: SessionView::Disconnected,
                    server,
                    reply: ReplyView::Refused { error: SessionError::MissingSymbol },
                }
            } else {
                let player = Game::newcomer(name, frame[0], x, y);
                Outcome {
                    session: SessionView::Active { player },
                    server: server.with_game(
                        server.game.put(x as int, y as int, ObjectView::Player(player)),
                    ),
                    reply: ReplyView::Joined,
                }
            },
            SessionView::Active { player } => if frame == DISCONNECT@ {
                Outcome {
                    session: SessionView::Disconnected,
                    server: server.with_game(server.game.killed(player)),
                    reply: ReplyView::Closed,
                }
            } else if frame == SCREEN@ {
                Outcome {
                    session: self,
                    server,
                    reply: ReplyView::Screen {
                        view: server.game.window(
                            player.x as int,
                            player.y as int,
                            VIEW_REACH_X as int,
                            VIEW_REACH_Y as int,
                        ),
                        inventory: player.inventory,
                    },
                }
            } else if frame == MOVE@ {
                Outcome {
                    session: SessionView::AwaitingDirection { player },
                    server,
                    reply: ReplyView::Nothing,
                }
            } else if frame == CHAT@ {
                Outcome { session: self, server, reply: ReplyView::ChatLog { chat: server.chat } }
            } else if frame == NEWMESSAGE@ {
                Outcome {
                    session: SessionView::AwaitingMessage { player },
                    server,
                    reply: ReplyView::Nothing,
                }
            } else {
                Outcome { session: self, server, reply: ReplyView::Ignored }
            },
            SessionView::AwaitingDirection { player } => {
                let direction = if frame.len() == 0 {
                    None
                } else {
                    Direction::of_key(frame[0])
                };
                match direction {
                    Some(d) => Outcome {
                        session: SessionView::Active { player: server.game.moved(player, d).1 },
                        server: server.with_game(server.game.moved(player, d).0),
                        reply: ReplyView::Nothing,
                    },
                    None => Outcome {
                        session: SessionView::Disconnected,
                        server: server.with_game(server.game.killed(player)),
                        reply: ReplyView::Refused { error: SessionError::UnknownDirection },
                    },
                }
            },
            SessionView::AwaitingMessage { player } => Outcome {
                session: SessionView::Active { player },
                server: server.with_chat(
                    server.chat.push(MessageView { sender: player, message: frame }),
                ),
                reply: ReplyView::Posted,
            },
            SessionView::Disconnected => Outcome {
                session: SessionView::Disconnected,
                server,
                reply: ReplyView::Closed,
            },
        }
    }

    /// The shared state after the connection of this session was lost: the session's
    /// player, if it has one, is taken off the world.
    pub open spec fn hung_up(self, server: ServerView) -> ServerView {
        match self.player() {
            Some(player) => server.with_game(server.game.killed(player)),
            None => server,
        }
    }
}

/// Whatever frame comes in whatever state, the world stays well formed, keeps its size,
/// stays one whose players are recorded at their own places, and the session's player, if
/// it has one afterwards, has coordinates on the grid.
pub proof fn lemma_advance_keeps_world(
    session: SessionView,
    server: ServerView,
    frame: Seq<char>,
    x: nat,
    y: nat,
)
    requires
        server.game.wf(),
        server.game.placed(),
        server.game.in_bounds(x as int, y as int),
        session.fits(server.game),
    ensures
        ({
            let after = session.advance(server, frame, x, y);
            &&& after.server.game.wf()
            &&& after.server.game.placed()
            &&& after.server.game.width == server.game.width
            &&& after.server.game.height == server.game.height
            &&& after.session.fits(after.server.game)
            &&& after.server.address == server.address
        }),
{
    match session {
        SessionView::AwaitingSymbol { name } => {
            if frame.len() > 0 {
                lemma_spawn_keeps_placed(server.game, Game::newcomer(name, frame[0], x, y));
                lemma_put(
                    server.game,
                    x as int,
                    y as int,
                    ObjectView::Player(Game::newcomer(name, frame[0], x, y)),
                );
            }
        },
        SessionView::Active { player } => {
            lemma_killed_wf(server.game, player);
            lemma_kill_keeps_placed(server.game, player);
        },
        SessionView::AwaitingDirection { player } => {
            lemma_killed_wf(server.game, player);
            lemma_kill_keeps_placed(server.game, player);
            if frame.len() > 0 {
                match Direction::of_key(frame[0]) {
                    Some(d) => {
                        lemma_moved_cells(server.game, player, d);
                        lemma_move_keeps_placed(server.game, player, d);
                    },
                    None => {},
                }
            }
        },
        _ => {},
    }
}

/// Whether two texts are the same.
fn same_text(a: &str, b: &str) -> (same: bool)
    ensures
        same == (a@ == b@),
{
    a.to_owned() == b.to_owned()
}

impl Server {
    /// The shared state a server starts with: a newly generated world of `WORLD_WIDTH` by
    /// `WORLD_HEIGHT` cells, which is open ground with some scatter of groves planted and
    /// water seeded and spread after that, and an empty chat log.
    pub fn new(address: &str) -> (server: Server)
        ensures
            server@.address == address@,
            server@.chat == Seq::<MessageView>::empty(),
            server@.game.wf(),
            server@.game.width == WORLD_WIDTH,
            server@.game.height == WORLD_HEIGHT,
            server@.game.terrain_only(),
            server@.game.placed(),
            exists|plan: Seq<Grove>, seeds: Seq<(int, int)>|
                #![trigger GameView::blank(WORLD_WIDTH as nat, WORLD_HEIGHT as nat).with_groves(plan).water_seeds(seeds)]
                GameView::blank(WORLD_WIDTH as nat, WORLD_HEIGHT as nat).tree_plan(plan)
                    && GameView::blank(WORLD_WIDTH as nat, WORLD_HEIGHT as nat).with_groves(
                    plan,
                ).water_seeds(seeds) && server@.game.watered_from(
                    GameView::blank(WORLD_WIDTH as nat, WORLD_HEIGHT as nat).with_groves(plan),
                    seeds,
                ),
    {
        Server { address: address.to_owned(), game: Game::new(WORLD_WIDTH, WORLD_HEIGHT), chat: Chat::new() }
    }

    /// The shared state made of the given world and chat log.
    pub fn with_state(address: &str, game: Game, chat: Chat) -> (server: Server)
        ensures
            server@ == (ServerView { address: address@, game: game@, chat: chat@ }),
    {
        Server { address: address.to_owned(), game, chat }
    }

    /// The address the server listens on.
    pub fn address(&self) -> (address: &str)
        ensures
            address@ == self@.address,
    {
        self.address.as_str()
    }

    /// The world.
    pub fn game(&self) -> (game: &Game)
        ensures
            game@ == self@.game,
    {
        &self.game
    }

    /// The chat log.
    pub fn chat(&self) -> (chat: &Chat)
        ensures
            chat@ == self@.chat,
    {
        &self.chat
    }
}

impl Session {
    /// The state of a connection that was just accepted.
    pub fn new() -> (session: Session)
        ensures
            session@ == SessionView::AwaitingName,
    {
        Session::AwaitingName
    }

    /// Whether the session is over.
    pub fn is_over(&self) -> (over: bool)
        ensures
            over == (self@ == SessionView::Disconnected),
    {
        match self {
            Session::Disconnected => true,
            _ => false,
        }
    }

    /// Whether the session's player, if it has one, has coordinates on the world of
    /// `server`.
    pub fn fits(&self, server: &Server) -> (fits: bool)
        ensures
            fits == self@.fits(server@.game),
    {
        match self {
            Session::Active { player } => player.x < server.game.width() && player.y
                < server.game.height(),
            Session::AwaitingDirection { player } => player.x < server.game.width() && player.y
                < server.game.height(),
            Session::AwaitingMessage { player } => player.x < server.game.width() && player.y
                < server.game.height(),
            _ => true,
        }
    }

    /// Handles one frame with the text `frame`, with `(x, y)` as the cell for a player who
    /// joins.
    pub fn step_at(self, server: &mut Server, frame: &str, x: usize, y: usize) -> (next: (
        Session,
        Reply,
    ))
        requires
            old(server)@.game.wf(),
            old(server)@.game.in_bounds(x as int, y as int),
            self@.fits(old(server)@.game),
        ensures
            (Outcome { session: next.0@, server: final(server)@, reply: next.1@ })
                == self@.advance(old(server)@, frame@, x as nat, y as nat),
            final(server)@.game.wf(),
            final(server)@.game.width == old(server)@.game.width,
            final(server)@.game.height == old(server)@.game.height,
            next.0@.fits(final(server)@.game),
    {
        match self {
            Session::AwaitingName => (
                Session::AwaitingSymbol { name: frame.to_owned() },
                Reply::Nothing,
            ),
            Session::AwaitingSymbol { name } => {
                if frame.unicode_len() == 0 {
                    (Session::Disconnected, Reply::Refused { error: SessionError::MissingSymbol })
                } else {
                    let symbol = frame.get_char(0);
                    let player = server.game.spawn_player_at(name.as_str(), symbol, x, y);
                    (Session::Active { player }, Reply::Joined)
                }
            },
            Session::Active { player } => {
                if same_text(frame, DISCONNECT) {
                    proof {
                        lemma_killed_wf(server@.game, player@);
                    }
                    server.game.kill_player(player);
                    (Session::Disconnected, Reply::Closed)
                } else if same_text(frame, SCREEN) {
                    let copy = player.clone();
                    let seen = player.clone();
                    let view = server.game.game_from_player_view(seen);
                    let inventory = copy.inventory;
                    assert(objects_view(inventory@) =~= player@.inventory);
                    (Session::Active { player }, Reply::Screen { view, inventory })
                } else if same_text(frame, MOVE) {
                    (Session::AwaitingDirection { player }, Reply::Nothing)
                } else if same_text(frame, CHAT) {
                    let chat = server.chat.clone();
                    (Session::Active { player }, Reply::ChatLog { chat })
                } else if same_text(frame, NEWMESSAGE) {
                    (Session::AwaitingMessage { player }, Reply::Nothing)
                } else {
                    (Session::Active { player }, Reply::Ignored)
                }
            },
            Session::AwaitingDirection { player } => {
                let direction = if frame.unicode_len() == 0 {
                    None
                } else {
                    Direction::from_key(frame.get_char(0))
                };
                match direction {
                    Some(d) => {
                        let mut player = player;
                        server.game.move_player(&mut player, d);
                        (Session::Active { player }, Reply::Nothing)
                    },
                    None => {
                        proof {
                            lemma_killed_wf(server@.game, player@);
                        }
                        server.game.kill_player(player);
                        (
                            Session::Disconnected,
                            Reply::Refused { error: SessionError::UnknownDirection },
                        )
                    },
                }
            },
            Session::AwaitingMessage { player } => {
                let sender = player.clone();
                server.chat.add_new_message(Message::new(sender, frame));
                (Session::Active { player }, Reply::Posted)
            },
            Session::Disconnected => (Session::Disconnected, Reply::Closed),
        }
    }

    /// Handles one frame with the text `frame`. A player who joins is put on a cell drawn
    /// at random from the whole world; everything else is as `advance` says.
    pub fn step(self, server: &mut Server, frame: &str) -> (next: (Session, Reply))
        requires
            old(server)@.game.wf(),
            self@.fits(old(server)@.game),
        ensures
            exists|x: nat, y: nat|
                old(server)@.game.in_bounds(x as int, y as int) && (Outcome {
                    session: next.0@,
                    server: final(server)@,
                    reply: next.1@,
                }) == #[trigger] self@.advance(old(server)@, frame@, x, y),
            final(server)@.game.wf(),
            final(server)@.game.width == old(server)@.game.width,
            final(server)@.game.height == old(server)@.game.height,
            next.0@.fits(final(server)@.game),
    {
        let (x, y) = match &self {
            Session::AwaitingSymbol { name } => {
                let mut rng = rand::thread_rng();
                let x = random_index(&mut rng, 0, server.game.width());
                let y = random_index(&mut rng, 0, server.game.height());
                (x, y)
            },
            _ => (0, 0),
        };
        self.step_at(server, frame, x, y)
    }

    /// Handles one frame with the given payload: the payload is read as text, and the text
    /// is handled as `step` says.
    pub fn receive(self, server: &mut Server, payload: &[u8]) -> (next: (Session, Reply))
        requires
            old(server)@.game.wf(),
            self@.fits(old(server)@.game),
        ensures
            exists|x: nat, y: nat|
                old(server)@.game.in_bounds(x as int, y as int) && (Outcome {
                    session: next.0@,
                    server: final(server)@,
                    reply: next.1@,
                }) == #[trigger] self@.advance(old(server)@, utf8_lossy(payload@), x, y),
            final(server)@.game.wf(),
            final(server)@.game.width == old(server)@.game.width,
            final(server)@.game.height == old(server)@.game.height,
            next.0@.fits(final(server)@.game),
    {
        let text = lossy_text(payload);
        self.step(server, text.as_str())
    }

    /// Ends the session because its connection was lost: the session's player, if it has
    /// one, is taken off the world.
    pub fn hang_up(self, server: &mut Server) -> (next: Session)
        requires
            old(server)@.game.wf(),
        ensures
            next@ == SessionView::Disconnected,
            final(server)@ == self@.hung_up(old(server)@),
            final(server)@.game.wf(),
    {
        match self {
            Session::Active { player } => {
                server.game.kill_player(player);
            },
            Session::AwaitingDirection { player } => {
                server.game.kill_player(player);
            },
            Session::AwaitingMessage { player } => {
                server.game.kill_player(player);
            },
            _ => {},
        }
        Session::Disconnected
    }
}

} // verus!
