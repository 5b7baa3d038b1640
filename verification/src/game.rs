use crate::objects::{Object, ObjectView, Player, PlayerView, Tile};
use crate::random::random_index;
use crate::utils::Direction;
use vstd::prelude::*;

verus! {

/// How many columns to either side of a player the view sent to that player reaches.
pub const VIEW_REACH_X: usize = 40;

/// How many rows above and below a player the view sent to that player reaches.
pub const VIEW_REACH_Y: usize = 20;

/// The world: a rectangular grid of cells, stored row by row.
#[derive(Debug)]
pub struct Game {
    width: usize,
    height: usize,
    map: Vec<Vec<Object>>,
}

/// The mathematical value of a [`Game`]: `map[y][x]` is the cell in column `x` of row `y`.
pub struct GameView {
    pub width: nat,
    pub height: nat,
    pub map: Seq<Seq<ObjectView>>,
}

impl GameView {
    /// The grid is rectangular, of the stated size, and not empty.
    pub open spec fn wf(self) -> bool {
        &&& self.width > 0
        &&& self.height > 0
        &&& self.map.len() == self.height
        &&& forall|y: int| 0 <= y < self.height ==> (#[trigger] self.map[y]).len() == self.width
    }

    /// Whether `(x, y)` names a cell of the grid.
    pub open spec fn in_bounds(self, x: int, y: int) -> bool {
        0 <= x < self.width && 0 <= y < self.height
    }

    /// The cell in column `x` of row `y`.
    pub open spec fn cell(self, x: int, y: int) -> ObjectView {
        self.map[y][x]
    }

    /// The grid with the cell at `(x, y)` replaced by `object`.
    pub open spec fn put(self, x: int, y: int, object: ObjectView) -> GameView {
        GameView {
            width: self.width,
            height: self.height,
            map: self.map.update(y, self.map[y].update(x, object)),
        }
    }

    /// Whether the cell at `(x, y)` can be stepped onto: it is on the grid and open ground.
    pub open spec fn open_ground(self, x: int, y: int) -> bool {
        self.in_bounds(x, y) && self.cell(x, y) == ObjectView::Tile
    }

    /// Whether `player` stands on the grid: its coordinates name a cell, and that cell holds
    /// exactly this player.
    pub open spec fn holds(self, player: PlayerView) -> bool {
        &&& self.in_bounds(player.x as int, player.y as int)
        &&& self.cell(player.x as int, player.y as int) == ObjectView::Player(player)
    }

    /// Every player recorded in a cell is recorded with that cell's own coordinates.
    pub open spec fn placed(self) -> bool {
        forall|x: int, y: int|
            self.in_bounds(x, y) ==> match #[trigger] self.cell(x, y) {
                ObjectView::Player(p) => p.x == x && p.y == y,
                _ => true,
            }
    }

    /// Whether `(x, y)` comes before `(bx, by)` when the grid is read row by row.
    pub open spec fn before(x: int, y: int, bx: int, by: int) -> bool {
        y < by || (y == by && x < bx)
    }

    /// Whether `(x, y)` is the first cell, reading row by row, that holds exactly `player`.
    pub open spec fn first_cell_of(self, player: PlayerView, x: int, y: int) -> bool {
        &&& self.in_bounds(x, y)
        &&& self.cell(x, y) == ObjectView::Player(player)
        &&& forall|ax: int, ay: int|
            self.in_bounds(ax, ay) && Self::before(ax, ay, x, y) ==> #[trigger] self.cell(ax, ay)
                != ObjectView::Player(player)
    }

    /// Whether some cell of the grid holds exactly `player`.
    pub open spec fn has_cell_of(self, player: PlayerView) -> bool {
        exists|x: int, y: int|
            self.in_bounds(x, y) && #[trigger] self.cell(x, y) == ObjectView::Player(player)
    }

    /// The grid after `player` was taken off it: the first cell, reading row by row, that
    /// holds exactly this player has become open ground. A grid without such a cell is
    /// unchanged.
    pub open spec fn killed(self, player: PlayerView) -> GameView {
        if self.has_cell_of(player) {
            let (x, y) = choose|x: int, y: int| self.first_cell_of(player, x, y);
            self.put(x, y, ObjectView::Tile)
        } else {
            self
        }
    }

    /// The cell on which the `i`-th of `players` stands.
    pub open spec fn spot(players: Seq<PlayerView>, i: int) -> (int, int) {
        (players[i].x as int, players[i].y as int)
    }

    /// The cell towards which the `i`-th of `players` steps.
    pub open spec fn goal(players: Seq<PlayerView>, directions: Seq<Direction>, i: int) -> (
        int,
        int,
    ) {
        (players[i].x + directions[i].dx(), players[i].y + directions[i].dy())
    }

    /// The `i`-th of `players` after its step was taken.
    pub open spec fn arrived(
        players: Seq<PlayerView>,
        directions: Seq<Direction>,
        i: int,
    ) -> PlayerView {
        Self::relocated(
            players[i],
            Self::goal(players, directions, i).0,
            Self::goal(players, directions, i).1,
        )
    }

    /// Whether the steps of `players`, the `i`-th in the `i`-th of `directions`, touch
    /// different cells of this grid: every player stands on the grid on a cell of its own,
    /// and steps towards a cell that is open ground and that no other player steps
    /// towards.
    pub open spec fn disjoint_steps(
        self,
        players: Seq<PlayerView>,
        directions: Seq<Direction>,
    ) -> bool {
        &&& players.len() == directions.len()
        &&& forall|i: int|
            0 <= i < players.len() ==> {
                &&& self.holds(#[trigger] players[i])
                &&& self.open_ground(
                    Self::goal(players, directions, i).0,
                    Self::goal(players, directions, i).1,
                )
            }
        &&& forall|i: int, j: int|
            0 <= i < players.len() && 0 <= j < players.len() && i != j ==> {
                &&& #[trigger] Self::spot(players, i) != #[trigger] Self::spot(players, j)
                &&& Self::goal(players, directions, i) != Self::goal(players, directions, j)
            }
    }

    /// Whether `order` names players out of `count`, none of them twice.
    pub open spec fn is_order(order: Seq<int>, count: int) -> bool {
        &&& forall|k: int| 0 <= k < order.len() ==> 0 <= #[trigger] order[k] < count
        &&& forall|k: int, l: int|
            0 <= k < order.len() && 0 <= l < order.len() && k != l ==> #[trigger] order[k]
                != #[trigger] order[l]
    }

    /// Whether `order` names every player out of `count`.
    pub open spec fn names_all(order: Seq<int>, count: int) -> bool {
        forall|i: int| 0 <= i < count ==> #[trigger] order.contains(i)
    }

    /// Whether no player named in `order` stands on `(x, y)` or steps towards it.
    pub open spec fn untouched(
        players: Seq<PlayerView>,
        directions: Seq<Direction>,
        order: Seq<int>,
        x: int,
        y: int,
    ) -> bool {
        forall|k: int|
            0 <= k < order.len() ==> Self::spot(players, #[trigger] order[k]) != (x, y)
                && Self::goal(players, directions, order[k]) != (x, y)
    }

    /// The grid after the players named in `order` have tried their steps one after the
    /// other, in that order.
    pub open spec fn moved_in_order(
        self,
        players: Seq<PlayerView>,
        directions: Seq<Direction>,
        order: Seq<int>,
    ) -> GameView
        decreases order.len(),
    {
        if order.len() == 0 {
            self
        } else {
            self.moved_in_order(players, directions, order.drop_last()).moved(
                players[order.last()],
                directions[order.last()],
            ).0
        }
    }

    /// `player` moved to `(x, y)`.
    pub open spec fn relocated(player: PlayerView, x: int, y: int) -> PlayerView {
        PlayerView {
            name: player.name,
            x: x as nat,
            y: y as nat,
            inventory: player.inventory,
            symbol: player.symbol,
        }
    }

    /// The grid and the player after `player` tries one step in `direction`. The step is taken
    /// only onto open ground: the cell left behind becomes open ground, and the cell entered
    /// records the player at its new place. Otherwise nothing changes.
    pub open spec fn moved(self, player: PlayerView, direction: Direction) -> (
        GameView,
        PlayerView,
    ) {
        let tx = player.x + direction.dx();
        let ty = player.y + direction.dy();
        if self.open_ground(tx, ty) {
            let there = Self::relocated(player, tx, ty);
            (
                self.put(player.x as int, player.y as int, ObjectView::Tile).put(
                    tx,
                    ty,
                    ObjectView::Player(there),
                ),
                there,
            )
        } else {
            (self, player)
        }
    }

    /// The part of the grid within `reach_x` columns and `reach_y` rows of `(cx, cy)`, cut
    /// at the edges of the grid on all four sides: columns `max(cx - reach_x, 0)` up to but not
    /// including `min(cx + reach_x, width)`, and rows likewise.
    pub open spec fn window(self, cx: int, cy: int, reach_x: int, reach_y: int) -> GameView {
        let x0 = if cx - reach_x < 0 { 0 } else { cx - reach_x };
        let y0 = if cy - reach_y < 0 { 0 } else { cy - reach_y };
        let x1 = if cx + reach_x > self.width { self.width as int } else { cx + reach_x };
        let y1 = if cy + reach_y > self.height { self.height as int } else { cy + reach_y };
        GameView {
            width: (x1 - x0) as nat,
            height: (y1 - y0) as nat,
            map: Seq::new(
                (y1 - y0) as nat,
                |j: int| Seq::new((x1 - x0) as nat, |i: int| self.cell(x0 + i, y0 + j)),
            ),
        }
    }

    /// A grid of the given size with open ground everywhere.
    pub open spec fn blank(width: nat, height: nat) -> GameView {
        GameView {
            width,
            height,
            map: Seq::new(height, |y: int| Seq::new(width, |x: int| ObjectView::Tile)),
        }
    }
}

/// The mathematical value of stored rows: the value of each cell, row by row.
pub open spec fn grid_view(rows: Seq<Vec<Object>>) -> Seq<Seq<ObjectView>> {
    Seq::new(rows.len(), |y: int| Seq::new(rows[y]@.len(), |x: int| rows[y]@[x]@))
}

impl View for Game {
    type V = GameView;

    closed spec fn view(&self) -> GameView {
        GameView {
            width: self.width as nat,
            height: self.height as nat,
            map: grid_view(self.map@),
        }
    }
}

impl Game {
    /// A world of the given size with open ground everywhere.
    pub fn blank(width: usize, height: usize) -> (game: Game)
        requires
            width > 0,
            height > 0,
        ensures
            game@ == GameView::blank(width as nat, height as nat),
            game@.wf(),
    {
        let mut map: Vec<Vec<Object>> = Vec::new();
        let mut y: usize = 0;
        while y < height
            invariant
                y <= height,
                map@.len() == y,
                forall|j: int| 0 <= j < y ==> (#[trigger] map@[j])@.len() == width,
                forall|j: int, i: int|
                    0 <= j < y && 0 <= i < width ==> (#[trigger] map@[j]@[i])@ == ObjectView::Tile,
            decreases height - y,
        {
            let mut row: Vec<Object> = Vec::new();
            let mut x: usize = 0;
            while x < width
                invariant
                    x <= width,
                    row@.len() == x,
                    forall|i: int| 0 <= i < x ==> (#[trigger] row@[i])@ == ObjectView::Tile,
                decreases width - x,
            {
                row.push(Object::Tile(Tile::new()));
                x += 1;
            }
            map.push(row);
            y += 1;
        }
        let game = Game { width, height, map };
        assert(game@.map =~~= GameView::blank(width as nat, height as nat).map);
        game
    }

    /// The number of columns.
    pub fn width(&self) -> (width: usize)
        ensures
            width == self@.width,
    {
        self.width
    }

    /// The number of rows.
    pub fn height(&self) -> (height: usize)
        ensures
            height == self@.height,
    {
        self.height
    }

    /// The cell in column `x` of row `y`.
    pub fn cell(&self, x: usize, y: usize) -> (object: &Object)
        requires
            self@.wf(),
            self@.in_bounds(x as int, y as int),
        ensures
            object@ == self@.cell(x as int, y as int),
    {
        proof {
            self.lemma_shape(y as int);
        }
        &self.map[y][x]
    }

    /// Replaces the cell in column `x` of row `y`.
    pub fn set_cell(&mut self, x: usize, y: usize, object: Object)
        requires
            old(self)@.wf(),
            old(self)@.in_bounds(x as int, y as int),
        ensures
            final(self)@ == old(self)@.put(x as int, y as int, object@),
            final(self)@.wf(),
    {
        proof {
            self.lemma_shape(y as int);
        }
        self.map[y][x] = object;
        assert(self@.map =~~= old(self)@.put(x as int, y as int, object@).map);
    }

    /// The rows of the grid, top row first.
    pub fn rows(&self) -> (rows: &Vec<Vec<Object>>)
        ensures
            grid_view(rows@) == self@.map,
    {
        &self.map
    }

    /// The world made of the given rows, if they form a rectangle that is not empty.
    pub fn from_rows(rows: Vec<Vec<Object>>) -> (game: Option<Game>)
        ensures
            match game {
                Some(g) => {
                    &&& g@.wf()
                    &&& g@.map == grid_view(rows@)
                },
                None => {
                    ||| rows@.len() == 0
                    ||| rows@[0]@.len() == 0
                    ||| exists|y: int| 0 <= y < rows@.len() && #[trigger] rows@[y]@.len() != rows@[0]@.len()
                },
            },
    {
        let height = rows.len();
        if height == 0 {
            return None;
        }
        let width = rows[0].len();
        if width == 0 {
            return None;
        }
        let mut y: usize = 1;
        while y < height
            invariant
                1 <= y <= height,
                height == rows@.len(),
                width == rows@[0]@.len(),
                forall|j: int| 0 <= j < y ==> (#[trigger] rows@[j])@.len() == width,
            decreases height - y,
        {
            if rows[y].len() != width {
                return None;
            }
            y += 1;
        }
        let game = Game { width, height, map: rows };
        assert forall|j: int| 0 <= j < game@.height implies (#[trigger] game@.map[j]).len()
            == game@.width by {
            assert(rows@[j]@.len() == width);
        }
        Some(game)
    }

    /// Puts a new player of the given name and symbol on the cell at `(x, y)`, whatever that
    /// cell held, and hands the player back.
    pub fn spawn_player_at(&mut self, name: &str, symbol: char, x: usize, y: usize) -> (player:
        Player)
        requires
            old(self)@.wf(),
            old(self)@.in_bounds(x as int, y as int),
        ensures
            player@ == Self::newcomer(name@, symbol, x as nat, y as nat),
            final(self)@ == old(self)@.put(x as int, y as int, ObjectView::Player(player@)),
            final(self)@.wf(),
            final(self)@.holds(player@),
    {
        let player = Player::new(name.to_owned(), x, y, symbol);
        let copy = player.clone();
        self.set_cell(x, y, Object::Player(copy));
        player
    }

    /// A player of the given name and symbol at `(x, y)` who carries nothing.
    pub open spec fn newcomer(name: Seq<char>, symbol: char, x: nat, y: nat) -> PlayerView {
        PlayerView { name, x, y, inventory: Seq::empty(), symbol }
    }

    /// Puts a new player on a cell drawn at random from the whole grid, whatever that cell
    /// held, and hands the player back. Which cell is drawn is left open.
    pub fn spawn_player(&mut self, name: &str, symbol: char) -> (player: Player)
        requires
            old(self)@.wf(),
        ensures
            old(self)@.in_bounds(player@.x as int, player@.y as int),
            player@ == Self::newcomer(name@, symbol, player@.x, player@.y),
            final(self)@ == old(self)@.put(
                player@.x as int,
                player@.y as int,
                ObjectView::Player(player@),
            ),
            final(self)@.wf(),
            final(self)@.holds(player@),
    {
        let mut rng = rand::thread_rng();
        let x = random_index(&mut rng, 0, self.width);
        let y = random_index(&mut rng, 0, self.height);
        self.spawn_player_at(name, symbol, x, y)
    }

    /// Takes `player` off the grid: the first cell, reading row by row, that holds exactly
    /// this player becomes open ground. A grid without such a cell stays as it is.
    pub fn kill_player(&mut self, player: Player)
        requires
            old(self)@.wf(),
        ensures
            final(self)@ == old(self)@.killed(player@),
            final(self)@.wf(),
    {
        let mut y: usize = 0;
        while y < self.height
            invariant
                self@ == old(self)@,
                self@.wf(),
                y <= self.height,
                forall|ax: int, ay: int|
                    self@.in_bounds(ax, ay) && ay < y ==> #[trigger] self@.cell(ax, ay)
                        != ObjectView::Player(player@),
            decreases self.height - y,
        {
            let mut x: usize = 0;
            while x < self.width
                invariant
                    self@ == old(self)@,
                    self@.wf(),
                    y < self.height,
                    x <= self.width,
                    forall|ax: int, ay: int|
                        self@.in_bounds(ax, ay) && GameView::before(ax, ay, x as int, y as int)
                            ==> #[trigger] self@.cell(ax, ay) != ObjectView::Player(player@),
                decreases self.width - x,
            {
                let found = match self.cell(x, y) {
                    Object::Player(occupant) => occupant.same_as(&player),
                    _ => false,
                };
                if found {
                    proof {
                        assert(old(self)@.first_cell_of(player@, x as int, y as int));
                        lemma_first_cell(old(self)@, player@, x as int, y as int);
                    }
                    self.set_cell(x, y, Object::Tile(Tile::new()));
                    return ;
                }
                x += 1;
            }
            y += 1;
        }
    }

    /// Lets `player` try one step in `direction`. The step is taken only onto open ground
    /// inside the grid; a tree, water, another player or the edge leaves grid and player
    /// as they were.
    pub fn move_player(&mut self, player: &mut Player, direction: Direction)
        requires
            old(self)@.wf(),
            old(self)@.in_bounds(old(player).x as int, old(player).y as int),
        ensures
            (final(self)@, final(player)@) == old(self)@.moved(old(player)@, direction),
            final(self)@.wf(),
            final(self)@.in_bounds(final(player).x as int, final(player).y as int),
    {
        let (tx, ty): (usize, usize) = match direction {
            Direction::N => {
                if player.y == 0 {
                    return ;
                }
                (player.x, player.y - 1)
            },
            Direction::E => {
                if player.x + 1 >= self.width {
                    return ;
                }
                (player.x + 1, player.y)
            },
            Direction::S => {
                if player.y + 1 >= self.height {
                    return ;
                }
                (player.x, player.y + 1)
            },
            Direction::W => {
                if player.x == 0 {
                    return ;
                }
                (player.x - 1, player.y)
            },
        };
        let free = match self.cell(tx, ty) {
            Object::Tile(_) => true,
            _ => false,
        };
        if free {
            self.set_cell(player.x, player.y, Object::Tile(Tile::new()));
            player.x = tx;
            player.y = ty;
            assert(player@.inventory =~= old(player)@.inventory);
            assert(player@ == GameView::relocated(old(player)@, tx as int, ty as int));
            let copy = player.clone();
            self.set_cell(tx, ty, Object::Player(copy));
        }
    }

    /// The part of the world that `player` sees when the view reaches `reach_x` columns to
    /// either side and `reach_y` rows up and down. The window is cut at the edges of the
    /// world on all four sides, so near an edge it is smaller than `2 * reach_x` by
    /// `2 * reach_y` and never reads outside the grid.
    pub fn window(&self, player: &Player, reach_x: usize, reach_y: usize) -> (view: Game)
        requires
            self@.wf(),
            self@.in_bounds(player.x as int, player.y as int),
            reach_x > 0,
            reach_y > 0,
        ensures
            view@ == self@.window(
                player.x as int,
                player.y as int,
                reach_x as int,
                reach_y as int,
            ),
            view@.wf(),
    {
        let x0 = if player.x < reach_x { 0 } else { player.x - reach_x };
        let y0 = if player.y < reach_y { 0 } else { player.y - reach_y };
        let x1 = if reach_x > self.width - player.x { self.width } else { player.x + reach_x };
        let y1 = if reach_y > self.height - player.y { self.height } else { player.y + reach_y };
        let mut map: Vec<Vec<Object>> = Vec::new();
        let mut y: usize = y0;
        while y < y1
            invariant
                self@.wf(),
                x0 < x1 <= self.width,
                y0 <= y <= y1 <= self.height,
                map@.len() == y - y0,
                forall|j: int| 0 <= j < y - y0 ==> (#[trigger] map@[j])@.len() == x1 - x0,
                forall|j: int, i: int|
                    0 <= j < y - y0 && 0 <= i < x1 - x0 ==> (#[trigger] map@[j]@[i])@
                        == self@.cell(x0 + i, y0 + j),
            decreases y1 - y,
        {
            let mut row: Vec<Object> = Vec::new();
            let mut x: usize = x0;
            while x < x1
                invariant
                    self@.wf(),
                    y < self.height,
                    x0 <= x <= x1 <= self.width,
                    row@.len() == x - x0,
                    forall|i: int|
                        0 <= i < x - x0 ==> (#[trigger] row@[i])@ == self@.cell(x0 + i, y as int),
                decreases x1 - x,
            {
                row.push(self.cell(x, y).clone());
                x += 1;
            }
            map.push(row);
            y += 1;
        }
        let view = Game { width: x1 - x0, height: y1 - y0, map };
        assert(view@.map =~~= self@.window(
            player.x as int,
            player.y as int,
            reach_x as int,
            reach_y as int,
        ).map);
        view
    }

    /// The part of the world sent to `player`: the window that reaches `VIEW_REACH_X`
    /// columns and `VIEW_REACH_Y` rows from the player, cut at the edges of the world.
    pub fn game_from_player_view(&self, player: Player) -> (view: Game)
        requires
            self@.wf(),
            self@.in_bounds(player.x as int, player.y as int),
        ensures
            view@ == self@.window(
                player.x as int,
                player.y as int,
                VIEW_REACH_X as int,
                VIEW_REACH_Y as int,
            ),
            view@.wf(),
    {
        self.window(&player, VIEW_REACH_X, VIEW_REACH_Y)
    }

    /// In a well-formed world the stored rows have the lengths the model states.
    proof fn lemma_shape(&self, y: int)
        requires
            self@.wf(),
            0 <= y < self@.height,
        ensures
            self.map@.len() == self.height,
            self.map@[y]@.len() == self.width,
    {
        assert(self@.map[y].len() == self@.width);
    }
}

/// The cells of a grid after one cell was replaced: the new object at that place, every
/// other cell as before; the size stays.
pub proof fn lemma_put(world: GameView, x: int, y: int, object: ObjectView)
    requires
        world.wf(),
        world.in_bounds(x, y),
    ensures
        world.put(x, y, object).wf(),
        world.put(x, y, object).width == world.width,
        world.put(x, y, object).height == world.height,
        forall|ax: int, ay: int|
            world.in_bounds(ax, ay) ==> #[trigger] world.put(x, y, object).cell(ax, ay) == (if ax
                == x && ay == y {
                object
            } else {
                world.cell(ax, ay)
            }),
{
    let after = world.put(x, y, object);
    assert forall|ay: int| 0 <= ay < after.height implies (#[trigger] after.map[ay]).len()
        == after.width by {
        assert(world.map[ay].len() == world.width);
    }
}

/// Two grids of one size with equal cells are the same grid.
pub proof fn lemma_same_cells(a: GameView, b: GameView)
    requires
        a.wf(),
        b.wf(),
        a.width == b.width,
        a.height == b.height,
        forall|x: int, y: int| a.in_bounds(x, y) ==> #[trigger] a.cell(x, y) == b.cell(x, y),
    ensures
        a == b,
{
    assert forall|y: int| 0 <= y < a.height implies #[trigger] a.map[y] == b.map[y] by {
        assert forall|x: int| 0 <= x < a.width implies a.map[y][x] == b.map[y][x] by {
            assert(a.cell(x, y) == b.cell(x, y));
        }
        assert(a.map[y] =~= b.map[y]);
    }
    assert(a.map =~= b.map);
}

/// What a step does, cell by cell. A step onto open ground leaves only two cells changed:
/// the one left, now open ground, and the one entered, now holding the player at its new
/// place. Any other step changes nothing.
pub proof fn lemma_moved_cells(world: GameView, player: PlayerView, direction: Direction)
    requires
        world.wf(),
        world.in_bounds(player.x as int, player.y as int),
    ensures
        ({
            let tx = player.x + direction.dx();
            let ty = player.y + direction.dy();
            let (after, there) = world.moved(player, direction);
            &&& after.wf()
            &&& after.width == world.width
            &&& after.height == world.height
            &&& after.in_bounds(there.x as int, there.y as int)
            &&& world.open_ground(tx, ty) ==> there == GameView::relocated(player, tx, ty)
                && forall|ax: int, ay: int|
                world.in_bounds(ax, ay) ==> #[trigger] after.cell(ax, ay) == (if ax == tx && ay
                    == ty {
                    ObjectView::Player(there)
                } else if ax == player.x && ay == player.y {
                    ObjectView::Tile
                } else {
                    world.cell(ax, ay)
                })
            &&& !world.open_ground(tx, ty) ==> after == world && there == player
        }),
{
    let tx = player.x + direction.dx();
    let ty = player.y + direction.dy();
    if world.open_ground(tx, ty) {
        let left = world.put(player.x as int, player.y as int, ObjectView::Tile);
        lemma_put(world, player.x as int, player.y as int, ObjectView::Tile);
        let there = GameView::relocated(player, tx, ty);
        lemma_put(left, tx, ty, ObjectView::Player(there));
        let after = left.put(tx, ty, ObjectView::Player(there));
        assert forall|ax: int, ay: int| world.in_bounds(ax, ay) implies #[trigger] after.cell(
            ax,
            ay,
        ) == (if ax == tx && ay == ty {
            ObjectView::Player(there)
        } else if ax == player.x && ay == player.y {
            ObjectView::Tile
        } else {
            world.cell(ax, ay)
        }) by {
            assert(left.in_bounds(ax, ay));
            assert(left.cell(ax, ay) == (if ax == player.x && ay == player.y {
                ObjectView::Tile
            } else {
                world.cell(ax, ay)
            }));
        }
    }
}

/// A step changes the player's coordinates exactly when the cell stepped towards is on the
/// grid and open ground. A step that is turned down leaves grid and player as they were, so
/// trying it again is turned down again.
pub proof fn lemma_move_iff_open(world: GameView, player: PlayerView, direction: Direction)
    requires
        world.wf(),
        world.in_bounds(player.x as int, player.y as int),
    ensures
        ({
            let tx = player.x + direction.dx();
            let ty = player.y + direction.dy();
            let (after, there) = world.moved(player, direction);
            &&& (there.x != player.x || there.y != player.y) <==> world.open_ground(tx, ty)
            &&& world.open_ground(tx, ty) ==> there.x == tx && there.y == ty
            &&& !world.open_ground(tx, ty) ==> after == world && there == player && after.moved(
                there,
                direction,
            ) == (after, there)
        }),
{
}

/// In a world whose players are recorded at their own places, a player who stands on the
/// grid still does after any step of its own: exactly one cell holds the player, and it is
/// the cell at the player's coordinates. The world stays one whose players are recorded at
/// their own places.
pub proof fn lemma_move_keeps_one_cell(world: GameView, player: PlayerView, direction: Direction)
    requires
        world.wf(),
        world.placed(),
        world.holds(player),
    ensures
        ({
            let (after, there) = world.moved(player, direction);
            &&& after.wf()
            &&& after.placed()
            &&& after.holds(there)
            &&& forall|x: int, y: int|
                after.in_bounds(x, y) ==> (#[trigger] after.cell(x, y) == ObjectView::Player(there)
                    <==> x == there.x && y == there.y)
        }),
{
    lemma_moved_cells(world, player, direction);
    let (after, there) = world.moved(player, direction);
    assert forall|x: int, y: int| after.in_bounds(x, y) implies match #[trigger] after.cell(x, y) {
        ObjectView::Player(p) => p.x == x && p.y == y,
        _ => true,
    } by {
        assert(world.in_bounds(x, y));
        let c = world.cell(x, y);
    }
    assert forall|x: int, y: int| after.in_bounds(x, y) implies (#[trigger] after.cell(x, y)
        == ObjectView::Player(there) <==> x == there.x && y == there.y) by {
        assert(match after.cell(x, y) {
            ObjectView::Player(p) => p.x == x && p.y == y,
            _ => true,
        });
    }
}

/// A step keeps a world one whose players are recorded at their own places, whoever takes
/// it.
pub proof fn lemma_move_keeps_placed(world: GameView, player: PlayerView, direction: Direction)
    requires
        world.wf(),
        world.placed(),
        world.in_bounds(player.x as int, player.y as int),
    ensures
        world.moved(player, direction).0.placed(),
{
    lemma_moved_cells(world, player, direction);
    let (after, there) = world.moved(player, direction);
    assert forall|x: int, y: int| after.in_bounds(x, y) implies match #[trigger] after.cell(x, y) {
        ObjectView::Player(p) => p.x == x && p.y == y,
        _ => true,
    } by {
        assert(world.in_bounds(x, y));
        let c = world.cell(x, y);
    }
}

/// Taking a player off keeps a world one whose players are recorded at their own places,
/// whether or not the player stood on it.
pub proof fn lemma_kill_keeps_placed(world: GameView, player: PlayerView)
    requires
        world.wf(),
        world.placed(),
    ensures
        world.killed(player).placed(),
{
    if world.has_cell_of(player) {
        let (x, y) = choose|x: int, y: int|
            world.in_bounds(x, y) && #[trigger] world.cell(x, y) == ObjectView::Player(player);
        lemma_has_first_cell(world, player, x, y);
        let (fx, fy) = choose|fx: int, fy: int| world.first_cell_of(player, fx, fy);
        lemma_put(world, fx, fy, ObjectView::Tile);
        let after = world.put(fx, fy, ObjectView::Tile);
        assert forall|ax: int, ay: int| after.in_bounds(ax, ay) implies match #[trigger] after.cell(
            ax,
            ay,
        ) {
            ObjectView::Player(p) => p.x == ax && p.y == ay,
            _ => true,
        } by {
            assert(world.in_bounds(ax, ay));
            let c = world.cell(ax, ay);
        }
    }
}

/// A step of one player does not disturb another: a player who stands on the grid at a
/// different place than the one who steps stands there afterwards as well.
pub proof fn lemma_move_keeps_others(
    world: GameView,
    player: PlayerView,
    direction: Direction,
    other: PlayerView,
)
    requires
        world.wf(),
        world.in_bounds(player.x as int, player.y as int),
        world.holds(other),
        other.x != player.x || other.y != player.y,
    ensures
        world.moved(player, direction).0.holds(other),
{
    lemma_moved_cells(world, player, direction);
    let (after, there) = world.moved(player, direction);
    assert(world.cell(other.x as int, other.y as int) == ObjectView::Player(other));
    assert(after.cell(other.x as int, other.y as int) == ObjectView::Player(other));
}

/// Steps of two players that touch different cells can be taken in either order: where
/// the two stand on different cells, step towards different cells, and neither steps
/// towards the other's cell, both orders end in the same grid and the same two players, and
/// both players stand on that grid.
pub proof fn lemma_disjoint_moves_commute(
    world: GameView,
    first: PlayerView,
    first_direction: Direction,
    second: PlayerView,
    second_direction: Direction,
)
    requires
        world.wf(),
        world.holds(first),
        world.holds(second),
        first.x != second.x || first.y != second.y,
        first.x + first_direction.dx() != second.x + second_direction.dx() || first.y
            + first_direction.dy() != second.y + second_direction.dy(),
        first.x + first_direction.dx() != second.x || first.y + first_direction.dy() != second.y,
        second.x + second_direction.dx() != first.x || second.y + second_direction.dy() != first.y,
    ensures
        ({
            let (grid_a, a_early) = world.moved(first, first_direction);
            let (grid_ab, b_late) = grid_a.moved(second, second_direction);
            let (grid_b, b_early) = world.moved(second, second_direction);
            let (grid_ba, a_late) = grid_b.moved(first, first_direction);
            &&& grid_ab == grid_ba
            &&& a_early == a_late
            &&& b_late == b_early
            &&& grid_ab.holds(a_early)
            &&& grid_ab.holds(b_late)
        }),
{
    let (grid_a, a_early) = world.moved(first, first_direction);
    let (grid_b, b_early) = world.moved(second, second_direction);
    lemma_moved_cells(world, first, first_direction);
    lemma_moved_cells(world, second, second_direction);
    lemma_moved_cells(grid_a, second, second_direction);
    lemma_moved_cells(grid_b, first, first_direction);
    let (grid_ab, b_late) = grid_a.moved(second, second_direction);
    let (grid_ba, a_late) = grid_b.moved(first, first_direction);
    let ftx = first.x + first_direction.dx();
    let fty = first.y + first_direction.dy();
    let stx = second.x + second_direction.dx();
    let sty = second.y + second_direction.dy();
    assert(world.cell(first.x as int, first.y as int) == ObjectView::Player(first));
    assert(world.cell(second.x as int, second.y as int) == ObjectView::Player(second));
    assert(grid_a.open_ground(stx, sty) == world.open_ground(stx, sty)) by {
        if world.in_bounds(stx, sty) {
            assert(grid_a.cell(stx, sty) == world.cell(stx, sty));
        }
    }
    assert(grid_b.open_ground(ftx, fty) == world.open_ground(ftx, fty)) by {
        if world.in_bounds(ftx, fty) {
            assert(grid_b.cell(ftx, fty) == world.cell(ftx, fty));
        }
    }
    assert forall|x: int, y: int| grid_ab.in_bounds(x, y) implies #[trigger] grid_ab.cell(x, y)
        == grid_ba.cell(x, y) by {
        assert(world.in_bounds(x, y));
        assert(grid_a.in_bounds(x, y));
        assert(grid_b.in_bounds(x, y));
        let a = grid_a.cell(x, y);
        let b = grid_b.cell(x, y);
        let c = grid_ba.cell(x, y);
    }
    lemma_same_cells(grid_ab, grid_ba);
    assert(grid_ab.cell(a_early.x as int, a_early.y as int) == ObjectView::Player(a_early));
    assert(grid_ab.cell(b_late.x as int, b_late.y as int) == ObjectView::Player(b_late));
}

/// Steps that touch different cells, taken one after the other in any order: every player
/// named in the order has arrived (the cell stepped towards holds the player at its new
/// place, the cell left is open ground), and every cell that no such player stood on or
/// stepped towards is as it was.
pub proof fn lemma_steps_in_order(
    world: GameView,
    players: Seq<PlayerView>,
    directions: Seq<Direction>,
    order: Seq<int>,
)
    requires
        world.wf(),
        world.disjoint_steps(players, directions),
        GameView::is_order(order, players.len() as int),
    ensures
        ({
            let after = world.moved_in_order(players, directions, order);
            &&& after.wf()
            &&& after.width == world.width
            &&& after.height == world.height
            &&& forall|k: int|
                0 <= k < order.len() ==> {
                    &&& after.holds(GameView::arrived(players, directions, #[trigger] order[k]))
                    &&& after.cell(
                        GameView::spot(players, order[k]).0,
                        GameView::spot(players, order[k]).1,
                    ) == ObjectView::Tile
                }
            &&& forall|x: int, y: int|
                world.in_bounds(x, y) && GameView::untouched(players, directions, order, x, y)
                    ==> #[trigger] after.cell(x, y) == world.cell(x, y)
        }),
    decreases order.len(),
{
    if order.len() > 0 {
        let earlier = order.drop_last();
        let i = order.last();
        let last = order.len() - 1;
        assert(order[last] == i);
        assert forall|k: int| 0 <= k < earlier.len() implies 0 <= #[trigger] earlier[k]
            < players.len() by {
            assert(earlier[k] == order[k]);
        }
        assert forall|k: int, l: int|
            0 <= k < earlier.len() && 0 <= l < earlier.len() && k != l implies #[trigger] earlier[k]
            != #[trigger] earlier[l] by {
            assert(earlier[k] == order[k]);
            assert(earlier[l] == order[l]);
        }
        lemma_steps_in_order(world, players, directions, earlier);
        let before = world.moved_in_order(players, directions, earlier);
        let after = world.moved_in_order(players, directions, order);
        assert(after == before.moved(players[i], directions[i]).0);
        let (sx, sy) = GameView::spot(players, i);
        let (gx, gy) = GameView::goal(players, directions, i);
        assert(world.holds(players[i]));
        assert(world.open_ground(gx, gy));
        assert(world.cell(sx, sy) == ObjectView::Player(players[i]));
        // no earlier step touched the cell the player stands on or the one it steps towards
        assert forall|k: int| 0 <= k < earlier.len() implies GameView::spot(
            players,
            #[trigger] earlier[k],
        ) != (gx, gy) && GameView::goal(players, directions, earlier[k]) != (gx, gy)
            && GameView::spot(players, earlier[k]) != (sx, sy) && GameView::goal(
            players,
            directions,
            earlier[k],
        ) != (sx, sy) by {
            let j = earlier[k];
            assert(j == order[k]);
            assert(j != i);
            assert(world.holds(players[j]));
            assert(GameView::spot(players, j) != GameView::spot(players, i));
            assert(world.cell(GameView::spot(players, j).0, GameView::spot(players, j).1)
                == ObjectView::Player(players[j]));
            assert(world.open_ground(
                GameView::goal(players, directions, j).0,
                GameView::goal(players, directions, j).1,
            ));
        }
        assert(GameView::untouched(players, directions, earlier, gx, gy));
        assert(GameView::untouched(players, directions, earlier, sx, sy));
        assert(before.cell(gx, gy) == world.cell(gx, gy));
        assert(before.open_ground(gx, gy));
        lemma_moved_cells(before, players[i], directions[i]);
        let there = GameView::arrived(players, directions, i);
        assert forall|k: int| 0 <= k < order.len() implies {
            &&& after.holds(GameView::arrived(players, directions, #[trigger] order[k]))
            &&& after.cell(
                GameView::spot(players, order[k]).0,
                GameView::spot(players, order[k]).1,
            ) == ObjectView::Tile
        } by {
            if k < last {
                let j = order[k];
                assert(earlier[k] == j);
                assert(j != i);
                assert(world.holds(players[j]));
                assert(world.open_ground(
                    GameView::goal(players, directions, j).0,
                    GameView::goal(players, directions, j).1,
                ));
                assert(GameView::spot(players, j) != GameView::spot(players, i));
                assert(before.holds(GameView::arrived(players, directions, j)));
                assert(before.cell(GameView::spot(players, j).0, GameView::spot(players, j).1)
                    == ObjectView::Tile);
                assert(after.cell(
                    GameView::goal(players, directions, j).0,
                    GameView::goal(players, directions, j).1,
                ) == before.cell(
                    GameView::goal(players, directions, j).0,
                    GameView::goal(players, directions, j).1,
                ));
                assert(after.cell(GameView::spot(players, j).0, GameView::spot(players, j).1)
                    == before.cell(GameView::spot(players, j).0, GameView::spot(players, j).1));
            } else {
                assert(after.cell(gx, gy) == ObjectView::Player(there));
                assert(after.cell(sx, sy) == ObjectView::Tile);
            }
        }
        assert forall|x: int, y: int|
            world.in_bounds(x, y) && GameView::untouched(
                players,
                directions,
                order,
                x,
                y,
            ) implies #[trigger] after.cell(x, y) == world.cell(x, y) by {
            assert(GameView::spot(players, order[last]) != (x, y));
            assert(GameView::goal(players, directions, order[last]) != (x, y));
            assert forall|k: int| 0 <= k < earlier.len() implies GameView::spot(
                players,
                #[trigger] earlier[k],
            ) != (x, y) && GameView::goal(players, directions, earlier[k]) != (x, y) by {
                assert(earlier[k] == order[k]);
            }
            assert(before.cell(x, y) == world.cell(x, y));
            assert(before.in_bounds(x, y));
            assert(after.cell(x, y) == before.cell(x, y));
        }
    }
}

/// However the steps of any number of players that touch different cells are put in one
/// order, the outcome is the same: where every player takes its step exactly once, any two
/// orders end in the same grid. On it every player stands at the cell it stepped towards,
/// every cell a player left is open ground, and every other cell is as it was, so no player
/// was lost and none stands on two cells.
pub proof fn lemma_disjoint_steps_any_order(
    world: GameView,
    players: Seq<PlayerView>,
    directions: Seq<Direction>,
    one_order: Seq<int>,
    other_order: Seq<int>,
)
    requires
        world.wf(),
        world.placed(),
        world.disjoint_steps(players, directions),
        GameView::is_order(one_order, players.len() as int),
        GameView::is_order(other_order, players.len() as int),
        GameView::names_all(one_order, players.len() as int),
        GameView::names_all(other_order, players.len() as int),
    ensures
        world.moved_in_order(players, directions, one_order) == world.moved_in_order(
            players,
            directions,
            other_order,
        ),
        ({
            let after = world.moved_in_order(players, directions, one_order);
            &&& after.wf()
            &&& after.placed()
            &&& forall|i: int|
                0 <= i < players.len() ==> {
                    &&& after.holds(#[trigger] GameView::arrived(players, directions, i))
                    &&& after.cell(GameView::spot(players, i).0, GameView::spot(players, i).1)
                        == ObjectView::Tile
                    &&& forall|x: int, y: int|
                        after.in_bounds(x, y) && #[trigger] after.cell(x, y)
                            == ObjectView::Player(GameView::arrived(players, directions, i)) ==> (x, y)
                            == GameView::goal(players, directions, i)
                }
            &&& forall|x: int, y: int|
                world.in_bounds(x, y) && GameView::untouched(players, directions, one_order, x, y)
                    ==> #[trigger] after.cell(x, y) == world.cell(x, y)
        }),
{
    lemma_steps_in_order(world, players, directions, one_order);
    lemma_steps_in_order(world, players, directions, other_order);
    let one = world.moved_in_order(players, directions, one_order);
    let other = world.moved_in_order(players, directions, other_order);
    assert forall|x: int, y: int| one.in_bounds(x, y) implies #[trigger] one.cell(x, y)
        == other.cell(x, y) by {
        assert(world.in_bounds(x, y));
        if exists|k: int|
            0 <= k < one_order.len() && (GameView::spot(players, #[trigger] one_order[k]) == (x, y)
                || GameView::goal(players, directions, one_order[k]) == (x, y)) {
            let k = choose|k: int|
                0 <= k < one_order.len() && (GameView::spot(players, #[trigger] one_order[k]) == (
                    x,
                    y,
                ) || GameView::goal(players, directions, one_order[k]) == (x, y));
            let i = one_order[k];
            assert(other_order.contains(i));
            let l = choose|l: int| 0 <= l < other_order.len() && other_order[l] == i;
            assert(other_order[l] == i);
            assert(one.holds(GameView::arrived(players, directions, one_order[k])));
            assert(other.holds(GameView::arrived(players, directions, other_order[l])));
        } else {
            assert(GameView::untouched(players, directions, one_order, x, y));
            assert forall|l: int| 0 <= l < other_order.len() implies GameView::spot(
                players,
                #[trigger] other_order[l],
            ) != (x, y) && GameView::goal(players, directions, other_order[l]) != (x, y) by {
                let i = other_order[l];
                assert(one_order.contains(i));
                let k = choose|k: int| 0 <= k < one_order.len() && one_order[k] == i;
                assert(one_order[k] == i);
            }
            assert(GameView::untouched(players, directions, other_order, x, y));
        }
    }
    lemma_same_cells(one, other);
    // players stay recorded at their own places
    assert forall|x: int, y: int| one.in_bounds(x, y) implies match #[trigger] one.cell(x, y) {
        ObjectView::Player(p) => p.x == x && p.y == y,
        _ => true,
    } by {
        assert(world.in_bounds(x, y));
        if exists|k: int|
            0 <= k < one_order.len() && (GameView::spot(players, #[trigger] one_order[k]) == (x, y)
                || GameView::goal(players, directions, one_order[k]) == (x, y)) {
            let k = choose|k: int|
                0 <= k < one_order.len() && (GameView::spot(players, #[trigger] one_order[k]) == (
                    x,
                    y,
                ) || GameView::goal(players, directions, one_order[k]) == (x, y));
            assert(one.holds(GameView::arrived(players, directions, one_order[k])));
        } else {
            assert(GameView::untouched(players, directions, one_order, x, y));
            let c = world.cell(x, y);
        }
    }
    assert forall|i: int| 0 <= i < players.len() implies {
        &&& one.holds(#[trigger] GameView::arrived(players, directions, i))
        &&& one.cell(GameView::spot(players, i).0, GameView::spot(players, i).1)
            == ObjectView::Tile
        &&& forall|x: int, y: int|
            one.in_bounds(x, y) && #[trigger] one.cell(x, y) == ObjectView::Player(
                GameView::arrived(players, directions, i),
            ) ==> (x, y) == GameView::goal(players, directions, i)
    } by {
        assert(one_order.contains(i));
        let k = choose|k: int| 0 <= k < one_order.len() && one_order[k] == i;
        assert(one_order[k] == i);
        assert(one.holds(GameView::arrived(players, directions, one_order[k])));
        assert forall|x: int, y: int|
            one.in_bounds(x, y) && #[trigger] one.cell(x, y) == ObjectView::Player(
                GameView::arrived(players, directions, i),
            ) implies (x, y) == GameView::goal(players, directions, i) by {
            assert(match one.cell(x, y) {
                ObjectView::Player(p) => p.x == x && p.y == y,
                _ => true,
            });
        }
    }
}

/// A grid has at most one first cell of a player, so taking the player off clears that
/// cell.
pub proof fn lemma_first_cell(world: GameView, player: PlayerView, x: int, y: int)
    requires
        world.first_cell_of(player, x, y),
    ensures
        world.has_cell_of(player),
        world.killed(player) == world.put(x, y, ObjectView::Tile),
{
    assert(world.cell(x, y) == ObjectView::Player(player));
    let (cx, cy) = choose|cx: int, cy: int| world.first_cell_of(player, cx, cy);
    assert(world.first_cell_of(player, cx, cy));
    assert(world.cell(cx, cy) == ObjectView::Player(player));
    if cx != x || cy != y {
        if GameView::before(cx, cy, x, y) {
            assert(world.cell(cx, cy) != ObjectView::Player(player));
        } else {
            assert(GameView::before(x, y, cx, cy));
            assert(world.cell(x, y) != ObjectView::Player(player));
        }
    }
}

/// Taking a player off a world whose players are recorded at their own places, on which
/// the player stands: the one cell that holds the player, the cell at the player's
/// coordinates, becomes open ground; afterwards no cell holds the player, every other cell
/// is as before, and the players are still recorded at their own places.
pub proof fn lemma_kill_clears_only_cell(world: GameView, player: PlayerView)
    requires
        world.wf(),
        world.placed(),
        world.holds(player),
    ensures
        world.killed(player) == world.put(player.x as int, player.y as int, ObjectView::Tile),
        world.killed(player).wf(),
        world.killed(player).placed(),
        !world.killed(player).has_cell_of(player),
        forall|ax: int, ay: int|
            world.in_bounds(ax, ay) && !(ax == player.x && ay == player.y)
                ==> #[trigger] world.killed(player).cell(ax, ay) == world.cell(ax, ay),
{
    let x = player.x as int;
    let y = player.y as int;
    lemma_holder_is_first_cell(world, player);
    lemma_first_cell(world, player, x, y);
    lemma_put(world, x, y, ObjectView::Tile);
    let after = world.put(x, y, ObjectView::Tile);
    assert forall|ax: int, ay: int| after.in_bounds(ax, ay) implies #[trigger] after.cell(ax, ay)
        != ObjectView::Player(player) by {
        assert(world.in_bounds(ax, ay));
        assert(match world.cell(ax, ay) {
            ObjectView::Player(p) => p.x == ax && p.y == ay,
            _ => true,
        });
    }
    assert forall|ax: int, ay: int| after.in_bounds(ax, ay) implies match #[trigger] after.cell(
        ax,
        ay,
    ) {
        ObjectView::Player(p) => p.x == ax && p.y == ay,
        _ => true,
    } by {
        assert(world.in_bounds(ax, ay));
        let c = world.cell(ax, ay);
    }
}

/// Taking a player off keeps a grid well formed, whether or not the player stood on it.
pub proof fn lemma_killed_wf(world: GameView, player: PlayerView)
    requires
        world.wf(),
    ensures
        world.killed(player).wf(),
        world.killed(player).width == world.width,
        world.killed(player).height == world.height,
{
    if world.has_cell_of(player) {
        let (x, y) = choose|x: int, y: int|
            world.in_bounds(x, y) && #[trigger] world.cell(x, y) == ObjectView::Player(player);
        lemma_has_first_cell(world, player, x, y);
        let (fx, fy) = choose|fx: int, fy: int| world.first_cell_of(player, fx, fy);
        lemma_put(world, fx, fy, ObjectView::Tile);
    }
}

/// A grid with a cell that holds a player has a first such cell.
pub proof fn lemma_has_first_cell(world: GameView, player: PlayerView, x: int, y: int)
    requires
        world.wf(),
        world.in_bounds(x, y),
        world.cell(x, y) == ObjectView::Player(player),
    ensures
        exists|fx: int, fy: int| world.first_cell_of(player, fx, fy),
    decreases y * world.width + x,
{
    if exists|ax: int, ay: int|
        world.in_bounds(ax, ay) && GameView::before(ax, ay, x, y) && #[trigger] world.cell(ax, ay)
            == ObjectView::Player(player) {
        let (ax, ay) = choose|ax: int, ay: int|
            world.in_bounds(ax, ay) && GameView::before(ax, ay, x, y) && #[trigger] world.cell(
                ax,
                ay,
            ) == ObjectView::Player(player);
        assert(ay * world.width + ax < y * world.width + x) by (nonlinear_arith)
            requires
                0 <= ax < world.width,
                0 <= x < world.width,
                0 <= ay,
                ay < y || (ay == y && ax < x),
        ;
        assert(ay * world.width + ax >= 0) by (nonlinear_arith)
            requires
                0 <= ax,
                0 <= ay,
                world.width > 0,
        ;
        lemma_has_first_cell(world, player, ax, ay);
    } else {
        assert(world.first_cell_of(player, x, y));
    }
}

/// A player who stands on a world whose players are recorded at their own places has a
/// first cell, and it is the cell at the player's coordinates.
pub proof fn lemma_holder_is_first_cell(world: GameView, player: PlayerView)
    requires
        world.wf(),
        world.placed(),
        world.holds(player),
    ensures
        world.has_cell_of(player),
        world.first_cell_of(player, player.x as int, player.y as int),
{
    assert(world.cell(player.x as int, player.y as int) == ObjectView::Player(player));
    assert forall|ax: int, ay: int|
        world.in_bounds(ax, ay) && GameView::before(
            ax,
            ay,
            player.x as int,
            player.y as int,
        ) implies #[trigger] world.cell(ax, ay) != ObjectView::Player(player) by {
        assert(match world.cell(ax, ay) {
            ObjectView::Player(p) => p.x == ax && p.y == ay,
            _ => true,
        });
    }
}

/// Putting a player on a cell, recorded with that cell's coordinates, keeps a world one
/// whose players are recorded at their own places.
pub proof fn lemma_spawn_keeps_placed(world: GameView, player: PlayerView)
    requires
        world.wf(),
        world.placed(),
        world.in_bounds(player.x as int, player.y as int),
    ensures
        world.put(player.x as int, player.y as int, ObjectView::Player(player)).placed(),
        world.put(player.x as int, player.y as int, ObjectView::Player(player)).holds(player),
{
    lemma_put(world, player.x as int, player.y as int, ObjectView::Player(player));
    let after = world.put(player.x as int, player.y as int, ObjectView::Player(player));
    assert forall|ax: int, ay: int| after.in_bounds(ax, ay) implies match #[trigger] after.cell(
        ax,
        ay,
    ) {
        ObjectView::Player(p) => p.x == ax && p.y == ay,
        _ => true,
    } by {
        assert(world.in_bounds(ax, ay));
        let c = world.cell(ax, ay);
    }
}

} // verus!
