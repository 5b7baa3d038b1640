use crate::game::{lemma_same_cells, Game, GameView};
use crate::objects::{Object, ObjectView, Tree, Water};
use crate::random::{random_chance, random_index};
use vstd::prelude::*;

verus! {

/// Chance, in percent, that water spreads from a seed cell to one of its neighbours.
pub const WATER_CHANCE: u32 = 70;

/// By how many percent that chance drops with each further step away from the seed.
pub const WATER_CHANCE_DROP: u32 = 5;

/// How many steps away from its seed a body of water can reach.
pub const WATER_DEPTH: u8 = 5;

/// The column and row offset of the `k`-th of the eight neighbours of a cell.
pub open spec fn offset(k: int) -> (int, int) {
    if k == 0 {
        (1, 1)
    } else if k == 1 {
        (1, -1)
    } else if k == 2 {
        (-1, -1)
    } else if k == 3 {
        (-1, 1)
    } else if k == 4 {
        (0, 1)
    } else if k == 5 {
        (0, -1)
    } else if k == 6 {
        (1, 0)
    } else {
        (-1, 0)
    }
}

/// Whether `(ax, ay)` lies within `reach` columns and `reach` rows of `(x, y)`.
pub open spec fn near(x: int, y: int, ax: int, ay: int, reach: int) -> bool {
    -reach <= ax - x <= reach && -reach <= ay - y <= reach
}

/// First index of the part of an axis of `len` cells that keeps `margin` cells away from
/// both ends. An axis too short to have such a part is taken whole.
pub open spec fn inner_low(len: int, margin: int) -> int {
    if len > 2 * margin {
        margin
    } else {
        0
    }
}

/// End (exclusive) of the part of an axis of `len` cells that keeps `margin` cells away
/// from both ends. An axis too short to have such a part is taken whole.
pub open spec fn inner_high(len: int, margin: int) -> int {
    if len > 2 * margin {
        len - margin
    } else {
        len
    }
}

/// Whether a grove planted at `(x, y)` covers `(ax, ay)`, counting the centre and the
/// first `k` neighbours: the centre always, neighbour `j` where `spread[j]` is set.
pub open spec fn grove_covers(x: int, y: int, spread: Seq<bool>, ax: int, ay: int, k: int) -> bool
    decreases k,
{
    if k <= 0 {
        ax == x && ay == y
    } else {
        grove_covers(x, y, spread, ax, ay, k - 1) || (spread[k - 1] && ax == x + offset(k - 1).0
            && ay == y + offset(k - 1).1)
    }
}

/// Whether the ring of water round `(x, y)` covers `(ax, ay)`, counting the first `k`
/// neighbours: neighbour `j` is covered where `spread[j]` is set. The centre never is.
pub open spec fn ring_covers(x: int, y: int, spread: Seq<bool>, ax: int, ay: int, k: int) -> bool
    decreases k,
{
    if k <= 0 {
        false
    } else {
        ring_covers(x, y, spread, ax, ay, k - 1) || (spread[k - 1] && ax == x + offset(k - 1).0
            && ay == y + offset(k - 1).1)
    }
}

/// The chance, in percent, with which water spreads on from a cell it reached with the
/// chance `percent`: lower by `WATER_CHANCE_DROP`, and never below zero.
pub open spec fn chance_after(percent: int) -> int {
    if percent >= WATER_CHANCE_DROP {
        percent - WATER_CHANCE_DROP
    } else {
        0
    }
}

/// Whether `after` is a grid that water spreading from `(x, y)` to a depth of `depth` can
/// leave of `before`.
///
/// With no depth left nothing changes. Otherwise some ring of water is laid round `(x, y)`,
/// and then, for each neighbour in turn that the ring reached, water spreads on from that
/// neighbour with a depth lower by one; `stages` are the grids this passes through, from
/// the grid with the ring laid to `after`.
pub open spec fn flooded(before: GameView, after: GameView, x: int, y: int, depth: nat) -> bool
    decreases depth,
{
    if depth == 0 {
        after == before
    } else {
        exists|spread: Seq<bool>, stages: Seq<GameView>|
            #![trigger before.with_ring(x, y, spread), stages[0]]
            {
                &&& spread.len() == 8
                &&& stages.len() == 9
                &&& stages[0] == before.with_ring(x, y, spread)
                &&& stages[8] == after
                &&& forall|k: int|
                    0 <= k < 8 ==> if #[trigger] spread[k] && before.in_bounds(
                        x + offset(k).0,
                        y + offset(k).1,
                    ) {
                        flooded(
                            stages[k],
                            stages[k + 1],
                            x + offset(k).0,
                            y + offset(k).1,
                            (depth - 1) as nat,
                        )
                    } else {
                        stages[k + 1] == stages[k]
                    }
            }
    }
}

/// Whether stage `k + 1` of a spread follows from stage `k`: water has spread on from the
/// `k`-th neighbour of `(x, y)` where the ring reached it, and nothing has changed where
/// it did not.
pub open spec fn flood_step(
    stages: Seq<GameView>,
    spread: Seq<bool>,
    x: int,
    y: int,
    depth: nat,
    k: int,
) -> bool {
    if spread[k] && stages[0].in_bounds(x + offset(k).0, y + offset(k).1) {
        flooded(stages[k], stages[k + 1], x + offset(k).0, y + offset(k).1, (depth - 1) as nat)
    } else {
        stages[k + 1] == stages[k]
    }
}

/// One grove: the cell at its centre, and for each of the eight neighbours of the centre
/// whether the grove spreads there.
pub struct Grove {
    pub x: int,
    pub y: int,
    pub spread: Seq<bool>,
}

/// Whether `(x, y)` lies within `reach` columns and `reach` rows of one of `seeds`.
pub open spec fn reached(seeds: Seq<(int, int)>, x: int, y: int, reach: int) -> bool {
    exists|i: int| 0 <= i < seeds.len() && near((#[trigger] seeds[i]).0, seeds[i].1, x, y, reach)
}

impl GameView {
    /// The grid with one grove planted: a tree at the grove's centre and on every neighbour
    /// of the centre that the grove spreads to; every other cell as it was.
    pub open spec fn with_grove(self, grove: Grove) -> GameView {
        GameView {
            width: self.width,
            height: self.height,
            map: Seq::new(
                self.height,
                |ay: int|
                    Seq::new(
                        self.width,
                        |ax: int|
                            if grove_covers(grove.x, grove.y, grove.spread, ax, ay, 8) {
                                ObjectView::Tree
                            } else {
                                self.cell(ax, ay)
                            },
                    ),
            ),
        }
    }

    /// The grid with one ring of water laid round `(x, y)`: water on every neighbour of
    /// `(x, y)` that lies on the grid and whose entry in `spread` is set; every other cell,
    /// `(x, y)` itself among them, as it was.
    pub open spec fn with_ring(self, x: int, y: int, spread: Seq<bool>) -> GameView {
        GameView {
            width: self.width,
            height: self.height,
            map: Seq::new(
                self.height,
                |ay: int|
                    Seq::new(
                        self.width,
                        |ax: int|
                            if ring_covers(x, y, spread, ax, ay, 8) {
                                ObjectView::Water
                            } else {
                                self.cell(ax, ay)
                            },
                    ),
            ),
        }
    }

    /// The grid with the groves of `plan` planted one after the other.
    pub open spec fn with_groves(self, plan: Seq<Grove>) -> GameView
        decreases plan.len(),
    {
        if plan.len() == 0 {
            self
        } else {
            self.with_groves(plan.drop_last()).with_grove(plan.last())
        }
    }

    /// Whether `plan` is a scatter of groves the generator may choose for this grid: as
    /// many groves as `tree_density` says, each centred in the part of the grid that keeps
    /// one cell away from every edge (the whole axis where the grid is too narrow for
    /// that), each saying of all eight neighbours whether it spreads there.
    pub open spec fn tree_plan(self, plan: Seq<Grove>) -> bool {
        &&& plan.len() == self.tree_density()
        &&& forall|i: int|
            0 <= i < plan.len() ==> {
                &&& inner_low(self.width as int, 1) <= (#[trigger] plan[i]).x < inner_high(
                    self.width as int,
                    1,
                )
                &&& inner_low(self.height as int, 1) <= plan[i].y < inner_high(
                    self.height as int,
                    1,
                )
                &&& plan[i].spread.len() == 8
            }
    }

    /// Whether `seeds` are cells the generator may choose to seed water at on this grid:
    /// as many as `water_density` says, each in the part of the grid that keeps two cells
    /// away from every edge (the whole axis where the grid is too narrow for that).
    pub open spec fn water_seeds(self, seeds: Seq<(int, int)>) -> bool {
        &&& seeds.len() == self.water_density()
        &&& forall|i: int|
            0 <= i < seeds.len() ==> {
                &&& inner_low(self.width as int, 2) <= (#[trigger] seeds[i]).0 < inner_high(
                    self.width as int,
                    2,
                )
                &&& inner_low(self.height as int, 2) <= seeds[i].1 < inner_high(
                    self.height as int,
                    2,
                )
            }
    }

    /// Whether this grid is `before` after water was seeded at `seeds` and spread from
    /// there: the size is the same, every seed cell holds water, and every other cell
    /// either is as in `before` or holds water and lies within `WATER_DEPTH` of a seed.
    pub open spec fn watered_from(self, before: GameView, seeds: Seq<(int, int)>) -> bool {
        &&& self.width == before.width
        &&& self.height == before.height
        &&& forall|i: int|
            0 <= i < seeds.len() ==> self.cell((#[trigger] seeds[i]).0, seeds[i].1)
                == ObjectView::Water
        &&& forall|x: int, y: int|
            before.in_bounds(x, y) ==> #[trigger] self.cell(x, y) == before.cell(x, y) || (
            self.cell(x, y) == ObjectView::Water && reached(seeds, x, y, WATER_DEPTH as int))
    }

    /// How many groves the generator plants: three for every hundred cells, rounded down.
    pub open spec fn tree_density(self) -> nat {
        (self.width * self.height * 3) / 100
    }

    /// How many bodies of water the generator seeds: one for every two thousand cells,
    /// rounded down.
    pub open spec fn water_density(self) -> nat {
        (self.width * self.height) / 2000
    }

    /// No cell holds a player.
    pub open spec fn terrain_only(self) -> bool {
        forall|x: int, y: int|
            self.in_bounds(x, y) ==> !(#[trigger] self.cell(x, y) is Player)
    }

    /// Same size as `before`, and every cell either as in `before` or turned into `kind`.
    pub open spec fn grown_from(self, before: GameView, kind: ObjectView) -> bool {
        &&& self.width == before.width
        &&& self.height == before.height
        &&& forall|x: int, y: int|
            before.in_bounds(x, y) ==> #[trigger] self.cell(x, y) == before.cell(x, y)
                || self.cell(x, y) == kind
    }

    /// The `k`-th neighbour of `(x, y)` holds water, or lies off the grid.
    pub open spec fn wet_towards(self, x: int, y: int, k: int) -> bool {
        self.in_bounds(x + offset(k).0, y + offset(k).1) ==> self.cell(
            x + offset(k).0,
            y + offset(k).1,
        ) == ObjectView::Water
    }

    /// Every cell farther than `reach` from `(x, y)` is as in `before`.
    pub open spec fn same_beyond(self, before: GameView, x: int, y: int, reach: int) -> bool {
        forall|ax: int, ay: int|
            before.in_bounds(ax, ay) && !near(x, y, ax, ay, reach) ==> #[trigger] self.cell(ax, ay)
                == before.cell(ax, ay)
    }
}

/// A ring covers only neighbours of its centre, never the centre, and covers neighbour `j`
/// wherever `spread[j]` is set; a ring with nothing set covers nothing.
pub proof fn lemma_ring_covers(x: int, y: int, spread: Seq<bool>, ax: int, ay: int, k: int)
    requires
        0 <= k <= 8,
    ensures
        ring_covers(x, y, spread, ax, ay, k) ==> near(x, y, ax, ay, 1) && !(ax == x && ay == y),
        forall|j: int|
            0 <= j < k && spread[j] && ax == x + offset(j).0 && ay == y + offset(j).1
                ==> ring_covers(x, y, spread, ax, ay, k),
        (forall|j: int| 0 <= j < k ==> !spread[j]) ==> !ring_covers(x, y, spread, ax, ay, k),
    decreases k,
{
    if k > 0 {
        lemma_ring_covers(x, y, spread, ax, ay, k - 1);
    }
}

/// The cells of a grid after a ring of water was laid: water where the ring covers, every
/// other cell as before; the size stays.
pub proof fn lemma_with_ring(world: GameView, x: int, y: int, spread: Seq<bool>)
    requires
        world.wf(),
    ensures
        world.with_ring(x, y, spread).wf(),
        world.with_ring(x, y, spread).width == world.width,
        world.with_ring(x, y, spread).height == world.height,
        forall|ax: int, ay: int|
            world.in_bounds(ax, ay) ==> #[trigger] world.with_ring(x, y, spread).cell(ax, ay) == (
            if ring_covers(x, y, spread, ax, ay, 8) {
                ObjectView::Water
            } else {
                world.cell(ax, ay)
            }),
        world.in_bounds(x, y) ==> world.with_ring(x, y, spread).cell(x, y) == world.cell(x, y),
        world.with_ring(x, y, spread).grown_from(world, ObjectView::Water),
        world.with_ring(x, y, spread).same_beyond(world, x, y, 1),
        (forall|j: int| 0 <= j < 8 ==> !spread[j]) ==> world.with_ring(x, y, spread) == world,
{
    let ringed = world.with_ring(x, y, spread);
    lemma_ring_covers(x, y, spread, x, y, 8);
    assert forall|ax: int, ay: int| world.in_bounds(ax, ay) implies (#[trigger] ringed.cell(ax, ay)
        == world.cell(ax, ay) || ringed.cell(ax, ay) == ObjectView::Water) && (!near(
        x,
        y,
        ax,
        ay,
        1,
    ) ==> ringed.cell(ax, ay) == world.cell(ax, ay)) by {
        lemma_ring_covers(x, y, spread, ax, ay, 8);
    }
    if forall|j: int| 0 <= j < 8 ==> !spread[j] {
        assert forall|ax: int, ay: int| ringed.in_bounds(ax, ay) implies #[trigger] ringed.cell(
            ax,
            ay,
        ) == world.cell(ax, ay) by {
            lemma_ring_covers(x, y, spread, ax, ay, 8);
        }
        lemma_same_cells(ringed, world);
    }
}

/// Planting groves keeps the size of a grid, and with it the number of groves and of water
/// seeds due.
pub proof fn lemma_with_groves_size(world: GameView, plan: Seq<Grove>)
    ensures
        world.with_groves(plan).width == world.width,
        world.with_groves(plan).height == world.height,
        world.with_groves(plan).tree_density() == world.tree_density(),
        world.with_groves(plan).water_density() == world.water_density(),
    decreases plan.len(),
{
    if plan.len() > 0 {
        lemma_with_groves_size(world, plan.drop_last());
    }
}

/// The chance with which water spreads on from a cell it reached with the chance `percent`.
pub fn next_chance(percent: u32) -> (next: u32)
    ensures
        next == chance_after(percent as int),
        next <= percent,
{
    if percent >= WATER_CHANCE_DROP {
        percent - WATER_CHANCE_DROP
    } else {
        0
    }
}

/// The part of an axis of `len` cells that keeps `margin` cells away from both ends, as a
/// half-open range; the whole axis where it is too short for that.
pub fn inner_range(len: usize, margin: usize) -> (range: (usize, usize))
    requires
        len > 0,
    ensures
        range.0 == inner_low(len as int, margin as int),
        range.1 == inner_high(len as int, margin as int),
        range.0 < range.1 <= len,
{
    if margin < len && margin < len - margin {
        (margin, len - margin)
    } else {
        (0, len)
    }
}

impl Game {
    /// How many groves the generator plants in this world.
    pub fn tree_density(&self) -> (count: u128)
        ensures
            count == self@.tree_density(),
    {
        let width = self.width() as u128;
        let height = self.height() as u128;
        assert(width * height <= 0xffff_ffff_ffff_ffff * 0xffff_ffff_ffff_ffff) by (nonlinear_arith)
            requires
                width <= 0xffff_ffff_ffff_ffff,
                height <= 0xffff_ffff_ffff_ffff,
        ;
        let cells: u128 = width * height;
        (cells / 100) * 3 + ((cells % 100) * 3) / 100
    }

    /// How many bodies of water the generator seeds in this world.
    pub fn water_density(&self) -> (count: u128)
        ensures
            count == self@.water_density(),
    {
        let width = self.width() as u128;
        let height = self.height() as u128;
        assert(width * height <= 0xffff_ffff_ffff_ffff * 0xffff_ffff_ffff_ffff) by (nonlinear_arith)
            requires
                width <= 0xffff_ffff_ffff_ffff,
                height <= 0xffff_ffff_ffff_ffff,
        ;
        let cells: u128 = width * height;
        cells / 2000
    }

    /// The `k`-th of the eight neighbours of `(x, y)`, if there is such a neighbour on the
    /// grid.
    pub fn neighbor(&self, x: usize, y: usize, k: usize) -> (cell: Option<(usize, usize)>)
        requires
            self@.in_bounds(x as int, y as int),
        ensures
            match cell {
                Some((nx, ny)) => k < 8 && nx == x + offset(k as int).0 && ny == y + offset(
                    k as int,
                ).1 && self@.in_bounds(nx as int, ny as int),
                None => k >= 8 || !self@.in_bounds(
                    x + offset(k as int).0,
                    y + offset(k as int).1,
                ),
            },
    {
        if k >= 8 {
            return None;
        }
        let right = k == 0 || k == 1 || k == 6;
        let left = k == 2 || k == 3 || k == 7;
        let down = k == 0 || k == 3 || k == 4;
        let up = k == 1 || k == 2 || k == 5;
        let width = self.width();
        let height = self.height();
        if (left && x == 0) || (up && y == 0) {
            return None;
        }
        if (right && x + 1 >= width) || (down && y + 1 >= height) {
            return None;
        }
        let nx = if right { x + 1 } else if left { x - 1 } else { x };
        let ny = if down { y + 1 } else if up { y - 1 } else { y };
        Some((nx, ny))
    }

    /// Plants a grove: a tree at `(x, y)` and a tree on each neighbour `k` for which
    /// `spread[k]` is set. A neighbour that would lie off the grid is skipped.
    pub fn plant_grove(&mut self, x: usize, y: usize, spread: &[bool; 8])
        requires
            old(self)@.wf(),
            old(self)@.in_bounds(x as int, y as int),
        ensures
            final(self)@.wf(),
            final(self)@.width == old(self)@.width,
            final(self)@.height == old(self)@.height,
            forall|ax: int, ay: int|
                old(self)@.in_bounds(ax, ay) ==> #[trigger] final(self)@.cell(ax, ay) == (
                if grove_covers(x as int, y as int, spread@, ax, ay, 8) {
                    ObjectView::Tree
                } else {
                    old(self)@.cell(ax, ay)
                }),
            final(self)@ == old(self)@.with_grove(
                (Grove { x: x as int, y: y as int, spread: spread@ }),
            ),
    {
        self.set_cell(x, y, Object::Tree(Tree::new()));
        let mut k: usize = 0;
        while k < 8
            invariant
                k <= 8,
                self@.wf(),
                self@.width == old(self)@.width,
                self@.height == old(self)@.height,
                old(self)@.in_bounds(x as int, y as int),
                forall|ax: int, ay: int|
                    old(self)@.in_bounds(ax, ay) ==> #[trigger] self@.cell(ax, ay) == (
                    if grove_covers(x as int, y as int, spread@, ax, ay, k as int) {
                        ObjectView::Tree
                    } else {
                        old(self)@.cell(ax, ay)
                    }),
            decreases 8 - k,
        {
            let ghost before = self@;
            if spread[k] {
                match self.neighbor(x, y, k) {
                    Some((nx, ny)) => {
                        self.set_cell(nx, ny, Object::Tree(Tree::new()));
                    },
                    None => {},
                }
            }
            assert forall|ax: int, ay: int| old(self)@.in_bounds(ax, ay) implies #[trigger] self@.cell(
                ax,
                ay,
            ) == (if grove_covers(x as int, y as int, spread@, ax, ay, k + 1) {
                ObjectView::Tree
            } else {
                old(self)@.cell(ax, ay)
            }) by {
                let hit = spread@[k as int] && ax == x + offset(k as int).0 && ay == y + offset(
                    k as int,
                ).1;
                assert(grove_covers(x as int, y as int, spread@, ax, ay, k + 1) == (grove_covers(
                    x as int,
                    y as int,
                    spread@,
                    ax,
                    ay,
                    k as int,
                ) || hit));
                assert(before.cell(ax, ay) == (if grove_covers(
                    x as int,
                    y as int,
                    spread@,
                    ax,
                    ay,
                    k as int,
                ) {
                    ObjectView::Tree
                } else {
                    old(self)@.cell(ax, ay)
                }));
            }
            k += 1;
        }
        proof {
            let planted = old(self)@.with_grove(
                Grove { x: x as int, y: y as int, spread: spread@ },
            );
            assert forall|ax: int, ay: int| self@.in_bounds(ax, ay) implies #[trigger] self@.cell(
                ax,
                ay,
            ) == planted.cell(ax, ay) by {
                assert(old(self)@.in_bounds(ax, ay));
            }
            lemma_same_cells(self@, planted);
        }
    }

    /// Scatters groves over the world: as many as `tree_density` says, each centred on a
    /// cell drawn at random from the part of the grid that keeps one cell away from every
    /// edge, each neighbour of the centre joining the grove with a chance of one in two.
    /// Whatever is drawn, the world afterwards is the world before with some such scatter
    /// of groves planted, one grove after the other; so a cell either stays as it was or
    /// becomes a tree.
    pub fn populate_trees(&mut self)
        requires
            old(self)@.wf(),
        ensures
            final(self)@.wf(),
            exists|plan: Seq<Grove>| #[trigger]
                old(self)@.tree_plan(plan) && final(self)@ == old(self)@.with_groves(plan),
            final(self)@.grown_from(old(self)@, ObjectView::Tree),
            old(self)@.tree_density() == 0 ==> final(self)@ == old(self)@,
    {
        let mut rng = rand::thread_rng();
        let density = self.tree_density();
        let (x_low, x_high) = inner_range(self.width(), 1);
        let (y_low, y_high) = inner_range(self.height(), 1);
        let mut planted: u128 = 0;
        let ghost mut plan: Seq<Grove> = Seq::empty();
        while planted < density
            invariant
                self@.wf(),
                self@.grown_from(old(self)@, ObjectView::Tree),
                planted == 0 ==> self@ == old(self)@,
                x_low < x_high <= self@.width,
                y_low < y_high <= self@.height,
                x_low == inner_low(old(self)@.width as int, 1),
                x_high == inner_high(old(self)@.width as int, 1),
                y_low == inner_low(old(self)@.height as int, 1),
                y_high == inner_high(old(self)@.height as int, 1),
                planted <= density,
                density == old(self)@.tree_density(),
                plan.len() == planted,
                forall|i: int|
                    0 <= i < plan.len() ==> x_low <= (#[trigger] plan[i]).x < x_high && y_low
                        <= plan[i].y < y_high && plan[i].spread.len() == 8,
                self@ == old(self)@.with_groves(plan),
            decreases density - planted,
        {
            let ghost before = self@;
            let x = random_index(&mut rng, x_low, x_high);
            let y = random_index(&mut rng, y_low, y_high);
            let spread = [
                random_chance(&mut rng, 1, 2),
                random_chance(&mut rng, 1, 2),
                random_chance(&mut rng, 1, 2),
                random_chance(&mut rng, 1, 2),
                random_chance(&mut rng, 1, 2),
                random_chance(&mut rng, 1, 2),
                random_chance(&mut rng, 1, 2),
                random_chance(&mut rng, 1, 2),
            ];
            self.plant_grove(x, y, &spread);
            assert forall|ax: int, ay: int| old(self)@.in_bounds(ax, ay) implies #[trigger] self@.cell(
                ax,
                ay,
            ) == old(self)@.cell(ax, ay) || self@.cell(ax, ay) == ObjectView::Tree by {
                assert(before.cell(ax, ay) == old(self)@.cell(ax, ay) || before.cell(ax, ay)
                    == ObjectView::Tree);
            }
            proof {
                let grove = Grove { x: x as int, y: y as int, spread: spread@ };
                let longer = plan.push(grove);
                assert(longer.drop_last() =~= plan);
                assert(longer.last() == grove);
                plan = longer;
            }
            planted += 1;
        }
        assert(old(self)@.tree_plan(plan));
    }

    /// Lays one ring of water round `(x, y)`: every neighbour `k` of `(x, y)` for which
    /// `spread[k]` is set turns to water. A neighbour that would lie off the grid is
    /// skipped; the cell `(x, y)` itself stays as it is.
    pub fn wet_ring(&mut self, x: usize, y: usize, spread: &[bool; 8])
        requires
            old(self)@.wf(),
            old(self)@.in_bounds(x as int, y as int),
        ensures
            final(self)@ == old(self)@.with_ring(x as int, y as int, spread@),
            final(self)@.wf(),
    {
        let mut k: usize = 0;
        while k < 8
            invariant
                k <= 8,
                self@.wf(),
                self@.width == old(self)@.width,
                self@.height == old(self)@.height,
                old(self)@.in_bounds(x as int, y as int),
                forall|ax: int, ay: int|
                    old(self)@.in_bounds(ax, ay) ==> #[trigger] self@.cell(ax, ay) == (
                    if ring_covers(x as int, y as int, spread@, ax, ay, k as int) {
                        ObjectView::Water
                    } else {
                        old(self)@.cell(ax, ay)
                    }),
            decreases 8 - k,
        {
            let ghost before = self@;
            if spread[k] {
                match self.neighbor(x, y, k) {
                    Some((nx, ny)) => {
                        self.set_cell(nx, ny, Object::Water(Water::new()));
                    },
                    None => {},
                }
            }
            assert forall|ax: int, ay: int| old(self)@.in_bounds(ax, ay) implies #[trigger] self@.cell(
                ax,
                ay,
            ) == (if ring_covers(x as int, y as int, spread@, ax, ay, k + 1) {
                ObjectView::Water
            } else {
                old(self)@.cell(ax, ay)
            }) by {
                let hit = spread@[k as int] && ax == x + offset(k as int).0 && ay == y + offset(
                    k as int,
                ).1;
                assert(ring_covers(x as int, y as int, spread@, ax, ay, k + 1) == (ring_covers(
                    x as int,
                    y as int,
                    spread@,
                    ax,
                    ay,
                    k as int,
                ) || hit));
                assert(before.cell(ax, ay) == (if ring_covers(
                    x as int,
                    y as int,
                    spread@,
                    ax,
                    ay,
                    k as int,
                ) {
                    ObjectView::Water
                } else {
                    old(self)@.cell(ax, ay)
                }));
            }
            k += 1;
        }
        proof {
            let ringed = old(self)@.with_ring(x as int, y as int, spread@);
            lemma_with_ring(old(self)@, x as int, y as int, spread@);
            assert forall|ax: int, ay: int| self@.in_bounds(ax, ay) implies #[trigger] self@.cell(
                ax,
                ay,
            ) == ringed.cell(ax, ay) by {
                assert(old(self)@.in_bounds(ax, ay));
            }
            lemma_same_cells(self@, ringed);
        }
    }

    /// Draws whether water spreads from `(x, y)` to its `k`-th neighbour: with a chance of
    /// `percent` in a hundred where that neighbour lies on the grid, never where it does
    /// not.
    fn draw_towards(
        &self,
        x: usize,
        y: usize,
        k: usize,
        rng: &mut rand::rngs::ThreadRng,
        percent: u32,
    ) -> (hit: bool)
        requires
            self@.in_bounds(x as int, y as int),
            k < 8,
            percent <= 100,
        ensures
            percent == 0 ==> !hit,
            hit ==> self@.in_bounds(x + offset(k as int).0, y + offset(k as int).1),
            percent == 100 && self@.in_bounds(x + offset(k as int).0, y + offset(k as int).1)
                ==> hit,
    {
        match self.neighbor(x, y, k) {
            Some(_) => random_chance(rng, percent, 100),
            None => false,
        }
    }

    /// Lets water spread from `(x, y)` to its neighbours, and from each neighbour it
    /// reaches further on, at most `depth` steps away. Each neighbour on the grid turns to
    /// water with a chance of `percent` in a hundred; these draws make one ring of water
    /// round `(x, y)`. From each neighbour reached the water spreads on in the same way,
    /// with the chance `next_chance` gives and a depth lower by one.
    ///
    /// Whatever is drawn, the world afterwards is one that `flooded` allows: some ring laid
    /// round `(x, y)`, then the same from each neighbour reached. So a cell either stays as
    /// it was or becomes water, and no cell farther than `depth` from `(x, y)` changes. With
    /// a depth of one the world afterwards is the world before with some ring of water laid
    /// round `(x, y)`.
    pub fn populate_adjacent_water(
        &mut self,
        x: usize,
        y: usize,
        rng: &mut rand::rngs::ThreadRng,
        percent: u32,
        depth: u8,
    )
        requires
            old(self)@.wf(),
            old(self)@.in_bounds(x as int, y as int),
            percent <= 100,
        ensures
            final(self)@.wf(),
            final(self)@.grown_from(old(self)@, ObjectView::Water),
            final(self)@.same_beyond(old(self)@, x as int, y as int, depth as int),
            percent == 0 || depth == 0 ==> final(self)@ == old(self)@,
            percent == 100 && depth > 0 ==> forall|ax: int, ay: int|
                old(self)@.in_bounds(ax, ay) && near(x as int, y as int, ax, ay, 1) && !(ax == x
                    && ay == y) ==> #[trigger] final(self)@.cell(ax, ay) == ObjectView::Water,
            depth == 1 ==> exists|spread: Seq<bool>|
                spread.len() == 8 && final(self)@ == #[trigger] old(self)@.with_ring(
                    x as int,
                    y as int,
                    spread,
                ),
            depth == 1 ==> final(self)@.cell(x as int, y as int) == old(self)@.cell(
                x as int,
                y as int,
            ),
            flooded(old(self)@, final(self)@, x as int, y as int, depth as nat),
        decreases depth,
    {
        if depth == 0 {
            return ;
        }
        let spread = [
            self.draw_towards(x, y, 0, rng, percent),
            self.draw_towards(x, y, 1, rng, percent),
            self.draw_towards(x, y, 2, rng, percent),
            self.draw_towards(x, y, 3, rng, percent),
            self.draw_towards(x, y, 4, rng, percent),
            self.draw_towards(x, y, 5, rng, percent),
            self.draw_towards(x, y, 6, rng, percent),
            self.draw_towards(x, y, 7, rng, percent),
        ];
        self.wet_ring(x, y, &spread);
        let ghost ringed = self@;
        proof {
            lemma_with_ring(old(self)@, x as int, y as int, spread@);
            assert forall|j: int| percent == 100 && 0 <= j < 8 implies #[trigger] ringed.wet_towards(
                x as int,
                y as int,
                j,
            ) by {
                if ringed.in_bounds(x + offset(j).0, y + offset(j).1) {
                    assert(spread@[j]);
                    lemma_ring_covers(
                        x as int,
                        y as int,
                        spread@,
                        x + offset(j).0,
                        y + offset(j).1,
                        8,
                    );
                }
            }
        }
        let next = next_chance(percent);
        let ghost mut stages: Seq<GameView> = seq![ringed];
        let mut k: usize = 0;
        while k < 8
            invariant
                k <= 8,
                depth > 0,
                next <= 100,
                self@.wf(),
                ringed.wf(),
                ringed.in_bounds(x as int, y as int),
                ringed.width == old(self)@.width,
                ringed.height == old(self)@.height,
                self@.grown_from(ringed, ObjectView::Water),
                self@.same_beyond(ringed, x as int, y as int, depth as int),
                depth == 1 ==> self@ == ringed,
                percent == 0 ==> self@ == ringed,
                percent == 0 ==> forall|j: int| 0 <= j < 8 ==> !spread@[j],
                forall|j: int|
                    0 <= j < 8 && spread@[j] ==> old(self)@.in_bounds(
                        x + offset(j).0,
                        y + offset(j).1,
                    ),
                stages.len() == k + 1,
                stages[0] == ringed,
                stages[k as int] == self@,
                forall|j: int|
                    0 <= j < k ==> #[trigger] flood_step(
                        stages,
                        spread@,
                        x as int,
                        y as int,
                        depth as nat,
                        j,
                    ),
            decreases 8 - k,
        {
            let ghost before = self@;
            if spread[k] {
                match self.neighbor(x, y, k) {
                    Some((nx, ny)) => {
                        self.populate_adjacent_water(nx, ny, rng, next, depth - 1);
                        assert forall|ax: int, ay: int| ringed.in_bounds(ax, ay) implies (
                        #[trigger] self@.cell(ax, ay) == ringed.cell(ax, ay) || self@.cell(ax, ay)
                            == ObjectView::Water) && (!near(x as int, y as int, ax, ay, depth as int)
                            ==> self@.cell(ax, ay) == ringed.cell(ax, ay)) by {
                            assert(self@.cell(ax, ay) == before.cell(ax, ay) || self@.cell(ax, ay)
                                == ObjectView::Water);
                            assert(before.cell(ax, ay) == ringed.cell(ax, ay) || before.cell(ax, ay)
                                == ObjectView::Water);
                            if !near(x as int, y as int, ax, ay, depth as int) {
                                assert(!near(nx as int, ny as int, ax, ay, depth - 1));
                            }
                        }
                    },
                    None => {},
                }
            }
            proof {
                let longer = stages.push(self@);
                assert forall|j: int| 0 <= j < k + 1 implies #[trigger] flood_step(
                    longer,
                    spread@,
                    x as int,
                    y as int,
                    depth as nat,
                    j,
                ) by {
                    assert(longer[0] == stages[0]);
                    assert(longer[j] == stages[j]);
                    if j < k {
                        assert(longer[j + 1] == stages[j + 1]);
                        assert(flood_step(stages, spread@, x as int, y as int, depth as nat, j));
                    } else {
                        assert(longer[j + 1] == self@);
                        assert(longer[j] == before);
                    }
                }
                stages = longer;
            }
            k += 1;
        }
        proof {
            assert(stages[0] == old(self)@.with_ring(x as int, y as int, spread@));
            assert(stages[8] == self@);
            assert forall|j: int| 0 <= j < 8 implies if #[trigger] spread@[j]
                && old(self)@.in_bounds(x + offset(j).0, y + offset(j).1) {
                flooded(
                    stages[j],
                    stages[j + 1],
                    x + offset(j).0,
                    y + offset(j).1,
                    (depth - 1) as nat,
                )
            } else {
                stages[j + 1] == stages[j]
            } by {
                assert(flood_step(stages, spread@, x as int, y as int, depth as nat, j));
            }
            assert(flooded(old(self)@, self@, x as int, y as int, depth as nat));
        }
        proof {
            assert forall|ax: int, ay: int| old(self)@.in_bounds(ax, ay) implies (
            #[trigger] self@.cell(ax, ay) == old(self)@.cell(ax, ay) || self@.cell(ax, ay)
                == ObjectView::Water) && (!near(x as int, y as int, ax, ay, depth as int)
                ==> self@.cell(ax, ay) == old(self)@.cell(ax, ay)) by {
                assert(self@.cell(ax, ay) == ringed.cell(ax, ay) || self@.cell(ax, ay)
                    == ObjectView::Water);
                assert(ringed.cell(ax, ay) == old(self)@.cell(ax, ay) || ringed.cell(ax, ay)
                    == ObjectView::Water);
                if !near(x as int, y as int, ax, ay, depth as int) {
                    assert(!near(x as int, y as int, ax, ay, 1));
                }
            }
            if percent == 100 {
                assert forall|ax: int, ay: int|
                    old(self)@.in_bounds(ax, ay) && near(x as int, y as int, ax, ay, 1) && !(ax
                        == x && ay == y) implies #[trigger] self@.cell(ax, ay)
                    == ObjectView::Water by {
                    assert(ringed.wet_towards(x as int, y as int, 0));
                    assert(ringed.wet_towards(x as int, y as int, 1));
                    assert(ringed.wet_towards(x as int, y as int, 2));
                    assert(ringed.wet_towards(x as int, y as int, 3));
                    assert(ringed.wet_towards(x as int, y as int, 4));
                    assert(ringed.wet_towards(x as int, y as int, 5));
                    assert(ringed.wet_towards(x as int, y as int, 6));
                    assert(ringed.wet_towards(x as int, y as int, 7));
                    assert(ringed.cell(ax, ay) == ObjectView::Water);
                    assert(self@.cell(ax, ay) == ringed.cell(ax, ay) || self@.cell(ax, ay)
                        == ObjectView::Water);
                }
            }
            if depth == 1 {
                assert(spread@.len() == 8);
                assert(self@ == old(self)@.with_ring(x as int, y as int, spread@));
            }
        }
    }

    /// Seeds bodies of water: as many as `water_density` says, each at a cell drawn at
    /// random from the part of the grid that keeps two cells away from every edge, each
    /// spreading from there with `WATER_CHANCE` and `WATER_DEPTH`. Whatever is drawn,
    /// there are such seed cells that all hold water afterwards, and every other cell
    /// either stays as it was or becomes water within `WATER_DEPTH` of a seed.
    pub fn populate_water(&mut self)
        requires
            old(self)@.wf(),
        ensures
            final(self)@.wf(),
            exists|seeds: Seq<(int, int)>| #[trigger]
                old(self)@.water_seeds(seeds) && final(self)@.watered_from(old(self)@, seeds),
            final(self)@.grown_from(old(self)@, ObjectView::Water),
            old(self)@.water_density() == 0 ==> final(self)@ == old(self)@,
    {
        let mut rng = rand::thread_rng();
        let density = self.water_density();
        let (x_low, x_high) = inner_range(self.width(), 2);
        let (y_low, y_high) = inner_range(self.height(), 2);
        let mut seeded: u128 = 0;
        let ghost mut seeds: Seq<(int, int)> = Seq::empty();
        while seeded < density
            invariant
                self@.wf(),
                self@.grown_from(old(self)@, ObjectView::Water),
                seeded == 0 ==> self@ == old(self)@,
                x_low < x_high <= self@.width,
                y_low < y_high <= self@.height,
                x_low == inner_low(old(self)@.width as int, 2),
                x_high == inner_high(old(self)@.width as int, 2),
                y_low == inner_low(old(self)@.height as int, 2),
                y_high == inner_high(old(self)@.height as int, 2),
                seeded <= density,
                density == old(self)@.water_density(),
                seeds.len() == seeded,
                forall|i: int|
                    0 <= i < seeds.len() ==> x_low <= (#[trigger] seeds[i]).0 < x_high && y_low
                        <= seeds[i].1 < y_high,
                self@.watered_from(old(self)@, seeds),
            decreases density - seeded,
        {
            let ghost before = self@;
            let x = random_index(&mut rng, x_low, x_high);
            let y = random_index(&mut rng, y_low, y_high);
            self.set_cell(x, y, Object::Water(Water::new()));
            let ghost wet = self@;
            self.populate_adjacent_water(x, y, &mut rng, WATER_CHANCE, WATER_DEPTH);
            assert forall|ax: int, ay: int| old(self)@.in_bounds(ax, ay) implies #[trigger] self@.cell(
                ax,
                ay,
            ) == old(self)@.cell(ax, ay) || self@.cell(ax, ay) == ObjectView::Water by {
                assert(self@.cell(ax, ay) == wet.cell(ax, ay) || self@.cell(ax, ay)
                    == ObjectView::Water);
                assert(before.cell(ax, ay) == old(self)@.cell(ax, ay) || before.cell(ax, ay)
                    == ObjectView::Water);
            }
            proof {
                let longer = seeds.push((x as int, y as int));
                let last = seeds.len() as int;
                assert(longer[last] == (x as int, y as int));
                assert forall|i: int| 0 <= i < longer.len() implies self@.cell(
                    (#[trigger] longer[i]).0,
                    longer[i].1,
                ) == ObjectView::Water by {
                    let sx = longer[i].0;
                    let sy = longer[i].1;
                    assert(self@.cell(sx, sy) == wet.cell(sx, sy) || self@.cell(sx, sy)
                        == ObjectView::Water);
                    if i < last {
                        assert(longer[i] == seeds[i]);
                        assert(before.cell(seeds[i].0, seeds[i].1) == ObjectView::Water);
                        assert(wet.cell(sx, sy) == ObjectView::Water);
                    } else {
                        assert(wet.cell(sx, sy) == ObjectView::Water);
                    }
                }
                assert forall|ax: int, ay: int| old(self)@.in_bounds(ax, ay) implies #[trigger] self@.cell(
                    ax,
                    ay,
                ) == old(self)@.cell(ax, ay) || (self@.cell(ax, ay) == ObjectView::Water
                    && reached(longer, ax, ay, WATER_DEPTH as int)) by {
                    assert(self@.cell(ax, ay) == wet.cell(ax, ay) || self@.cell(ax, ay)
                        == ObjectView::Water);
                    if self@.cell(ax, ay) != old(self)@.cell(ax, ay) {
                        if near(x as int, y as int, ax, ay, WATER_DEPTH as int) {
                            assert(near(longer[last].0, longer[last].1, ax, ay, WATER_DEPTH as int));
                        } else {
                            assert(self@.cell(ax, ay) == wet.cell(ax, ay));
                            assert(wet.cell(ax, ay) == before.cell(ax, ay));
                            assert(before.cell(ax, ay) == old(self)@.cell(ax, ay) || (before.cell(
                                ax,
                                ay,
                            ) == ObjectView::Water && reached(
                                seeds,
                                ax,
                                ay,
                                WATER_DEPTH as int,
                            )));
                            let i = choose|i: int|
                                0 <= i < seeds.len() && near(
                                    (#[trigger] seeds[i]).0,
                                    seeds[i].1,
                                    ax,
                                    ay,
                                    WATER_DEPTH as int,
                                );
                            assert(longer[i] == seeds[i]);
                            assert(near(longer[i].0, longer[i].1, ax, ay, WATER_DEPTH as int));
                        }
                    }
                }
                seeds = longer;
            }
            seeded += 1;
        }
        assert(old(self)@.water_seeds(seeds));
    }

    /// A new world of the given size: open ground, then groves, then water. Which cells the
    /// generators pick is left open: the world is open ground with some scatter of groves
    /// planted and water seeded and spread after that. No cell holds a player, a world too
    /// small for a single grove is open ground everywhere, and one too small for a body of
    /// water holds no water.
    pub fn new(width: usize, height: usize) -> (game: Game)
        requires
            width > 0,
            height > 0,
        ensures
            game@.wf(),
            game@.width == width,
            game@.height == height,
            game@.terrain_only(),
            game@.placed(),
            game@.tree_density() == 0 ==> game@ == GameView::blank(width as nat, height as nat),
            exists|plan: Seq<Grove>, seeds: Seq<(int, int)>|
                #![trigger GameView::blank(width as nat, height as nat).with_groves(plan).water_seeds(seeds)]
                GameView::blank(width as nat, height as nat).tree_plan(plan) && GameView::blank(
                    width as nat,
                    height as nat,
                ).with_groves(plan).water_seeds(seeds) && game@.watered_from(
                    GameView::blank(width as nat, height as nat).with_groves(plan),
                    seeds,
                ),
            game@.water_density() == 0 ==> forall|x: int, y: int|
                game@.in_bounds(x, y) ==> !(#[trigger] game@.cell(x, y) is Water),
    {
        let mut game = Game::blank(width, height);
        let ghost bare = game@;
        game.populate_trees();
        let ghost wooded = game@;
        game.populate_water();
        proof {
            let plan = choose|plan: Seq<Grove>| #[trigger]
                bare.tree_plan(plan) && wooded == bare.with_groves(plan);
            let seeds = choose|seeds: Seq<(int, int)>| #[trigger]
                wooded.water_seeds(seeds) && game@.watered_from(wooded, seeds);
            assert(bare.with_groves(plan).water_seeds(seeds));
            if game@.water_density() == 0 {
                assert(wooded.water_density() == 0);
                assert forall|x: int, y: int| game@.in_bounds(x, y) implies !(
                #[trigger] game@.cell(x, y) is Water) by {
                    assert(wooded.cell(x, y) == bare.cell(x, y) || wooded.cell(x, y)
                        == ObjectView::Tree);
                }
            }
        }
        assert forall|x: int, y: int| game@.in_bounds(x, y) implies !(#[trigger] game@.cell(
            x,
            y,
        ) is Player) by {
            assert(wooded.cell(x, y) == bare.cell(x, y) || wooded.cell(x, y) == ObjectView::Tree);
            assert(game@.cell(x, y) == wooded.cell(x, y) || game@.cell(x, y) == ObjectView::Water);
        }
        assert(game@.tree_density() == 0 ==> game@.water_density() == 0) by (nonlinear_arith)
            requires
                game@.tree_density() == (game@.width * game@.height * 3) / 100,
                game@.water_density() == (game@.width * game@.height) / 2000,
        ;
        game
    }
}

} // verus!
