use crate::utils::Hue;
use vstd::prelude::*;

verus! {

/// Open ground: the only kind of cell a player can step onto.
#[derive(Debug, PartialEq)]
pub struct Tile {}

/// A tree; it blocks movement.
#[derive(Debug, PartialEq)]
pub struct Tree {}

/// Water; it blocks movement.
#[derive(Debug, PartialEq)]
pub struct Water {}

/// An avatar on the grid, as held by its connection and as copied into the cell it stands on.
#[derive(Debug, PartialEq)]
pub struct Player {
    pub name: String,
    pub x: usize,
    pub y: usize,
    pub inventory: Vec<Object>,
    pub symbol: char,
}

/// What one grid cell (or one inventory slot) holds.
#[derive(Debug, PartialEq)]
pub enum Object {
    Tile(Tile),
    Tree(Tree),
    Player(Player),
    Water(Water),
}

/// The mathematical value of a [`Player`].
pub struct PlayerView {
    pub name: Seq<char>,
    pub x: nat,
    pub y: nat,
    pub inventory: Seq<ObjectView>,
    pub symbol: char,
}

/// The mathematical value of an [`Object`].
pub enum ObjectView {
    Tile,
    Tree,
    Player(PlayerView),
    Water,
}

/// The value of an object: its kind, and for a player the player's value.
pub open spec fn object_view(o: Object) -> ObjectView
    decreases o,
{
    match o {
        Object::Tile(_) => ObjectView::Tile,
        Object::Tree(_) => ObjectView::Tree,
        Object::Player(p) => ObjectView::Player(player_view(p)),
        Object::Water(_) => ObjectView::Water,
    }
}

/// The value of a player: name, place and symbol, and the values of what it carries.
pub open spec fn player_view(p: Player) -> PlayerView
    decreases p,
{
    PlayerView {
        name: p.name@,
        x: p.x as nat,
        y: p.y as nat,
        inventory: Seq::new(
            p.inventory@.len(),
            |i: int|
                if 0 <= i < p.inventory@.len() {
                    object_view(p.inventory@[i])
                } else {
                    ObjectView::Tile
                },
        ),
        symbol: p.symbol,
    }
}

/// The values of stored objects, in their order.
pub open spec fn objects_view(items: Seq<Object>) -> Seq<ObjectView> {
    Seq::new(items.len(), |i: int| items[i]@)
}

impl View for Object {
    type V = ObjectView;

    open spec fn view(&self) -> ObjectView {
        object_view(*self)
    }
}

impl View for Player {
    type V = PlayerView;

    open spec fn view(&self) -> PlayerView {
        player_view(*self)
    }
}

impl Clone for Object {
    fn clone(&self) -> (copy: Object)
        ensures
            copy@ == self@,
        decreases self,
    {
        match self {
            Object::Tile(_) => Object::Tile(Tile {  }),
            Object::Tree(_) => Object::Tree(Tree {  }),
            Object::Player(p) => Object::Player(p.clone()),
            Object::Water(_) => Object::Water(Water {  }),
        }
    }
}

impl Clone for Player {
    fn clone(&self) -> (copy: Player)
        ensures
            copy@ == self@,
        decreases self,
    {
        let mut inventory: Vec<Object> = Vec::new();
        let mut i: usize = 0;
        while i < self.inventory.len()
            invariant
                i <= self.inventory.len(),
                inventory@.len() == i,
                forall|k: int| 0 <= k < i ==> (#[trigger] inventory@[k])@ == self.inventory@[k]@,
            decreases self.inventory.len() - i,
        {
            inventory.push(self.inventory[i].clone());
            i += 1;
        }
        let copy = Player {
            name: self.name.clone(),
            x: self.x,
            y: self.y,
            inventory,
            symbol: self.symbol,
        };
        assert(copy@.inventory =~= self@.inventory);
        copy
    }
}

impl Tile {
    /// A piece of open ground.
    pub fn new() -> (tile: Tile)
        ensures
            Object::Tile(tile)@ == ObjectView::Tile,
    {
        Tile {  }
    }
}

impl Tree {
    /// A tree.
    pub fn new() -> (tree: Tree)
        ensures
            Object::Tree(tree)@ == ObjectView::Tree,
    {
        Tree {  }
    }
}

impl Water {
    /// A piece of water.
    pub fn new() -> (water: Water)
        ensures
            Object::Water(water)@ == ObjectView::Water,
    {
        Water {  }
    }
}

impl ObjectView {
    /// The character a cell is shown as: a blank for open ground, a triangle for a tree, a
    /// tilde for water, and for a player the player's symbol.
    pub open spec fn glyph(self) -> char {
        match self {
            ObjectView::Tile => ' ',
            ObjectView::Tree => '\u{25b2}',
            ObjectView::Water => '~',
            ObjectView::Player(player) => player.symbol,
        }
    }

    /// The tint a cell is shown in: green for a tree, blue for water, red for a player;
    /// open ground has none.
    pub open spec fn hue(self) -> Option<Hue> {
        match self {
            ObjectView::Tile => None,
            ObjectView::Tree => Some(Hue::Green),
            ObjectView::Water => Some(Hue::Blue),
            ObjectView::Player(_) => Some(Hue::Red),
        }
    }
}

impl Object {
    /// The character this object is shown as.
    pub fn glyph(&self) -> (glyph: char)
        ensures
            glyph == self@.glyph(),
    {
        match self {
            Object::Tile(_) => ' ',
            Object::Tree(_) => '\u{25b2}',
            Object::Water(_) => '~',
            Object::Player(player) => player.symbol,
        }
    }

    /// The tint this object is shown in, if it has one.
    pub fn hue(&self) -> (hue: Option<Hue>)
        ensures
            hue == self@.hue(),
    {
        match self {
            Object::Tile(_) => None,
            Object::Tree(_) => Some(Hue::Green),
            Object::Water(_) => Some(Hue::Blue),
            Object::Player(_) => Some(Hue::Red),
        }
    }

    /// Whether two objects have the same value, inventories included.
    pub fn same_as(&self, other: &Object) -> (same: bool)
        ensures
            same == (self@ == other@),
        decreases self,
    {
        match (self, other) {
            (Object::Tile(_), Object::Tile(_)) => true,
            (Object::Tree(_), Object::Tree(_)) => true,
            (Object::Water(_), Object::Water(_)) => true,
            (Object::Player(p), Object::Player(q)) => p.same_as(q),
            _ => false,
        }
    }
}

impl Player {
    /// A player of the given name and symbol at `(x, y)`, carrying nothing.
    pub fn new(name: String, x: usize, y: usize, symbol: char) -> (player: Player)
        ensures
            player@.name == name@,
            player@.x == x,
            player@.y == y,
            player@.symbol == symbol,
            player@.inventory == Seq::<ObjectView>::empty(),
    {
        let player = Player { name, x, y, inventory: Vec::new(), symbol };
        assert(player@.inventory =~= Seq::<ObjectView>::empty());
        player
    }

    /// Whether two players have the same value: name, place, symbol and inventory.
    pub fn same_as(&self, other: &Player) -> (same: bool)
        ensures
            same == (self@ == other@),
        decreases self,
    {
        if !(self.name == other.name && self.x == other.x && self.y == other.y && self.symbol
            == other.symbol) {
            return false;
        }
        if self.inventory.len() != other.inventory.len() {
            assert(self@.inventory.len() != other@.inventory.len());
            return false;
        }
        let mut i: usize = 0;
        while i < self.inventory.len()
            invariant
                i <= self.inventory.len(),
                self.inventory.len() == other.inventory.len(),
                forall|k: int| 0 <= k < i ==> self.inventory@[k]@ == other.inventory@[k]@,
            decreases self.inventory.len() - i,
        {
            if !self.inventory[i].same_as(&other.inventory[i]) {
                assert(self@.inventory[i as int] != other@.inventory[i as int]);
                return false;
            }
            i += 1;
        }
        assert(self@.inventory =~= other@.inventory);
        true
    }
}

} // verus!
